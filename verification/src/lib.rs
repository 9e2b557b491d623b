pub mod board;
pub mod piece;
pub mod catalog;
pub mod progression;
pub mod session;
pub mod input;
pub mod scores;
