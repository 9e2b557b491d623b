//! What the player asks for, and what a batch of such requests does to a
//! game.

use vstd::prelude::*;
use crate::board::{fits, BOARD_ROWS};
use crate::piece::{lemma_move, lemma_rotation, Tetrimino};
use crate::session::{lemma_room_to_lock, Tetris, MAX_LOCK_AWARD};

verus! {

/// One request of the player.
#[derive(Clone, Copy, Debug, PartialEq, Eq)]
pub enum Intent {
    Quit,
    MoveLeft,
    MoveRight,
    RotateCW,
    SoftDropStep,
    HardDrop,
}

/// Where a batch of requests stands: the piece as the rotations and drops
/// so far have left it, the place that the moves so far ask for, whether a
/// drop to the ground was asked for, and whether the player has quit.
pub struct Pending {
    pub piece: Tetrimino,
    pub x: int,
    pub y: int,
    pub hard_drop: bool,
    pub quit: bool,
}

/// The start of a batch: the moves ask for the place where the piece is.
pub open spec fn start(piece: Tetrimino) -> Pending {
    Pending { piece, x: piece.x as int, y: piece.y as int, hard_drop: false, quit: false }
}

/// One request taken in. A move to the left, to the right or one row down
/// only shifts the place asked for; a rotation and a drop to the ground
/// act on the piece at once.
pub open spec fn step(s: Pending, b: Seq<Seq<u8>>, intent: Intent) -> Pending {
    match intent {
        Intent::Quit => Pending { quit: true, ..s },
        Intent::MoveLeft => Pending { x: s.x - 1, ..s },
        Intent::MoveRight => Pending { x: s.x + 1, ..s },
        Intent::SoftDropStep => Pending { y: s.y + 1, ..s },
        Intent::RotateCW => Pending { piece: s.piece.rotated(b), ..s },
        Intent::HardDrop => Pending { piece: s.piece.dropped(b), hard_drop: true, ..s },
    }
}

/// The first `n` requests of a batch taken in, in their order. Nothing
/// that follows a `Quit` is taken in.
pub open spec fn run(s0: Pending, b: Seq<Seq<u8>>, intents: Seq<Intent>, n: int) -> Pending
    decreases n,
{
    if n <= 0 {
        s0
    } else {
        let s = run(s0, b, intents, n - 1);
        if s.quit {
            s
        } else {
            step(s, b, intents[n - 1])
        }
    }
}

/// The place asked for can be stored in a piece.
pub open spec fn storable(x: int, y: int) -> bool {
    isize::MIN <= x <= isize::MAX && 0 <= y <= usize::MAX
}

/// The piece moves to the place asked for: no drop to the ground was asked
/// for, the place can be stored, and the piece fits there.
pub open spec fn move_succeeds(s: Pending, b: Seq<Seq<u8>>) -> bool {
    !s.hard_drop && storable(s.x, s.y) && fits(s.piece.shape(), b, s.x, s.y)
}

/// The piece at the end of a batch: at the place asked for when the move
/// succeeds, else as the rotations and drops have left it.
pub open spec fn settled_piece(s: Pending, b: Seq<Seq<u8>>) -> Tetrimino {
    if move_succeeds(s, b) {
        s.piece.moved(b, s.x as isize, s.y as usize)
    } else {
        s.piece
    }
}

/// The piece is locked in at the end of a batch: a drop to the ground was
/// asked for, or the move fails and asked for another row than the one
/// the piece is on.
pub open spec fn locks(s: Pending, b: Seq<Seq<u8>>) -> bool {
    s.hard_drop || (!move_succeeds(s, b) && s.y != s.piece.y)
}

/// The game with `piece` in play in place of its own.
pub open spec fn with_piece(tetris: Tetris, piece: Tetrimino) -> Tetris {
    Tetris { current_piece: Some(piece), ..tetris }
}

/// The end of a whole batch on the piece in play.
pub open spec fn batch_end(tetris: Tetris, intents: Seq<Intent>) -> Pending
    recommends
        tetris.current_piece is Some,
{
    run(start(tetris.current_piece->0), tetris.board(), intents, intents.len() as int)
}

/// Score and line count have room for what the batch may add.
pub open spec fn batch_fits(tetris: Tetris, intents: Seq<Intent>) -> bool {
    tetris.current_piece is Some && locks(batch_end(tetris, intents), tetris.board())
        ==> with_piece(
        tetris,
        settled_piece(batch_end(tetris, intents), tetris.board()),
    ).can_lock()
}

/// Once the player has quit, the rest of the batch changes nothing.
pub proof fn lemma_quit_ends_batch(
    s0: Pending,
    b: Seq<Seq<u8>>,
    intents: Seq<Intent>,
    n: int,
    m: int,
)
    requires
        0 <= n <= m,
        run(s0, b, intents, n).quit,
    ensures
        run(s0, b, intents, m) == run(s0, b, intents, n),
    decreases m - n,
{
    if n < m {
        lemma_quit_ends_batch(s0, b, intents, n, m - 1);
    }
}

/// Through a batch the piece stays well formed, and the place asked for
/// is never more than one step per request away from where the piece
/// started.
pub proof fn lemma_run(s0: Pending, b: Seq<Seq<u8>>, intents: Seq<Intent>, n: int)
    requires
        0 <= n,
        s0.piece.wf(),
        b.len() <= usize::MAX,
    ensures
        run(s0, b, intents, n).piece.wf(),
        run(s0, b, intents, n).piece.states == s0.piece.states,
        s0.x - n <= run(s0, b, intents, n).x <= s0.x + n,
        s0.y <= run(s0, b, intents, n).y <= s0.y + n,
        s0.piece.placed(b) ==> run(s0, b, intents, n).piece.placed(b),
    decreases n,
{
    if n > 0 {
        lemma_run(s0, b, intents, n - 1);
        let s = run(s0, b, intents, n - 1);
        lemma_rotation(s.piece, b);
        lemma_dropped(s.piece, b);
    }
}

/// A piece that has fallen is the same piece on a row at or below its
/// own; where it lay on free cells before, it does so after.
pub proof fn lemma_dropped(piece: Tetrimino, b: Seq<Seq<u8>>)
    requires
        piece.wf(),
        b.len() <= usize::MAX,
    ensures
        piece.dropped(b).wf(),
        piece.dropped(b).states == piece.states,
        piece.dropped(b).current_state == piece.current_state,
        piece.dropped(b).x == piece.x,
        piece.dropped(b).y >= piece.y,
        piece.placed(b) ==> piece.dropped(b).placed(b),
{
    crate::piece::lemma_landing_row(piece.shape(), b, piece.x as int, piece.y as int);
    let row = crate::piece::landing_row(piece.shape(), b, piece.x as int, piece.y as int);
    assert(piece.y <= row <= usize::MAX);
    assert(piece.dropped(b).shapes() == piece.shapes());
    if piece.placed(b) && row > piece.y {
        assert(fits(piece.shape(), b, piece.x as int, row));
    }
}

/// The piece that a batch leaves is well formed, and lies on free cells
/// where the piece lay on free cells before.
pub proof fn lemma_settled(piece: Tetrimino, b: Seq<Seq<u8>>, intents: Seq<Intent>)
    requires
        piece.wf(),
        b.len() <= usize::MAX,
    ensures
        settled_piece(run(start(piece), b, intents, intents.len() as int), b).wf(),
        piece.placed(b) ==> settled_piece(
            run(start(piece), b, intents, intents.len() as int),
            b,
        ).placed(b),
{
    let end = run(start(piece), b, intents, intents.len() as int);
    lemma_run(start(piece), b, intents, intents.len() as int);
    if move_succeeds(end, b) {
        lemma_move(end.piece, b, end.x as isize, end.y as usize);
    }
}

/// A well-formed game whose score and line count are far enough below
/// their largest values for one lock has room for any batch.
pub proof fn lemma_batch_fits(tetris: Tetris, intents: Seq<Intent>)
    requires
        tetris.wf(),
        tetris.score + MAX_LOCK_AWARD <= u32::MAX,
        tetris.num_lines + BOARD_ROWS <= u32::MAX,
    ensures
        batch_fits(tetris, intents),
{
    if let Some(piece) = tetris.current_piece {
        lemma_settled(piece, tetris.board(), intents);
        lemma_room_to_lock(
            with_piece(tetris, settled_piece(batch_end(tetris, intents), tetris.board())),
        );
    }
}

/// Takes in a batch of requests for the piece in play. Moves to the left,
/// to the right and one row down add up and are made in one move at the
/// end of the batch; a rotation and a drop to the ground act at once. A
/// `Quit` sets `quit` and ends the batch. The piece is locked in, and
/// `true` returned, when a drop to the ground was asked for, or when the
/// move at the end fails and asked for a lower row. With no piece in play
/// nothing happens.
pub fn handle_events(tetris: &mut Tetris, quit: &mut bool, intents: &[Intent]) -> (locked: bool)
    requires
        old(tetris).wf(),
        batch_fits(*old(tetris), intents@),
    ensures
        final(tetris).wf(),
        match old(tetris).current_piece {
            None => !locked && *final(tetris) == *old(tetris) && *final(quit) == *old(quit),
            Some(_) => {
                let end = batch_end(*old(tetris), intents@);
                let after = with_piece(*old(tetris), settled_piece(end, old(tetris).board()));
                &&& locked == locks(end, old(tetris).board())
                &&& *final(quit) == (*old(quit) || end.quit)
                &&& locked ==> final(tetris).is_lock_of(after)
                &&& !locked ==> *final(tetris) == after
            },
        },
{
    let taken = tetris.current_piece.take();
    match taken {
        None => false,
        Some(mut piece) => {
            let ghost b = tetris.board();
            let ghost s0 = start(piece);
            let ghost whole = intents@.len() as int;
            let mut tmp_x: i128 = piece.x as i128;
            let mut tmp_y: u128 = piece.y as u128;
            let mut hard_drop = false;
            let mut stop = false;
            let mut i: usize = 0;
            while i < intents.len() && !stop
                invariant
                    0 <= i <= intents@.len(),
                    b == tetris.board(),
                    b.len() <= usize::MAX,
                    s0.piece.wf(),
                    s0.x == s0.piece.x,
                    s0.y == s0.piece.y,
                    *tetris == (Tetris { current_piece: None, ..*old(tetris) }),
                    run(s0, b, intents@, i as int) == (Pending {
                        piece,
                        x: tmp_x as int,
                        y: tmp_y as int,
                        hard_drop,
                        quit: stop,
                    }),
                decreases intents@.len() - i + (if stop { 0int } else { 1int }),
            {
                proof {
                    lemma_run(s0, b, intents@, i as int);
                }
                match intents[i] {
                    Intent::Quit => {
                        stop = true;
                    },
                    Intent::MoveLeft => {
                        tmp_x -= 1;
                    },
                    Intent::MoveRight => {
                        tmp_x += 1;
                    },
                    Intent::SoftDropStep => {
                        tmp_y += 1;
                    },
                    Intent::RotateCW => {
                        piece.rotate(tetris.game_map.as_slice());
                    },
                    Intent::HardDrop => {
                        piece.hard_drop(tetris.game_map.as_slice());
                        hard_drop = true;
                    },
                }
                i += 1;
            }
            let ghost end = run(s0, b, intents@, i as int);
            proof {
                lemma_run(s0, b, intents@, i as int);
                if stop {
                    lemma_quit_ends_batch(s0, b, intents@, i as int, whole);
                }
                assert(end == batch_end(*old(tetris), intents@));
                lemma_settled(s0.piece, b, intents@);
            }
            if stop {
                *quit = true;
            }
            let mut make_permanent = hard_drop;
            if !make_permanent {
                let moved = tmp_x >= isize::MIN as i128 && tmp_x <= isize::MAX as i128 && tmp_y
                    <= usize::MAX as u128 && piece.change_position(
                    tetris.game_map.as_slice(),
                    tmp_x as isize,
                    tmp_y as usize,
                );
                if !moved && tmp_y != piece.y as u128 {
                    make_permanent = true;
                }
            }
            assert(piece == settled_piece(end, b));
            assert(make_permanent == locks(end, b));
            tetris.current_piece = Some(piece);
            assert(*tetris == with_piece(*old(tetris), settled_piece(end, b)));
            if make_permanent {
                tetris.make_permanent();
            }
            make_permanent
        },
    }
}

} // verus!
