//! The seven kinds of piece. A kind is a number 0..=6 (I, O, T, S, Z, J, L
//! in this order); its cells carry the colour `kind + 1`.

use vstd::prelude::*;
use crate::piece::{has_cell, is_shape, shapes_of, States, Tetrimino};

verus! {

/// Number of kinds.
pub const NUM_KINDS: u8 = 7;

/// What stands for "no kind": the previous kind before the first draw.
pub const NO_KIND: u8 = 7;

pub const KIND_I: u8 = 0;

pub const KIND_O: u8 = 1;

pub const KIND_T: u8 = 2;

pub const KIND_S: u8 = 3;

pub const KIND_Z: u8 = 4;

pub const KIND_J: u8 = 5;

pub const KIND_L: u8 = 6;

/// The shapes of the I piece.
pub open spec fn i_shapes() -> Seq<Seq<Seq<u8>>> {
    seq![
        seq![seq![1u8, 1, 1, 1], seq![0u8, 0, 0, 0], seq![0u8, 0, 0, 0], seq![0u8, 0, 0, 0]],
        seq![seq![1u8, 0, 0, 0], seq![1u8, 0, 0, 0], seq![1u8, 0, 0, 0], seq![1u8, 0, 0, 0]],
    ]
}

/// The shape of the O piece.
pub open spec fn o_shapes() -> Seq<Seq<Seq<u8>>> {
    seq![seq![seq![2u8, 2, 0, 0], seq![2u8, 2, 0, 0], seq![0u8, 0, 0, 0], seq![0u8, 0, 0, 0]]]
}

/// The shapes of the T piece.
pub open spec fn t_shapes() -> Seq<Seq<Seq<u8>>> {
    seq![
        seq![seq![3u8, 3, 3, 0], seq![0u8, 3, 0, 0], seq![0u8, 0, 0, 0], seq![0u8, 0, 0, 0]],
        seq![seq![3u8, 0, 0, 0], seq![3u8, 3, 0, 0], seq![3u8, 0, 0, 0], seq![0u8, 0, 0, 0]],
    ]
}

/// The shapes of the S piece.
pub open spec fn s_shapes() -> Seq<Seq<Seq<u8>>> {
    seq![
        seq![seq![0u8, 4, 4, 0], seq![4u8, 4, 0, 0], seq![0u8, 0, 0, 0], seq![0u8, 0, 0, 0]],
        seq![seq![4u8, 0, 0, 0], seq![4u8, 4, 0, 0], seq![0u8, 4, 0, 0], seq![0u8, 0, 0, 0]],
    ]
}

/// The shapes of the Z piece.
pub open spec fn z_shapes() -> Seq<Seq<Seq<u8>>> {
    seq![
        seq![seq![5u8, 5, 0, 0], seq![0u8, 5, 5, 0], seq![0u8, 0, 0, 0], seq![0u8, 0, 0, 0]],
        seq![seq![0u8, 5, 0, 0], seq![5u8, 5, 0, 0], seq![5u8, 0, 0, 0], seq![0u8, 0, 0, 0]],
    ]
}

/// The shapes of the J piece.
pub open spec fn j_shapes() -> Seq<Seq<Seq<u8>>> {
    seq![
        seq![seq![0u8, 6, 0, 0], seq![0u8, 6, 0, 0], seq![0u8, 6, 0, 0], seq![6u8, 6, 0, 0]],
        seq![seq![6u8, 6, 6, 6], seq![0u8, 0, 0, 6], seq![0u8, 0, 0, 0], seq![0u8, 0, 0, 0]],
        seq![seq![6u8, 6, 0, 0], seq![6u8, 0, 0, 0], seq![6u8, 0, 0, 0], seq![6u8, 0, 0, 0]],
        seq![seq![6u8, 0, 0, 0], seq![6u8, 6, 6, 6], seq![0u8, 0, 0, 0], seq![0u8, 0, 0, 0]],
    ]
}

/// The shapes of the L piece.
pub open spec fn l_shapes() -> Seq<Seq<Seq<u8>>> {
    seq![
        seq![seq![7u8, 0, 0, 0], seq![7u8, 0, 0, 0], seq![7u8, 0, 0, 0], seq![7u8, 7, 0, 0]],
        seq![seq![0u8, 0, 0, 7], seq![7u8, 7, 7, 7], seq![0u8, 0, 0, 0], seq![0u8, 0, 0, 0]],
        seq![seq![7u8, 7, 0, 0], seq![0u8, 7, 0, 0], seq![0u8, 7, 0, 0], seq![0u8, 7, 0, 0]],
        seq![seq![7u8, 7, 7, 7], seq![7u8, 0, 0, 0], seq![0u8, 0, 0, 0], seq![0u8, 0, 0, 0]],
    ]
}

/// The shapes of a kind, one per rotation state.
pub open spec fn kind_shapes(kind: int) -> Seq<Seq<Seq<u8>>> {
    if kind == KIND_I {
        i_shapes()
    } else if kind == KIND_O {
        o_shapes()
    } else if kind == KIND_T {
        t_shapes()
    } else if kind == KIND_S {
        s_shapes()
    } else if kind == KIND_Z {
        z_shapes()
    } else if kind == KIND_J {
        j_shapes()
    } else {
        l_shapes()
    }
}

/// How many rotation states a kind has.
pub open spec fn state_count(kind: int) -> int {
    if kind == KIND_O {
        1
    } else if kind == KIND_J || kind == KIND_L {
        4
    } else {
        2
    }
}

/// The column in which a new piece of a kind appears.
pub open spec fn spawn_column(kind: int) -> int {
    if kind == KIND_O {
        5
    } else {
        4
    }
}

/// Every occupied cell of the shape has the colour `colour`.
pub open spec fn painted(shape: Seq<Seq<u8>>, colour: int) -> bool {
    forall|r: int, c: int|
        0 <= r < 4 && 0 <= c < 4 ==> #[trigger] shape[r][c] == 0 || shape[r][c] == colour
}

/// `piece` is a new piece of `kind`: it has the kind's shapes, is in its
/// first state and stands in the kind's column on the top row.
pub open spec fn is_spawn(piece: Tetrimino, kind: int) -> bool {
    &&& piece.shapes() == kind_shapes(kind)
    &&& piece.current_state == 0
    &&& piece.x == spawn_column(kind)
    &&& piece.y == 0
}

/// A 4x4 grid of the given rows has an occupied cell in row `r`, column `c`.
proof fn lemma_has_cell(s: Seq<Seq<u8>>, r: int, c: int)
    requires
        0 <= r < 4,
        0 <= c < 4,
        s[r][c] != 0,
    ensures
        has_cell(s),
{
}

/// Each kind has its number of states; each state is a 4x4 shape with an
/// occupied cell, and all its occupied cells have the colour `kind + 1`.
pub proof fn lemma_kind_shapes(kind: int)
    requires
        0 <= kind < NUM_KINDS,
    ensures
        kind_shapes(kind).len() == state_count(kind),
        forall|s: int|
            0 <= s < state_count(kind) ==> {
                &&& is_shape(#[trigger] kind_shapes(kind)[s])
                &&& has_cell(kind_shapes(kind)[s])
                &&& painted(kind_shapes(kind)[s], kind + 1)
            },
{
    let shapes = kind_shapes(kind);
    assert forall|s: int| 0 <= s < state_count(kind) implies {
        &&& is_shape(#[trigger] shapes[s])
        &&& has_cell(shapes[s])
        &&& painted(shapes[s], kind + 1)
    } by {
        let shape = shapes[s];
        assert(shape.len() == 4);
        assert(shape[0].len() == 4 && shape[1].len() == 4 && shape[2].len() == 4 && shape[3].len()
            == 4);
        assert forall|r: int, c: int| 0 <= r < 4 && 0 <= c < 4 implies (#[trigger] shape[r][c] == 0
            || shape[r][c] == kind + 1) by {
            let row = shape[r];
            assert(row[0] == 0 || row[0] == kind + 1);
            assert(row[1] == 0 || row[1] == kind + 1);
            assert(row[2] == 0 || row[2] == kind + 1);
            assert(row[3] == 0 || row[3] == kind + 1);
        }
        if shape[0][0] != 0 {
            lemma_has_cell(shape, 0, 0);
        } else if shape[0][1] != 0 {
            lemma_has_cell(shape, 0, 1);
        } else {
            assert(shape[0][3] != 0);
            lemma_has_cell(shape, 0, 3);
        }
    }
}

/// A new piece of any kind is well formed and has a cell in every state.
pub proof fn lemma_spawn_wf(piece: Tetrimino, kind: int)
    requires
        0 <= kind < NUM_KINDS,
        is_spawn(piece, kind),
    ensures
        piece.wf(),
        piece.solid(),
{
    lemma_kind_shapes(kind);
    assert(piece.shapes().len() == piece.states@.len());
}

/// The kind that two draws give after a piece of `previous_kind`: that of
/// the first draw, unless it is the previous kind; then that of the second
/// draw, whatever it is. A draw gives the kind `draw % 7`.
pub open spec fn drawn_kind(previous_kind: int, first: int, second: int) -> int {
    if first % (NUM_KINDS as int) == previous_kind {
        second % (NUM_KINDS as int)
    } else {
        first % (NUM_KINDS as int)
    }
}

/// One byte from `rand::random`, which draws it from the thread's
/// generator. Nothing is claimed of the byte.
#[verifier::external_body]
fn random_byte() -> (byte: u8) {
    rand::random::<u8>()
}

/// The kind that the draws `first` and `second` give after a piece of
/// `previous_kind`.
pub fn kind_from_draws(previous_kind: u8, first: u8, second: u8) -> (kind: u8)
    ensures
        kind == drawn_kind(previous_kind as int, first as int, second as int),
        kind < NUM_KINDS,
{
    if first % NUM_KINDS == previous_kind {
        second % NUM_KINDS
    } else {
        first % NUM_KINDS
    }
}

/// Draws a kind at random. When the draw gives `previous_kind`, one more
/// draw is made and taken as it comes, so the same kind can follow itself,
/// but less often than the others do.
pub fn pick_random_kind(previous_kind: u8) -> (kind: u8)
    ensures
        kind < NUM_KINDS,
{
    let first = random_byte();
    let second = if first % NUM_KINDS == previous_kind {
        random_byte()
    } else {
        first
    };
    kind_from_draws(previous_kind, first, second)
}

impl Tetrimino {
    /// A new piece of a kind drawn at random after a piece of
    /// `previous_kind`, and the kind drawn.
    pub fn create_at_random(previous_kind: u8) -> (drawn: (Tetrimino, u8))
        ensures
            drawn.1 < NUM_KINDS,
            is_spawn(drawn.0, drawn.1 as int),
            drawn.0.wf(),
            drawn.0.solid(),
    {
        let kind = pick_random_kind(previous_kind);
        (spawn(kind), kind)
    }
}

/// The rotation states of the I piece.
pub fn i_states() -> (states: States)
    ensures
        shapes_of(states@) == i_shapes(),
{
    let states = vec![
        vec![vec![1, 1, 1, 1], vec![0, 0, 0, 0], vec![0, 0, 0, 0], vec![0, 0, 0, 0]],
        vec![vec![1, 0, 0, 0], vec![1, 0, 0, 0], vec![1, 0, 0, 0], vec![1, 0, 0, 0]],
    ];
    assert(shapes_of(states@) =~~= i_shapes());
    states
}

/// The rotation state of the O piece.
pub fn o_states() -> (states: States)
    ensures
        shapes_of(states@) == o_shapes(),
{
    let states = vec![
        vec![vec![2, 2, 0, 0], vec![2, 2, 0, 0], vec![0, 0, 0, 0], vec![0, 0, 0, 0]],
    ];
    assert(shapes_of(states@) =~~= o_shapes());
    states
}

/// The rotation states of the T piece.
pub fn t_states() -> (states: States)
    ensures
        shapes_of(states@) == t_shapes(),
{
    let states = vec![
        vec![vec![3, 3, 3, 0], vec![0, 3, 0, 0], vec![0, 0, 0, 0], vec![0, 0, 0, 0]],
        vec![vec![3, 0, 0, 0], vec![3, 3, 0, 0], vec![3, 0, 0, 0], vec![0, 0, 0, 0]],
    ];
    assert(shapes_of(states@) =~~= t_shapes());
    states
}

/// The rotation states of the S piece.
pub fn s_states() -> (states: States)
    ensures
        shapes_of(states@) == s_shapes(),
{
    let states = vec![
        vec![vec![0, 4, 4, 0], vec![4, 4, 0, 0], vec![0, 0, 0, 0], vec![0, 0, 0, 0]],
        vec![vec![4, 0, 0, 0], vec![4, 4, 0, 0], vec![0, 4, 0, 0], vec![0, 0, 0, 0]],
    ];
    assert(shapes_of(states@) =~~= s_shapes());
    states
}

/// The rotation states of the Z piece.
pub fn z_states() -> (states: States)
    ensures
        shapes_of(states@) == z_shapes(),
{
    let states = vec![
        vec![vec![5, 5, 0, 0], vec![0, 5, 5, 0], vec![0, 0, 0, 0], vec![0, 0, 0, 0]],
        vec![vec![0, 5, 0, 0], vec![5, 5, 0, 0], vec![5, 0, 0, 0], vec![0, 0, 0, 0]],
    ];
    assert(shapes_of(states@) =~~= z_shapes());
    states
}

/// The rotation states of the J piece.
pub fn j_states() -> (states: States)
    ensures
        shapes_of(states@) == j_shapes(),
{
    let states = vec![
        vec![vec![0, 6, 0, 0], vec![0, 6, 0, 0], vec![0, 6, 0, 0], vec![6, 6, 0, 0]],
        vec![vec![6, 6, 6, 6], vec![0, 0, 0, 6], vec![0, 0, 0, 0], vec![0, 0, 0, 0]],
        vec![vec![6, 6, 0, 0], vec![6, 0, 0, 0], vec![6, 0, 0, 0], vec![6, 0, 0, 0]],
        vec![vec![6, 0, 0, 0], vec![6, 6, 6, 6], vec![0, 0, 0, 0], vec![0, 0, 0, 0]],
    ];
    assert(shapes_of(states@) =~~= j_shapes());
    states
}

/// The rotation states of the L piece.
pub fn l_states() -> (states: States)
    ensures
        shapes_of(states@) == l_shapes(),
{
    let states = vec![
        vec![vec![7, 0, 0, 0], vec![7, 0, 0, 0], vec![7, 0, 0, 0], vec![7, 7, 0, 0]],
        vec![vec![0, 0, 0, 7], vec![7, 7, 7, 7], vec![0, 0, 0, 0], vec![0, 0, 0, 0]],
        vec![vec![7, 7, 0, 0], vec![0, 7, 0, 0], vec![0, 7, 0, 0], vec![0, 7, 0, 0]],
        vec![vec![7, 7, 7, 7], vec![7, 0, 0, 0], vec![0, 0, 0, 0], vec![0, 0, 0, 0]],
    ];
    assert(shapes_of(states@) =~~= l_shapes());
    states
}

/// The rotation states of a kind.
pub fn states_of_kind(kind: u8) -> (states: States)
    requires
        kind < NUM_KINDS,
    ensures
        shapes_of(states@) == kind_shapes(kind as int),
{
    if kind == KIND_I {
        i_states()
    } else if kind == KIND_O {
        o_states()
    } else if kind == KIND_T {
        t_states()
    } else if kind == KIND_S {
        s_states()
    } else if kind == KIND_Z {
        z_states()
    } else if kind == KIND_J {
        j_states()
    } else {
        l_states()
    }
}

/// The seven kinds, each as its list of rotation states, at its number.
pub fn kinds() -> (all: Vec<States>)
    ensures
        all@.len() == NUM_KINDS,
        forall|k: int| 0 <= k < NUM_KINDS ==> shapes_of(#[trigger] all@[k]@) == kind_shapes(k),
{
    let mut all: Vec<States> = Vec::new();
    let mut kind: u8 = 0;
    while kind < NUM_KINDS
        invariant
            0 <= kind <= NUM_KINDS,
            all@.len() == kind,
            forall|k: int| 0 <= k < kind ==> shapes_of(#[trigger] all@[k]@) == kind_shapes(k),
        decreases NUM_KINDS - kind,
    {
        all.push(states_of_kind(kind));
        kind += 1;
    }
    all
}

/// A new piece of a kind: in its first state, in the kind's column on the
/// top row.
pub fn spawn(kind: u8) -> (piece: Tetrimino)
    requires
        kind < NUM_KINDS,
    ensures
        is_spawn(piece, kind as int),
        piece.wf(),
        piece.solid(),
{
    let x: isize = if kind == KIND_O {
        5
    } else {
        4
    };
    let piece = Tetrimino { states: states_of_kind(kind), current_state: 0, x, y: 0 };
    proof {
        lemma_spawn_wf(piece, kind as int);
    }
    piece
}

} // verus!
