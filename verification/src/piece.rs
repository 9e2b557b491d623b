//! The falling piece: a list of 4x4 shapes, one per rotation state, the
//! state it is in, and where the shape's top-left corner sits on the grid.

use vstd::prelude::*;
use crate::board::{cell_free, cells, fits, MAX_CELL};

verus! {

/// One rotation state, as it is stored: four rows of four cells.
pub type Piece = Vec<Vec<u8>>;

/// The rotation states of one kind of piece, in the order in which a
/// rotation walks through them.
pub type States = Vec<Piece>;

/// Most rotation states a kind has.
pub const MAX_STATES: usize = 4;

/// A 4x4 grid of colours in 0..=7.
pub open spec fn is_shape(s: Seq<Seq<u8>>) -> bool {
    &&& s.len() == 4
    &&& forall|r: int| 0 <= r < 4 ==> (#[trigger] s[r]).len() == 4
    &&& forall|r: int, c: int| 0 <= r < 4 && 0 <= c < 4 ==> #[trigger] s[r][c] <= MAX_CELL
}

/// The shape has an occupied cell.
pub open spec fn has_cell(s: Seq<Seq<u8>>) -> bool {
    exists|r: int, c: int| 0 <= r < 4 && 0 <= c < 4 && #[trigger] s[r][c] != 0
}

/// The sideways shifts that a rotation tries, in this order.
pub open spec fn kick_offsets() -> Seq<int> {
    seq![0, -1, 1, -2, 2]
}

/// The row on which a shape comes to rest when it falls from row `y` in
/// column `x`: the first row, from `y` on, from which it cannot move one
/// row down. No shape falls below the last row of the grid.
pub open spec fn landing_row(shape: Seq<Seq<u8>>, b: Seq<Seq<u8>>, x: int, y: int) -> int
    decreases b.len() - y,
{
    if 0 <= y < b.len() && fits(shape, b, x, y + 1) {
        landing_row(shape, b, x, y + 1)
    } else {
        y
    }
}

/// The piece in play.
#[derive(Debug, Clone, PartialEq, Eq)]
pub struct Tetrimino {
    pub states: States,
    pub current_state: usize,
    pub x: isize,
    pub y: usize,
}

/// The shapes of a stored list of rotation states, state by state.
pub open spec fn shapes_of(states: Seq<Vec<Vec<u8>>>) -> Seq<Seq<Seq<u8>>> {
    Seq::new(states.len(), |s: int| cells(states[s]@))
}

impl Tetrimino {
    /// The shapes of the piece, one per rotation state.
    pub open spec fn shapes(&self) -> Seq<Seq<Seq<u8>>> {
        shapes_of(self.states@)
    }

    /// The shape of the state the piece is in.
    pub open spec fn shape(&self) -> Seq<Seq<u8>> {
        self.shapes()[self.current_state as int]
    }

    /// One to four states, each a 4x4 shape, and the current state is one of them.
    pub open spec fn wf(&self) -> bool {
        &&& 1 <= self.states@.len() <= MAX_STATES
        &&& self.current_state < self.states@.len()
        &&& forall|s: int| 0 <= s < self.states@.len() ==> is_shape(#[trigger] self.shapes()[s])
    }

    /// Every state of the piece has an occupied cell.
    pub open spec fn solid(&self) -> bool {
        forall|s: int| 0 <= s < self.states@.len() ==> has_cell(#[trigger] self.shapes()[s])
    }

    /// The piece lies on free cells of `b`.
    pub open spec fn placed(&self, b: Seq<Seq<u8>>) -> bool {
        fits(self.shape(), b, self.x as int, self.y as int)
    }

    /// The state that follows the current one, the first after the last.
    pub open spec fn next_state(&self) -> int {
        if self.current_state + 1 >= self.states@.len() {
            0
        } else {
            self.current_state + 1
        }
    }

    /// The piece can turn into its next state when shifted sideways by
    /// `shift`: the column it would stand in can be stored, and the next
    /// shape fits there.
    pub open spec fn kick_fits(&self, b: Seq<Seq<u8>>, shift: int) -> bool {
        &&& isize::MIN <= self.x + shift <= isize::MAX
        &&& fits(self.shapes()[self.next_state()], b, self.x + shift, self.y as int)
    }

    /// The place in `kick_offsets` of the first shift, from place `from` on,
    /// with which the piece can turn; 5 when there is none.
    pub open spec fn first_kick(&self, b: Seq<Seq<u8>>, from: int) -> int
        decreases 5 - from,
    {
        if from < 0 || from >= 5 {
            5
        } else if self.kick_fits(b, kick_offsets()[from]) {
            from
        } else {
            self.first_kick(b, from + 1)
        }
    }

    /// The piece after a rotation on `b`: in its next state, shifted by the
    /// first shift with which that state fits; unchanged when none does.
    pub open spec fn rotated(&self, b: Seq<Seq<u8>>) -> Tetrimino {
        let k = self.first_kick(b, 0);
        if k < 5 {
            Tetrimino {
                states: self.states,
                current_state: self.next_state() as usize,
                x: (self.x + kick_offsets()[k]) as isize,
                y: self.y,
            }
        } else {
            *self
        }
    }

    /// The piece after an attempt to move it to (`x`, `y`) on `b`: there
    /// when its shape fits there, unchanged otherwise.
    pub open spec fn moved(&self, b: Seq<Seq<u8>>, x: isize, y: usize) -> Tetrimino {
        if fits(self.shape(), b, x as int, y as int) {
            Tetrimino { states: self.states, current_state: self.current_state, x, y }
        } else {
            *self
        }
    }

    /// The piece after it has fallen as far as it can on `b`.
    pub open spec fn dropped(&self, b: Seq<Seq<u8>>) -> Tetrimino {
        Tetrimino {
            states: self.states,
            current_state: self.current_state,
            x: self.x,
            y: landing_row(self.shape(), b, self.x as int, self.y as int) as usize,
        }
    }

    /// Whether the shape of state `tmp_state` would lie on free cells of
    /// `game_map` with its corner at column `x`, row `y`: none of its
    /// occupied cells left of column 0, below the last row, beyond the end
    /// of its row, or on an occupied cell.
    pub fn test_position(&self, game_map: &[Vec<u8>], tmp_state: usize, x: isize, y: usize) -> (ok:
        bool)
        requires
            self.wf(),
            tmp_state < self.states@.len(),
        ensures
            ok == fits(self.shapes()[tmp_state as int], cells(game_map@), x as int, y as int),
    {
        let ghost shape = self.shapes()[tmp_state as int];
        let ghost b = cells(game_map@);
        assert(is_shape(shape));
        let mut dy: usize = 0;
        while dy < 4
            invariant
                0 <= dy <= 4,
                self.wf(),
                tmp_state < self.states@.len(),
                shape == self.shapes()[tmp_state as int],
                is_shape(shape),
                b == cells(game_map@),
                forall|r: int, c: int|
                    0 <= r < dy && 0 <= c < 4 && #[trigger] shape[r][c] != 0 ==> cell_free(
                        b,
                        y + r,
                        x + c,
                    ),
            decreases 4 - dy,
        {
            let mut dx: usize = 0;
            while dx < 4
                invariant
                    0 <= dx <= 4,
                    0 <= dy < 4,
                    self.wf(),
                    tmp_state < self.states@.len(),
                    shape == self.shapes()[tmp_state as int],
                    is_shape(shape),
                    b == cells(game_map@),
                    forall|r: int, c: int|
                        0 <= r < dy && 0 <= c < 4 && #[trigger] shape[r][c] != 0 ==> cell_free(
                            b,
                            y + r,
                            x + c,
                        ),
                    forall|c: int|
                        0 <= c < dx && #[trigger] shape[dy as int][c] != 0 ==> cell_free(
                            b,
                            y + dy,
                            x + c,
                        ),
                decreases 4 - dx,
            {
                assert(shape[dy as int].len() == 4);
                let cell = self.states[tmp_state][dy][dx];
                assert(cell == shape[dy as int][dx as int]);
                if cell != 0 && !free_at(game_map, x, dx, y, dy) {
                    return false;
                }
                dx += 1;
            }
            dy += 1;
        }
        true
    }

    /// Whether the piece lies on free cells of `game_map` where it is.
    pub fn test_current_position(&self, game_map: &[Vec<u8>]) -> (ok: bool)
        requires
            self.wf(),
        ensures
            ok == self.placed(cells(game_map@)),
    {
        self.test_position(game_map, self.current_state, self.x, self.y)
    }

    /// Moves the piece to (`new_x`, `new_y`) when its shape fits there and
    /// says whether it did; a piece that does not fit stays as it is.
    pub fn change_position(&mut self, game_map: &[Vec<u8>], new_x: isize, new_y: usize) -> (done:
        bool)
        requires
            old(self).wf(),
        ensures
            done == fits(old(self).shape(), cells(game_map@), new_x as int, new_y as int),
            *final(self) == old(self).moved(cells(game_map@), new_x, new_y),
    {
        if self.test_position(game_map, self.current_state, new_x, new_y) {
            self.x = new_x;
            self.y = new_y;
            true
        } else {
            false
        }
    }

    /// Turns the piece into its next state, trying the shifts 0, -1, +1, -2
    /// and +2 columns in this order and taking the first with which the new
    /// shape fits. When none fits the piece stays as it is.
    pub fn rotate(&mut self, game_map: &[Vec<u8>])
        requires
            old(self).wf(),
        ensures
            *final(self) == old(self).rotated(cells(game_map@)),
    {
        let mut tmp_state: usize = self.current_state + 1;
        if tmp_state >= self.states.len() {
            tmp_state = 0;
        }
        let adjustments: [isize; 5] = [0, -1, 1, -2, 2];
        let ghost b = cells(game_map@);
        assert(adjustments@.map_values(|a: isize| a as int) =~= kick_offsets());
        let mut k: usize = 0;
        while k < 5
            invariant
                0 <= k <= 5,
                *self == *old(self),
                self.wf(),
                tmp_state == self.next_state(),
                b == cells(game_map@),
                adjustments@.map_values(|a: isize| a as int) == kick_offsets(),
                self.first_kick(b, 0) == self.first_kick(b, k as int),
            decreases 5 - k,
        {
            let adjustment = adjustments[k];
            assert(adjustment as int == kick_offsets()[k as int]) by {
                assert(adjustments@.map_values(|a: isize| a as int)[k as int] == adjustment as int);
            }
            let shifted = self.x.checked_add(adjustment);
            if let Some(new_x) = shifted {
                if self.test_position(game_map, tmp_state, new_x, self.y) {
                    self.current_state = tmp_state;
                    self.x = new_x;
                    return;
                }
            }
            k += 1;
        }
    }
}

impl Tetrimino {
    /// Lets the piece fall: moves it down row by row until it cannot move
    /// one row further.
    pub fn hard_drop(&mut self, game_map: &[Vec<u8>])
        requires
            old(self).wf(),
        ensures
            *final(self) == old(self).dropped(cells(game_map@)),
    {
        let ghost b = cells(game_map@);
        let ghost shape = self.shape();
        let ghost target = landing_row(shape, b, self.x as int, self.y as int);
        let x = self.x;
        let mut falling = true;
        while falling
            invariant
                self.wf(),
                b == cells(game_map@),
                shape == self.shape(),
                x == self.x,
                self.states == old(self).states,
                self.current_state == old(self).current_state,
                self.x == old(self).x,
                target == landing_row(shape, b, self.x as int, self.y as int),
                !falling ==> target == self.y,
            decreases (if falling { 1int } else { 0int }), game_map@.len() - self.y,
        {
            let y = self.y;
            if y < game_map.len() && self.change_position(game_map, x, y + 1) {
            } else {
                falling = false;
            }
        }
    }
}

/// A shape comes to rest on its own row or below, and cannot move one row
/// down from where it rests unless it has reached the end of the grid.
pub proof fn lemma_landing_row(shape: Seq<Seq<u8>>, b: Seq<Seq<u8>>, x: int, y: int)
    requires
        0 <= y,
    ensures
        y <= landing_row(shape, b, x, y),
        landing_row(shape, b, x, y) <= y || landing_row(shape, b, x, y) <= b.len(),
        landing_row(shape, b, x, y) >= b.len() || !fits(
            shape,
            b,
            x,
            landing_row(shape, b, x, y) + 1,
        ),
        forall|row: int| y < row <= landing_row(shape, b, x, y) ==> fits(shape, b, x, row),
    decreases b.len() - y,
{
    if y < b.len() && fits(shape, b, x, y + 1) {
        lemma_landing_row(shape, b, x, y + 1);
    }
}

/// A shape with an occupied cell rests on the first row from which it
/// cannot move one row down: the end of the grid stops it there at the
/// latest.
pub proof fn lemma_landing_row_rests(shape: Seq<Seq<u8>>, b: Seq<Seq<u8>>, x: int, y: int)
    requires
        has_cell(shape),
        0 <= y,
    ensures
        !fits(shape, b, x, landing_row(shape, b, x, y) + 1),
    decreases b.len() - y,
{
    if y < b.len() && fits(shape, b, x, y + 1) {
        lemma_landing_row_rests(shape, b, x, y + 1);
    } else if y >= b.len() {
        let (r, c) = choose|r: int, c: int| 0 <= r < 4 && 0 <= c < 4 && #[trigger] shape[r][c] != 0;
        assert(!cell_free(b, y + 1 + r, x + c));
    }
}

/// The first shift that fits, if any, is one of the five, fits, and no
/// shift before it does.
pub proof fn lemma_first_kick(piece: Tetrimino, b: Seq<Seq<u8>>, from: int)
    requires
        0 <= from <= 5,
    ensures
        from <= piece.first_kick(b, from) <= 5,
        piece.first_kick(b, from) < 5 ==> piece.kick_fits(
            b,
            kick_offsets()[piece.first_kick(b, from)],
        ),
        forall|j: int|
            from <= j < piece.first_kick(b, from) ==> !piece.kick_fits(b, #[trigger] kick_offsets()[j]),
    decreases 5 - from,
{
    if from < 5 && !piece.kick_fits(b, kick_offsets()[from]) {
        lemma_first_kick(piece, b, from + 1);
    }
}

/// A rotation either leaves the piece exactly as it was, or puts it into
/// its next state on the same row, shifted sideways by one of the five
/// offsets, where it lies on free cells. A piece that lay on free cells
/// before the rotation lies on free cells after it.
pub proof fn lemma_rotation(piece: Tetrimino, b: Seq<Seq<u8>>)
    requires
        piece.wf(),
    ensures
        piece.rotated(b) == piece || {
            &&& piece.rotated(b).states == piece.states
            &&& piece.rotated(b).current_state == piece.next_state()
            &&& piece.rotated(b).y == piece.y
            &&& exists|k: int|
                0 <= k < 5 && piece.rotated(b).x == piece.x + #[trigger] kick_offsets()[k]
            &&& piece.rotated(b).placed(b)
        },
        piece.rotated(b).wf(),
        piece.placed(b) ==> piece.rotated(b).placed(b),
{
    lemma_first_kick(piece, b, 0);
    let k = piece.first_kick(b, 0);
    if k < 5 {
        assert(piece.kick_fits(b, kick_offsets()[k]));
        assert(piece.rotated(b).shapes() == piece.shapes());
    }
}

/// A move to a place either leaves the piece exactly as it was, or puts
/// it there, where it lies on free cells.
pub proof fn lemma_move(piece: Tetrimino, b: Seq<Seq<u8>>, x: isize, y: usize)
    requires
        piece.wf(),
    ensures
        piece.moved(b, x, y) == piece || {
            &&& piece.moved(b, x, y).states == piece.states
            &&& piece.moved(b, x, y).current_state == piece.current_state
            &&& piece.moved(b, x, y).x == x
            &&& piece.moved(b, x, y).y == y
            &&& piece.moved(b, x, y).placed(b)
        },
        piece.moved(b, x, y).wf(),
        piece.placed(b) ==> piece.moved(b, x, y).placed(b),
{
    if fits(piece.shape(), b, x as int, y as int) {
        assert(piece.moved(b, x, y).shapes() == piece.shapes());
    }
}

/// Whether the cell `dx` columns right of `x` and `dy` rows below `y` lies
/// inside `game_map` and is empty.
fn free_at(game_map: &[Vec<u8>], x: isize, dx: usize, y: usize, dy: usize) -> (free: bool)
    requires
        dx < 4,
        dy < 4,
    ensures
        free == cell_free(cells(game_map@), y + dy, x + dx),
{
    if y >= game_map.len() || dy >= game_map.len() - y {
        return false;
    }
    let row = y + dy;
    match column_at(x, dx) {
        Some(col) => col < game_map[row].len() && game_map[row][col] == 0,
        None => false,
    }
}

/// The column `dx` to the right of column `x`, unless it lies left of
/// column 0.
pub(crate) fn column_at(x: isize, dx: usize) -> (col: Option<usize>)
    requires
        dx < 4,
    ensures
        match col {
            Some(c) => c == x + dx,
            None => x + dx < 0,
        },
{
    if x < 0 {
        let shifted = x + dx as isize;
        if shifted < 0 {
            None
        } else {
            Some(shifted as usize)
        }
    } else {
        Some(x as usize + dx)
    }
}

} // verus!
