//! One game: the board, the piece in play, and the counters of score,
//! level and cleared lines.

use vstd::prelude::*;
use crate::board::{
    after_clear, cells, clear_award, cleared_count, covers, empty_row, empty_rows, fits, is_board,
    is_board_row, kept_rows, lemma_after_clear_is_board, lemma_kept_rows_all,
    lemma_kept_rows_are_incomplete, lemma_kept_rows_remove, merged, row_complete, Grid,
    BOARD_ROWS, FULL_CLEAR_BONUS, MAX_CELL,
};
use crate::catalog::{is_spawn, kind_shapes, spawn_column, NO_KIND, NUM_KINDS};
use crate::piece::{column_at, is_shape, lemma_move, Tetrimino};
use crate::progression::{
    after_lines, fall_interval, interval_elapsed, lemma_after_lines, line_step, lines_for_level,
    millis, MAX_LEVEL,
};

verus! {

/// The state of one game.
#[derive(Debug, Clone, PartialEq, Eq)]
pub struct Tetris {
    pub game_map: Grid,
    pub current_level: u32,
    pub score: u32,
    pub num_lines: u32,
    pub current_piece: Option<Tetrimino>,
    /// Kind of the piece drawn last, `NO_KIND` before the first draw.
    pub previous_kind: u8,
}

impl Tetris {
    /// The cells of the board, row by row from the top.
    pub open spec fn board(&self) -> Seq<Seq<u8>> {
        cells(self.game_map@)
    }

    /// The board is a playing field, the level is one of 1..=10, and the
    /// piece in play, if there is one, is well formed.
    pub open spec fn wf(&self) -> bool {
        &&& is_board(self.board())
        &&& 1 <= self.current_level <= MAX_LEVEL
        &&& self.previous_kind <= NO_KIND
        &&& self.current_piece matches Some(piece) ==> piece.wf()
    }

    /// The board once the piece in play has been written into it; the board
    /// itself when no piece is in play.
    pub open spec fn landed_board(&self) -> Seq<Seq<u8>> {
        match self.current_piece {
            Some(piece) => merged(self.board(), piece.shape(), piece.x as int, piece.y as int),
            None => self.board(),
        }
    }

    /// Points for the landing itself: the level, when a piece is in play.
    pub open spec fn landing_award(&self) -> int {
        match self.current_piece {
            Some(_) => self.current_level as int,
            None => 0,
        }
    }

    /// Points that locking the piece in gives: those for the landing and
    /// those for the rows that it completes.
    pub open spec fn lock_award(&self) -> int {
        self.landing_award() + clear_award(self.landed_board(), self.current_level as int)
    }

    /// Score and line count have room for what a clear of the board adds.
    pub open spec fn can_clear(&self) -> bool {
        &&& self.score + clear_award(self.board(), self.current_level as int) <= u32::MAX
        &&& self.num_lines + cleared_count(self.board()) <= u32::MAX
    }

    /// Score and line count have room for what locking the piece in adds.
    pub open spec fn can_lock(&self) -> bool {
        &&& self.score + self.lock_award() <= u32::MAX
        &&& self.num_lines + cleared_count(self.landed_board()) <= u32::MAX
    }

    /// `self` is what a clear makes of `pre`: complete rows are gone, the
    /// rows above them have moved down and empty rows fill the top; the
    /// score has grown by the award and the lines by the rows cleared, the
    /// level rising as the lines pass its thresholds.
    pub open spec fn is_clear_of(&self, pre: Tetris) -> bool {
        &&& self.board() == after_clear(pre.board())
        &&& self.score == pre.score + clear_award(pre.board(), pre.current_level as int)
        &&& (self.num_lines as int, self.current_level as int) == after_lines(
            pre.num_lines as int,
            pre.current_level as int,
            cleared_count(pre.board()),
        )
        &&& self.current_piece == pre.current_piece
        &&& self.previous_kind == pre.previous_kind
    }

    /// `self` is what locking the piece in makes of `pre`: the piece is
    /// written into the board and then a clear is made; the score grows by
    /// the level for the landing and by the award of the clear; no piece is
    /// in play any more.
    pub open spec fn is_lock_of(&self, pre: Tetris) -> bool {
        &&& self.board() == after_clear(pre.landed_board())
        &&& self.score == pre.score + pre.lock_award()
        &&& (self.num_lines as int, self.current_level as int) == after_lines(
            pre.num_lines as int,
            pre.current_level as int,
            cleared_count(pre.landed_board()),
        )
        &&& self.current_piece is None
        &&& self.previous_kind == pre.previous_kind
    }

    /// A new game: an empty board, level 1, no points, no lines, no piece.
    pub fn new() -> (tetris: Tetris)
        ensures
            tetris.wf(),
            tetris.board() == empty_rows(BOARD_ROWS as int),
            tetris.current_level == 1,
            tetris.score == 0,
            tetris.num_lines == 0,
            tetris.current_piece is None,
            tetris.previous_kind == NO_KIND,
    {
        let mut game_map: Grid = Vec::new();
        let mut row: usize = 0;
        while row < BOARD_ROWS
            invariant
                0 <= row <= BOARD_ROWS,
                game_map@.len() == row,
                cells(game_map@) == empty_rows(row as int),
            decreases BOARD_ROWS - row,
        {
            let ghost before = cells(game_map@);
            game_map.push(blank_row());
            row += 1;
            assert forall|r: int| 0 <= r < row implies cells(game_map@)[r] == empty_row() by {
                if r < row - 1 {
                    assert(before[r] == empty_rows(row - 1)[r]);
                }
            }
            assert(cells(game_map@) =~= empty_rows(row as int));
        }
        Tetris {
            game_map,
            current_level: 1,
            score: 0,
            num_lines: 0,
            current_piece: None,
            previous_kind: NO_KIND,
        }
    }

    /// Adds `to_add` points to the score.
    pub fn update_score(&mut self, to_add: u32)
        requires
            old(self).score + to_add <= u32::MAX,
        ensures
            *final(self) == (Tetris { score: (old(self).score + to_add) as u32, ..*old(self) }),
    {
        self.score += to_add;
    }

    /// Raises the level by one; the last level stays.
    pub fn inc_level(&mut self)
        ensures
            *final(self) == (Tetris {
                current_level: if old(self).current_level < MAX_LEVEL {
                    (old(self).current_level + 1) as u32
                } else {
                    old(self).current_level
                },
                ..*old(self)
            }),
    {
        if self.current_level < MAX_LEVEL {
            self.current_level += 1;
        }
    }

    /// Counts one more cleared line, and raises the level when the count
    /// has passed the level's threshold.
    pub fn inc_line(&mut self)
        requires
            old(self).num_lines < u32::MAX,
        ensures
            *final(self) == (Tetris {
                num_lines: (old(self).num_lines + 1) as u32,
                current_level: line_step(
                    old(self).num_lines as int,
                    old(self).current_level as int,
                ).1 as u32,
                ..*old(self)
            }),
    {
        self.num_lines += 1;
        if self.num_lines > lines_for_level(self.current_level) {
            self.inc_level();
        }
    }

    /// Writes the occupied cells of `piece` into the board, each with its
    /// colour. A cell of the piece that lies outside the board is passed
    /// over.
    pub fn merge_piece(&mut self, piece: &Tetrimino)
        requires
            old(self).wf(),
            piece.wf(),
        ensures
            final(self).board() == merged(
                old(self).board(),
                piece.shape(),
                piece.x as int,
                piece.y as int,
            ),
            *final(self) == (Tetris { game_map: final(self).game_map, ..*old(self) }),
            final(self).wf(),
    {
        let ghost b0 = self.board();
        let ghost shape = piece.shape();
        let ghost x = piece.x as int;
        let ghost y = piece.y as int;
        assert(is_shape(shape));
        let rows = self.game_map.len();
        let mut dy: usize = 0;
        while dy < 4
            invariant
                0 <= dy <= 4,
                piece.wf(),
                shape == piece.shape(),
                is_shape(shape),
                x == piece.x,
                y == piece.y,
                is_board(b0),
                rows == self.game_map@.len(),
                *self == (Tetris { game_map: self.game_map, ..*old(self) }),
                written(self.board(), b0, shape, x, y, dy as int, 0),
            decreases 4 - dy,
        {
            if piece.y < rows && dy < rows - piece.y {
                let row = piece.y + dy;
                let mut dx: usize = 0;
                while dx < 4
                    invariant
                        0 <= dx <= 4,
                        0 <= dy < 4,
                        piece.wf(),
                        shape == piece.shape(),
                        is_shape(shape),
                        x == piece.x,
                        y == piece.y,
                        is_board(b0),
                        rows == self.game_map@.len(),
                        row == y + dy,
                        row < rows,
                        *self == (Tetris { game_map: self.game_map, ..*old(self) }),
                        written(self.board(), b0, shape, x, y, dy as int, dx as int),
                    decreases 4 - dx,
                {
                    assert(shape[dy as int].len() == 4);
                    let cell = piece.states[piece.current_state][dy][dx];
                    assert(cell == shape[dy as int][dx as int]);
                    if cell != 0 {
                        if let Some(col) = column_at(piece.x, dx) {
                            if col < self.game_map[row].len() {
                                let ghost before = self.board();
                                self.game_map[row][col] = cell;
                                assert(self.board() =~= before.update(
                                    row as int,
                                    before[row as int].update(col as int, cell),
                                ));
                            }
                        }
                    }
                    dx += 1;
                }
            }
            dy += 1;
        }
        assert(self.board() =~~= merged(b0, shape, x, y));
        proof {
            lemma_merged_is_board(b0, shape, x, y);
        }
    }

    /// Takes every complete row off the board, lets the rows above move
    /// down and fills the top with empty rows. Each row taken off gives the
    /// level in points and counts as one cleared line; a clear that leaves
    /// no row behind gives 1000 points more.
    pub fn check_lines(&mut self)
        requires
            old(self).wf(),
            old(self).can_clear(),
        ensures
            final(self).is_clear_of(*old(self)),
            final(self).wf(),
    {
        let ghost b0 = self.board();
        let ghost level = self.current_level as int;
        let ghost mut removed: int = 0;
        let mut current_row: usize = 0;
        let mut score_to_add: u32 = 0;
        while current_row < self.game_map.len()
            invariant
                *self == (Tetris { game_map: self.game_map, ..*old(self) }),
                level == self.current_level,
                1 <= level <= MAX_LEVEL,
                0 <= removed,
                removed + self.game_map@.len() == BOARD_ROWS,
                current_row <= self.game_map@.len(),
                forall|r: int|
                    0 <= r < self.game_map@.len() ==> is_board_row(#[trigger] self.board()[r]),
                forall|r: int| 0 <= r < current_row ==> !row_complete(#[trigger] self.board()[r]),
                kept_rows(self.board()) == kept_rows(b0),
                score_to_add == removed * level,
            decreases self.game_map@.len() - current_row,
        {
            assert(self.board()[current_row as int] == self.game_map@[current_row as int]@);
            if full_row(&self.game_map[current_row]) {
                let ghost before = self.board();
                assert(removed * level <= 16 * 10) by (nonlinear_arith)
                    requires
                        0 <= removed <= 16,
                        0 <= level <= 10,
                ;
                assert((removed + 1) * level == removed * level + level) by (nonlinear_arith);
                score_to_add += self.current_level;
                self.game_map.remove(current_row);
                proof {
                    removed = removed + 1;
                    lemma_kept_rows_remove(before, current_row as int);
                    assert(self.board() =~= before.remove(current_row as int));
                    assert forall|r: int| 0 <= r < self.game_map@.len() implies is_board_row(
                        #[trigger] self.board()[r],
                    ) by {
                        if r < current_row {
                            assert(self.board()[r] == before[r]);
                        } else {
                            assert(self.board()[r] == before[r + 1]);
                        }
                    }
                    assert forall|r: int| 0 <= r < current_row implies !row_complete(
                        #[trigger] self.board()[r],
                    ) by {
                        assert(self.board()[r] == before[r]);
                    }
                }
            } else {
                current_row += 1;
            }
        }
        let ghost kept = self.board();
        proof {
            lemma_kept_rows_all(kept);
            assert(kept == kept_rows(b0));
            assert(removed == cleared_count(b0));
        }
        if self.game_map.len() == 0 {
            score_to_add += FULL_CLEAR_BONUS;
        }
        assert(score_to_add == clear_award(b0, level));
        while self.game_map.len() < BOARD_ROWS
            invariant
                *self == (Tetris {
                    game_map: self.game_map,
                    num_lines: self.num_lines,
                    current_level: self.current_level,
                    ..*old(self)
                }),
                self.game_map@.len() <= BOARD_ROWS,
                kept.len() + removed == BOARD_ROWS,
                kept.len() <= self.game_map@.len(),
                self.board() == empty_rows(self.game_map@.len() - kept.len()) + kept,
                old(self).num_lines + removed <= u32::MAX,
                (self.num_lines as int, self.current_level as int) == after_lines(
                    old(self).num_lines as int,
                    old(self).current_level as int,
                    self.game_map@.len() - kept.len(),
                ),
            decreases BOARD_ROWS - self.game_map@.len(),
        {
            let ghost before = self.board();
            let ghost filled = self.game_map@.len() - kept.len();
            proof {
                lemma_after_lines(
                    old(self).num_lines as int,
                    old(self).current_level as int,
                    filled,
                );
                lemma_after_lines(
                    old(self).num_lines as int,
                    old(self).current_level as int,
                    filled + 1,
                );
            }
            self.inc_line();
            self.game_map.insert(0, blank_row());
            assert(self.board() =~= seq![empty_row()] + before);
            assert(self.board() =~= empty_rows(filled + 1) + kept);
        }
        self.update_score(score_to_add);
        proof {
            assert(self.board() == after_clear(b0));
            lemma_after_clear_is_board(b0);
            lemma_after_lines(
                old(self).num_lines as int,
                old(self).current_level as int,
                removed,
            );
        }
    }

    /// Locks the piece in play into the board: writes it there, gives the
    /// level in points for the landing, clears the complete rows, and
    /// leaves no piece in play. With no piece in play only the clear is
    /// made.
    pub fn make_permanent(&mut self)
        requires
            old(self).wf(),
            old(self).can_lock(),
        ensures
            final(self).is_lock_of(*old(self)),
            final(self).wf(),
    {
        let mut to_add: u32 = 0;
        if let Some(piece) = self.current_piece.take() {
            self.merge_piece(&piece);
            to_add += self.current_level;
        }
        proof {
            lemma_clear_award_bounds(old(self).landed_board(), old(self).current_level as int);
        }
        self.update_score(to_add);
        self.check_lines();
    }

    /// Draws the next piece: a new piece of a kind chosen at random, with a
    /// second draw when the first gives the kind of the piece before. The
    /// kind drawn is remembered for the next draw.
    pub fn create_new_tetrimino(&mut self) -> (piece: Tetrimino)
        ensures
            final(self).previous_kind < NUM_KINDS,
            is_spawn(piece, final(self).previous_kind as int),
            piece.wf(),
            piece.solid(),
            *final(self) == (Tetris { previous_kind: final(self).previous_kind, ..*old(self) }),
    {
        let (piece, kind) = Tetrimino::create_at_random(self.previous_kind);
        self.previous_kind = kind;
        piece
    }

    /// The piece in play can move one row down.
    pub open spec fn can_fall(&self) -> bool {
        self.current_piece matches Some(piece) && piece.y < usize::MAX && fits(
            piece.shape(),
            self.board(),
            piece.x as int,
            piece.y + 1,
        )
    }

    /// Forces the piece in play one row down. A piece that cannot move
    /// down has landed: it is locked in, and `true` is returned. With no
    /// piece in play nothing happens.
    pub fn step_down(&mut self) -> (locked: bool)
        requires
            old(self).wf(),
            old(self).current_piece is Some && !old(self).can_fall() ==> old(self).can_lock(),
        ensures
            final(self).wf(),
            locked == (old(self).current_piece is Some && !old(self).can_fall()),
            old(self).current_piece is None ==> *final(self) == *old(self),
            old(self).can_fall() ==> *final(self) == (Tetris {
                current_piece: Some(
                    Tetrimino {
                        y: (old(self).current_piece->0.y + 1) as usize,
                        ..old(self).current_piece->0
                    },
                ),
                ..*old(self)
            }),
            locked ==> final(self).is_lock_of(*old(self)),
    {
        match self.current_piece.take() {
            None => false,
            Some(mut piece) => {
                let x = piece.x;
                let y = piece.y;
                let moved = y < usize::MAX && piece.change_position(
                    self.game_map.as_slice(),
                    x,
                    y + 1,
                );
                proof {
                    lemma_move(old(self).current_piece->0, self.board(), x, (y + 1) as usize);
                }
                self.current_piece = Some(piece);
                if !moved {
                    self.make_permanent();
                }
                !moved
            },
        }
    }

    /// Brings a new piece into play when none is, and says whether the
    /// game goes on. A new piece that does not lie on free cells where it
    /// appears ends the game: `false` is returned and no piece is in play.
    pub fn spawn_piece(&mut self) -> (alive: bool)
        requires
            old(self).wf(),
        ensures
            final(self).wf(),
            old(self).current_piece is Some ==> alive && *final(self) == *old(self),
            old(self).current_piece is None ==> {
                &&& final(self).previous_kind < NUM_KINDS
                &&& *final(self) == (Tetris {
                    current_piece: final(self).current_piece,
                    previous_kind: final(self).previous_kind,
                    ..*old(self)
                })
                &&& alive == fits(
                    kind_shapes(final(self).previous_kind as int)[0],
                    old(self).board(),
                    spawn_column(final(self).previous_kind as int),
                    0,
                )
                &&& alive ==> final(self).current_piece is Some && is_spawn(
                    final(self).current_piece->0,
                    final(self).previous_kind as int,
                )
                &&& !alive ==> final(self).current_piece is None
            },
    {
        if self.current_piece.is_some() {
            return true;
        }
        let piece = self.create_new_tetrimino();
        if piece.test_current_position(self.game_map.as_slice()) {
            self.current_piece = Some(piece);
            true
        } else {
            false
        }
    }
}

/// The board while a piece is being written into it: the cells of the
/// shape's rows above `dy`, and those of row `dy` left of `dx`, are in;
/// every other cell is as in `b0`.
pub open spec fn written(
    b: Seq<Seq<u8>>,
    b0: Seq<Seq<u8>>,
    shape: Seq<Seq<u8>>,
    x: int,
    y: int,
    dy: int,
    dx: int,
) -> bool {
    &&& b.len() == b0.len()
    &&& forall|row: int| 0 <= row < b.len() ==> (#[trigger] b[row]).len() == b0[row].len()
    &&& forall|row: int, col: int|
        0 <= row < b.len() && 0 <= col < b[row].len() ==> #[trigger] b[row][col] == if covers(
            shape,
            x,
            y,
            row,
            col,
        ) && (row - y < dy || (row - y == dy && col - x < dx)) {
            shape[row - y][col - x]
        } else {
            b0[row][col]
        }
}

/// Writing a shape into a playing field gives a playing field.
pub proof fn lemma_merged_is_board(b: Seq<Seq<u8>>, shape: Seq<Seq<u8>>, x: int, y: int)
    requires
        is_board(b),
        is_shape(shape),
    ensures
        is_board(merged(b, shape, x, y)),
{
    let m = merged(b, shape, x, y);
    assert forall|r: int| 0 <= r < m.len() implies is_board_row(#[trigger] m[r]) by {
        assert(is_board_row(b[r]));
        assert forall|c: int| 0 <= c < m[r].len() implies #[trigger] m[r][c] <= MAX_CELL by {
            if covers(shape, x, y, r, c) {
                assert(shape[r - y][c - x] <= MAX_CELL);
            } else {
                assert(b[r][c] <= MAX_CELL);
            }
        }
    }
}

/// A clear of a playing field takes off at most its 16 rows, gives the
/// bonus exactly when it takes off all 16, and so gives at most 16 times
/// the level and the bonus.
pub proof fn lemma_clear_award_bounds(b: Seq<Seq<u8>>, level: int)
    requires
        is_board(b),
        0 <= level,
    ensures
        0 <= cleared_count(b) <= BOARD_ROWS,
        kept_rows(b).len() == 0 <==> cleared_count(b) == BOARD_ROWS,
        clear_award(b, level) == cleared_count(b) * level + if cleared_count(b) == BOARD_ROWS {
            FULL_CLEAR_BONUS as int
        } else {
            0
        },
        0 <= clear_award(b, level) <= BOARD_ROWS * level + FULL_CLEAR_BONUS,
{
    lemma_kept_rows_are_incomplete(b);
    let n = cleared_count(b);
    assert(0 <= n * level <= 16 * level) by (nonlinear_arith)
        requires
            0 <= n <= 16,
            0 <= level,
    ;
}

/// Most points that locking a piece in can give: the last level for the
/// landing and for each of the 16 rows, and the bonus.
pub const MAX_LOCK_AWARD: u32 = 1170;

/// A well-formed game whose score is `MAX_LOCK_AWARD` or more below the
/// largest score, and whose line count is 16 or more below the largest
/// count, has room for what a clear adds and for what locking its piece
/// in adds.
pub proof fn lemma_room_to_lock(tetris: Tetris)
    requires
        tetris.wf(),
        tetris.score + MAX_LOCK_AWARD <= u32::MAX,
        tetris.num_lines + BOARD_ROWS <= u32::MAX,
    ensures
        tetris.can_clear(),
        tetris.can_lock(),
        is_board(tetris.landed_board()),
{
    let level = tetris.current_level as int;
    if let Some(piece) = tetris.current_piece {
        assert(is_shape(piece.shape()));
        lemma_merged_is_board(tetris.board(), piece.shape(), piece.x as int, piece.y as int);
    }
    lemma_clear_award_bounds(tetris.board(), level);
    lemma_clear_award_bounds(tetris.landed_board(), level);
}

/// Whether every cell of the row is occupied.
fn full_row(row: &Vec<u8>) -> (full: bool)
    ensures
        full == row_complete(row@),
{
    let mut c: usize = 0;
    while c < row.len()
        invariant
            0 <= c <= row@.len(),
            forall|j: int| 0 <= j < c ==> #[trigger] row@[j] != 0,
        decreases row@.len() - c,
    {
        if row[c] == 0 {
            return false;
        }
        c += 1;
    }
    true
}

/// A row of 10 empty cells.
fn blank_row() -> (row: Vec<u8>)
    ensures
        row@ == empty_row(),
{
    let row = vec![0u8; 10];
    assert(row@ =~= empty_row());
    row
}

/// Whether the piece is due for a forced step down: `elapsed` is the time
/// since the last one, in whole seconds and the nanoseconds beyond them,
/// and is longer than the rest that the level allows. With no time known
/// the piece is not due.
pub fn is_time_over(tetris: &Tetris, elapsed: Option<(u64, u32)>) -> (over: bool)
    ensures
        over == match elapsed {
            Some((secs, nanos)) => millis(secs as int, nanos as int) > fall_interval(
                tetris.current_level as int,
            ),
            None => false,
        },
{
    match elapsed {
        Some((secs, nanos)) => interval_elapsed(tetris.current_level, secs, nanos),
        None => false,
    }
}

} // verus!
