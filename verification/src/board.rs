//! The playing field as a mathematical object: a sequence of rows of cells,
//! row 0 at the top. A cell holds 0 when it is empty and the colour of the
//! piece that filled it otherwise.

use vstd::prelude::*;

verus! {

/// Rows of cells, as they are stored.
pub type Grid = Vec<Vec<u8>>;

/// Number of rows of the playing field.
pub const BOARD_ROWS: usize = 16;

/// Number of columns of the playing field.
pub const BOARD_COLS: usize = 10;

/// Largest colour a cell can hold.
pub const MAX_CELL: u8 = 7;

/// Points given on top of the row awards when a clear leaves no row behind.
pub const FULL_CLEAR_BONUS: u32 = 1000;

/// The cells of a stored grid, row by row.
pub open spec fn cells(g: Seq<Vec<u8>>) -> Seq<Seq<u8>> {
    Seq::new(g.len(), |r: int| g[r]@)
}

/// A playing field: 16 rows of 10 cells, each cell a colour in 0..=7.
pub open spec fn is_board(b: Seq<Seq<u8>>) -> bool {
    &&& b.len() == BOARD_ROWS
    &&& forall|r: int| 0 <= r < b.len() ==> is_board_row(#[trigger] b[r])
}

/// One row of a playing field: 10 cells, each a colour in 0..=7.
pub open spec fn is_board_row(row: Seq<u8>) -> bool {
    &&& row.len() == BOARD_COLS
    &&& forall|c: int| 0 <= c < row.len() ==> #[trigger] row[c] <= MAX_CELL
}

/// The cell at (`row`, `col`) exists in `b` and is empty. Rows above the
/// grid and columns left of it do not exist.
pub open spec fn cell_free(b: Seq<Seq<u8>>, row: int, col: int) -> bool {
    &&& 0 <= row < b.len()
    &&& 0 <= col < b[row].len()
    &&& b[row][col] == 0
}

/// A 4x4 shape whose top-left corner sits at column `x`, row `y` of `b`
/// lies on free cells only: each of its occupied cells is inside the grid
/// and on an empty cell.
pub open spec fn fits(shape: Seq<Seq<u8>>, b: Seq<Seq<u8>>, x: int, y: int) -> bool {
    forall|r: int, c: int|
        0 <= r < 4 && 0 <= c < 4 && #[trigger] shape[r][c] != 0 ==> cell_free(b, y + r, x + c)
}

/// The shape at (`x`, `y`) covers the cell (`row`, `col`) with an occupied
/// cell of its own.
pub open spec fn covers(shape: Seq<Seq<u8>>, x: int, y: int, row: int, col: int) -> bool {
    &&& 0 <= row - y < 4
    &&& 0 <= col - x < 4
    &&& shape[row - y][col - x] != 0
}

/// The grid after the shape at (`x`, `y`) has been written into it: a cell
/// that the shape covers takes the shape's colour, every other cell stays.
/// Occupied cells of the shape that lie outside the grid are dropped.
pub open spec fn merged(b: Seq<Seq<u8>>, shape: Seq<Seq<u8>>, x: int, y: int) -> Seq<Seq<u8>> {
    Seq::new(
        b.len(),
        |row: int|
            Seq::new(
                b[row].len(),
                |col: int|
                    if covers(shape, x, y, row, col) {
                        shape[row - y][col - x]
                    } else {
                        b[row][col]
                    },
            ),
    )
}

/// Every cell of the row is occupied.
pub open spec fn row_complete(row: Seq<u8>) -> bool {
    forall|c: int| 0 <= c < row.len() ==> #[trigger] row[c] != 0
}

/// The test a row passes when a clear leaves it on the board.
pub open spec fn row_stays() -> spec_fn(Seq<u8>) -> bool {
    |row: Seq<u8>| !row_complete(row)
}

/// The rows that a clear leaves on the board, in their order: those with
/// at least one empty cell.
pub open spec fn kept_rows(b: Seq<Seq<u8>>) -> Seq<Seq<u8>> {
    b.filter(row_stays())
}

/// How many rows a clear takes off the board.
pub open spec fn cleared_count(b: Seq<Seq<u8>>) -> int {
    b.len() - kept_rows(b).len()
}

/// A row of 10 empty cells.
pub open spec fn empty_row() -> Seq<u8> {
    Seq::new(BOARD_COLS as nat, |c: int| 0u8)
}

/// `n` empty rows.
pub open spec fn empty_rows(n: int) -> Seq<Seq<u8>> {
    Seq::new(n as nat, |r: int| empty_row())
}

/// The board after a clear: the kept rows at the bottom, in their order,
/// under as many empty rows as were taken off.
pub open spec fn after_clear(b: Seq<Seq<u8>>) -> Seq<Seq<u8>> {
    empty_rows(cleared_count(b)) + kept_rows(b)
}

/// Points that a clear of `b` gives at `level`: `level` for each row taken
/// off, and the bonus when no row is left.
pub open spec fn clear_award(b: Seq<Seq<u8>>, level: int) -> int {
    cleared_count(b) * level + if kept_rows(b).len() == 0 {
        FULL_CLEAR_BONUS as int
    } else {
        0
    }
}

/// Writing a shape into a grid where it lies on free cells overwrites no
/// occupied cell: what was occupied keeps its colour, and the cells that
/// become occupied are those that the shape covers.
pub proof fn lemma_merged_fits(b: Seq<Seq<u8>>, shape: Seq<Seq<u8>>, x: int, y: int)
    requires
        fits(shape, b, x, y),
    ensures
        forall|row: int, col: int|
            0 <= row < b.len() && 0 <= col < b[row].len() && b[row][col] != 0 ==> #[trigger] merged(
                b,
                shape,
                x,
                y,
            )[row][col] == b[row][col],
        forall|row: int, col: int|
            0 <= row < b.len() && 0 <= col < b[row].len() && b[row][col] == 0 ==> (#[trigger] merged(
                b,
                shape,
                x,
                y,
            )[row][col] != 0 <==> covers(shape, x, y, row, col)),
{
    assert forall|row: int, col: int|
        0 <= row < b.len() && 0 <= col < b[row].len() && b[row][col] != 0 implies #[trigger] merged(
        b,
        shape,
        x,
        y,
    )[row][col] == b[row][col] by {
        if covers(shape, x, y, row, col) {
            assert(shape[row - y][col - x] != 0);
            assert(cell_free(b, y + (row - y), x + (col - x)));
        }
    }
}

/// Taking a complete row out of a grid does not change which rows a clear keeps.
pub proof fn lemma_kept_rows_remove(b: Seq<Seq<u8>>, i: int)
    requires
        0 <= i < b.len(),
        row_complete(b[i]),
    ensures
        kept_rows(b.remove(i)) == kept_rows(b),
{
    let head = b.take(i);
    let mid = seq![b[i]];
    let tail = b.skip(i + 1);
    assert(b =~= head + mid + tail);
    assert(b.remove(i) =~= head + tail);
    Seq::filter_distributes_over_add(head, mid, row_stays());
    Seq::filter_distributes_over_add(head + mid, tail, row_stays());
    Seq::filter_distributes_over_add(head, tail, row_stays());
    assert(mid.filter(row_stays()) =~= Seq::<Seq<u8>>::empty()) by {
        reveal_with_fuel(Seq::filter, 2);
        assert(mid.drop_last() =~= Seq::<Seq<u8>>::empty());
    }
    assert(head.filter(row_stays()) + Seq::<Seq<u8>>::empty() =~= head.filter(row_stays()));
}

/// A grid without a complete row is kept whole by a clear.
pub proof fn lemma_kept_rows_all(b: Seq<Seq<u8>>)
    requires
        forall|r: int| 0 <= r < b.len() ==> !row_complete(#[trigger] b[r]),
    ensures
        kept_rows(b) == b,
    decreases b.len(),
{
    reveal(Seq::filter);
    if b.len() > 0 {
        lemma_kept_rows_all(b.drop_last());
        assert(b.drop_last().push(b.last()) =~= b);
    }
}

/// A clear keeps the rows with an empty cell and no others: what it keeps
/// are rows of the grid, none of them complete; every row of the grid
/// that is not complete is among them; and it takes off no more rows than
/// there are.
pub proof fn lemma_kept_rows_are_incomplete(b: Seq<Seq<u8>>)
    ensures
        kept_rows(b).len() <= b.len(),
        0 <= cleared_count(b) <= b.len(),
        forall|k: int| 0 <= k < kept_rows(b).len() ==> !row_complete(#[trigger] kept_rows(b)[k]),
        forall|k: int| 0 <= k < kept_rows(b).len() ==> b.contains(#[trigger] kept_rows(b)[k]),
        forall|r: int|
            0 <= r < b.len() && !row_complete(#[trigger] b[r]) ==> kept_rows(b).contains(b[r]),
    decreases b.len(),
{
    reveal(Seq::filter);
    if b.len() > 0 {
        let front = b.drop_last();
        lemma_kept_rows_are_incomplete(front);
        assert forall|k: int| 0 <= k < kept_rows(b).len() implies b.contains(
            #[trigger] kept_rows(b)[k],
        ) by {
            if k < kept_rows(front).len() {
                let row = kept_rows(front)[k];
                assert(front.contains(row));
                let j = choose|j: int| 0 <= j < front.len() && front[j] == row;
                assert(b[j] == row);
            } else {
                assert(b[b.len() - 1] == kept_rows(b)[k]);
            }
        }
        assert forall|r: int| 0 <= r < b.len() && !row_complete(#[trigger] b[r]) implies kept_rows(
            b,
        ).contains(b[r]) by {
            if r < b.len() - 1 {
                assert(front[r] == b[r]);
                assert(kept_rows(front).contains(b[r]));
                let k = choose|k: int| 0 <= k < kept_rows(front).len() && kept_rows(front)[k] == b[r];
                assert(kept_rows(b)[k] == b[r]);
            } else {
                assert(kept_rows(b)[kept_rows(b).len() - 1] == b[r]);
            }
        }
    }
}

/// A clear of a playing field gives a playing field again.
pub proof fn lemma_after_clear_is_board(b: Seq<Seq<u8>>)
    requires
        is_board(b),
    ensures
        is_board(after_clear(b)),
{
    lemma_kept_rows_are_incomplete(b);
    let n = cleared_count(b);
    let a = after_clear(b);
    assert forall|r: int| 0 <= r < a.len() implies is_board_row(#[trigger] a[r]) by {
        if r < n {
            assert(a[r] == empty_row());
        } else {
            let row = kept_rows(b)[r - n];
            assert(a[r] == row);
            assert(b.contains(row));
            let j = choose|j: int| 0 <= j < b.len() && b[j] == row;
            assert(is_board_row(b[j]));
        }
    }
}

} // verus!
