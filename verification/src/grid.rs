//! The layout shared by the textual pictures of the board: eight rows from
//! rank 8 down to rank 1, eight cells a row from file a to file h.

use vstd::prelude::*;
use crate::square::Square;

verus! {

/// The first `n` cells of rank `rank`, one character each, with one space
/// between neighbours.
pub open spec fn row_cells(cell: spec_fn(Square) -> char, rank: int, n: int) -> Seq<char>
    decreases n,
{
    if n <= 0 {
        Seq::<char>::empty()
    } else if n == 1 {
        seq![cell(Square::at(rank * 8))]
    } else {
        row_cells(cell, rank, n - 1) + seq![' ', cell(Square::at(rank * 8 + n - 1))]
    }
}

/// The top `k` rows of the picture. A row is its eight cells, then what
/// `suffix` gives for its rank; every row but that of rank 0 ends with a
/// line break.
pub open spec fn grid_rows(
    cell: spec_fn(Square) -> char,
    suffix: spec_fn(int) -> Seq<char>,
    k: int,
) -> Seq<char>
    decreases k,
{
    if k <= 0 {
        Seq::<char>::empty()
    } else {
        grid_rows(cell, suffix, k - 1) + row_cells(cell, 8 - k, 8) + suffix(8 - k) + (if k < 8 {
            seq!['\n']
        } else {
            Seq::<char>::empty()
        })
    }
}

/// The whole picture: all eight rows.
pub open spec fn grid_text(cell: spec_fn(Square) -> char, suffix: spec_fn(int) -> Seq<char>) -> Seq<
    char,
> {
    grid_rows(cell, suffix, 8)
}

/// The suffix of a picture whose rows end with their last cell.
pub open spec fn no_suffix() -> spec_fn(int) -> Seq<char> {
    |rank: int| Seq::<char>::empty()
}

} // verus!
