//! The occupancy matrix: nalgebra's `DMatrix<u8>`, modelled as a sequence of
//! rows, each a sequence of cells.

use nalgebra::DMatrix;
use vstd::prelude::*;

verus! {

/// A square occupancy matrix, kept in nalgebra's `DMatrix<u8>`. Verus sees
/// only what `cells_of` says of it.
#[verifier::external_body]
#[derive(Debug)]
pub struct CellMatrix {
    m: DMatrix<u8>,
}

/// What a matrix holds: its rows, top to bottom, each listing its cells from
/// left to right.
pub uninterp spec fn cells_of(m: CellMatrix) -> Seq<Seq<u8>>;

/// `c` has `n` rows of `n` cells each.
pub open spec fn is_square(c: Seq<Seq<u8>>, n: nat) -> bool {
    &&& c.len() == n
    &&& forall|i: int| 0 <= i < n ==> #[trigger] c[i].len() == n
}

/// An `n` by `n` grid of zeros.
pub open spec fn empty_cells(n: nat) -> Seq<Seq<u8>> {
    Seq::new(n, |_i: int| Seq::new(n, |_j: int| 0u8))
}

/// The cell at row `r`, column `col`.
pub open spec fn cell(c: Seq<Seq<u8>>, r: int, col: int) -> u8 {
    c[r][col]
}

/// `c` with the cell at row `r`, column `col` set to `v`.
pub open spec fn with_cell(c: Seq<Seq<u8>>, r: int, col: int, v: u8) -> Seq<Seq<u8>> {
    c.update(r, c[r].update(col, v))
}

/// Relies on `DMatrix::zeros`: an `n` by `n` matrix whose cells are all 0.
#[verifier::external_body]
pub(crate) fn zeros(n: usize) -> (r: CellMatrix)
    requires
        n * n <= isize::MAX,
    ensures
        cells_of(r) == empty_cells(n as nat),
{
    CellMatrix { m: DMatrix::zeros(n, n) }
}


/// Relies on `Matrix::ncols`: the number of cells in each row.
#[verifier::external_body]
pub(crate) fn ncols(m: &CellMatrix) -> (r: usize)
    ensures
        forall|i: int| 0 <= i < cells_of(*m).len() ==> #[trigger] cells_of(*m)[i].len() == r,
{
    m.m.ncols()
}

/// Relies on indexing a matrix by `(row, column)`, which panics outside it.
#[verifier::external_body]
pub(crate) fn get_cell(m: &CellMatrix, r: usize, col: usize) -> (v: u8)
    requires
        r < cells_of(*m).len(),
        col < cells_of(*m)[r as int].len(),
    ensures
        v == cell(cells_of(*m), r as int, col as int),
{
    m.m[(r, col)]
}

/// Relies on mutable indexing by `(row, column)`: writes one cell and no other.
#[verifier::external_body]
pub(crate) fn set_cell(m: &mut CellMatrix, r: usize, col: usize, v: u8)
    requires
        r < cells_of(*old(m)).len(),
        col < cells_of(*old(m))[r as int].len(),
    ensures
        cells_of(*final(m)) == with_cell(cells_of(*old(m)), r as int, col as int, v),
{
    m.m[(r, col)] = v;
}

/// Relies on `Clone` for a matrix: the copy holds the same cells.
#[verifier::external_body]
pub(crate) fn copy(m: &CellMatrix) -> (r: CellMatrix)
    ensures
        cells_of(r) == cells_of(*m),
{
    CellMatrix { m: m.m.clone() }
}

/// The transpose of a square grid: row `i`, column `j` holds what row `j`,
/// column `i` held.
pub open spec fn transposed(c: Seq<Seq<u8>>) -> Seq<Seq<u8>> {
    Seq::new(c.len(), |i: int| Seq::new(c.len(), |j: int| c[j][i]))
}

/// Relies on `Matrix::transpose_mut`, which asserts that the matrix is square
/// and swaps each cell with its mirror across the diagonal.
#[verifier::external_body]
pub(crate) fn transpose_in_place(m: &mut CellMatrix)
    requires
        is_square(cells_of(*old(m)), cells_of(*old(m)).len()),
    ensures
        cells_of(*final(m)) == transposed(cells_of(*old(m))),
{
    m.m.transpose_mut();
}

/// `c` with columns `a` and `b` exchanged in every row.
pub open spec fn columns_swapped(c: Seq<Seq<u8>>, a: int, b: int) -> Seq<Seq<u8>> {
    Seq::new(c.len(), |i: int| c[i].update(a, c[i][b]).update(b, c[i][a]))
}

/// Relies on `Matrix::swap_columns`, which asserts that both columns exist and
/// exchanges them in every row.
#[verifier::external_body]
pub(crate) fn swap_columns(m: &mut CellMatrix, a: usize, b: usize)
    requires
        cells_of(*old(m)).len() > 0,
        forall|i: int| 0 <= i < cells_of(*old(m)).len() ==> a < #[trigger] cells_of(*old(m))[i].len(),
        forall|i: int| 0 <= i < cells_of(*old(m)).len() ==> b < #[trigger] cells_of(*old(m))[i].len(),
    ensures
        cells_of(*final(m)) == columns_swapped(cells_of(*old(m)), a as int, b as int),
{
    m.m.swap_columns(a, b);
}

} // verus!
