//! The occupancy grid lives in a `grid::Grid`. This module declares that type
//! to the verifier, names what a grid holds, and wraps the few methods of the
//! crate that the board calls. Nothing in this file is proved: every contract
//! here restates what the source of the `grid` crate does.

use grid::Grid;
use grid::Order;
use vstd::prelude::*;

verus! {

#[verifier::external_type_specification]
#[verifier::external_body]
#[verifier::reject_recursive_types(T)]
pub struct ExGrid<T>(Grid<T>);

/// The cells of a grid, row by row: `grid_cells(g)[r][c]` is the cell at row
/// `r` and column `c`. The outer length is the number of rows, and the length
/// of a row is the number of columns.
pub uninterp spec fn grid_cells(g: Grid<Option<usize>>) -> Seq<Seq<Option<usize>>>;

/// Whether the grid keeps its cells column by column in memory, which fixes
/// the order in which it hands out its indices.
pub uninterp spec fn grid_column_major(g: Grid<Option<usize>>) -> bool;

/// A `rows` by `cols` arrangement of empty cells; no rows at all when either
/// dimension is zero.
pub open spec fn empty_cells(rows: nat, cols: nat) -> Seq<Seq<Option<usize>>> {
    if rows == 0 || cols == 0 {
        Seq::empty()
    } else {
        Seq::new(rows, |r: int| Seq::new(cols, |c: int| None::<usize>))
    }
}

/// `Grid::new_with_order` with `Order::ColumnMajor`: every cell is
/// `Option::default()`, that is `None`; a zero dimension yields the grid with
/// no rows and no columns. The call panics when `rows * cols` overflows and
/// the allocation fails beyond `isize::MAX` bytes, so both are excluded.
#[verifier::external_body]
pub(crate) fn grid_new(rows: usize, cols: usize) -> (g: Grid<Option<usize>>)
    requires
        rows * cols * 16 <= isize::MAX,
    ensures
        grid_cells(g) == empty_cells(rows as nat, cols as nat),
        grid_column_major(g),
{
    Grid::new_with_order(rows, cols, Order::ColumnMajor)
}

/// `Grid::rows`: the stored row count.
#[verifier::external_body]
pub(crate) fn grid_rows(g: &Grid<Option<usize>>) -> (n: usize)
    ensures
        n == grid_cells(*g).len(),
{
    g.rows()
}

/// `Grid::cols`: the stored column count, which is the length of each row
/// that the grid has.
#[verifier::external_body]
pub(crate) fn grid_columns(g: &Grid<Option<usize>>) -> (n: usize)
    ensures
        grid_cells(*g).len() > 0 ==> n == grid_cells(*g)[0].len(),
{
    g.cols()
}

/// `Grid::get`: the cell at `(row, col)` when both indices are inside the
/// grid, `None` otherwise. The cell is copied out of the reference.
#[verifier::external_body]
pub(crate) fn grid_get(g: &Grid<Option<usize>>, row: usize, col: usize) -> (cell: Option<Option<usize>>)
    ensures
        cell == (if row < grid_cells(*g).len() && col < grid_cells(*g)[row as int].len() {
            Some(grid_cells(*g)[row as int][col as int])
        } else {
            None
        }),
{
    g.get(row, col).copied()
}

/// `Grid::get_mut`: a mutable reference to the cell at `(row, col)` when both
/// indices are inside the grid, `None` otherwise. Writing through the
/// reference changes that one cell; the shape and the layout stay.
#[verifier::external_body]
pub(crate) fn grid_get_mut(g: &mut Grid<Option<usize>>, row: usize, col: usize) -> (slot: Option<&mut Option<usize>>)
    ensures
        slot is Some <==> row < grid_cells(*old(g)).len() && col < grid_cells(*old(g))[row as int].len(),
        slot is None ==> grid_cells(*final(g)) == grid_cells(*old(g)),
        slot is Some ==> *slot->0 == grid_cells(*old(g))[row as int][col as int],
        slot is Some ==> grid_cells(*final(g)) == grid_cells(*old(g)).update(
            row as int,
            grid_cells(*old(g))[row as int].update(col as int, *final(slot->0)),
        ),
        grid_column_major(*final(g)) == grid_column_major(*old(g)),
{
    g.get_mut(row, col)
}

/// `Index<(usize, usize)>` of `Grid`: the cell at `(row, col)`, copied out.
/// The crate panics on an index outside the grid, so the caller must be
/// inside.
#[verifier::external_body]
pub(crate) fn grid_index(g: &Grid<Option<usize>>, row: usize, col: usize) -> (cell: Option<usize>)
    requires
        row < grid_cells(*g).len(),
        col < grid_cells(*g)[row as int].len(),
    ensures
        cell == grid_cells(*g)[row as int][col as int],
{
    g[(row, col)]
}

/// `IndexMut<(usize, usize)>` of `Grid`: a mutable reference to the cell at
/// `(row, col)`. The crate panics on an index outside the grid, so the caller
/// must be inside. Writing through the reference changes that one cell.
#[verifier::external_body]
pub(crate) fn grid_index_mut(g: &mut Grid<Option<usize>>, row: usize, col: usize) -> (slot: &mut Option<usize>)
    requires
        row < grid_cells(*old(g)).len(),
        col < grid_cells(*old(g))[row as int].len(),
    ensures
        *slot == grid_cells(*old(g))[row as int][col as int],
        grid_cells(*final(g)) == grid_cells(*old(g)).update(
            row as int,
            grid_cells(*old(g))[row as int].update(col as int, *final(slot)),
        ),
        grid_column_major(*final(g)) == grid_column_major(*old(g)),
{
    &mut g[(row, col)]
}

/// How many cells a grid with these rows stores.
pub open spec fn cell_count(cells: Seq<Seq<Option<usize>>>) -> nat {
    if cells.len() > 0 {
        cells.len() * cells[0].len()
    } else {
        0
    }
}

/// `Grid::indexed_iter`, keeping the index of each item and dropping the
/// reference to the cell. A column-major grid stores `rows * cols` cells and
/// hands them out in storage order, which gives the item at place `i` the
/// index `(i % rows, i / rows)`.
#[verifier::external_body]
pub(crate) fn grid_indices(g: &Grid<Option<usize>>) -> (indices: Vec<(usize, usize)>)
    requires
        grid_column_major(*g),
    ensures
        indices@.len() == cell_count(grid_cells(*g)),
        forall|i: int|
            0 <= i < indices@.len() ==> (#[trigger] indices@[i]) == (
                (i % (grid_cells(*g).len() as int)) as usize,
                (i / (grid_cells(*g).len() as int)) as usize,
            ),
{
    g.indexed_iter().map(|(at, _)| at).collect()
}

} // verus!
