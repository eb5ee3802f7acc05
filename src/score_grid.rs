use vstd::prelude::*;
use grid::Grid;

verus! {

#[verifier::external_type_specification]
#[verifier::external_body]
#[verifier::reject_recursive_types(T)]
pub struct ExGrid<T>(Grid<T>);

/// What a grid of score pairs holds, row by row.
pub uninterp spec fn grid_cells(g: Grid<(i32, i32)>) -> Seq<Seq<(i32, i32)>>;

/// Relies on `grid::Grid::new`: a row-major grid of `rows` rows and `cols`
/// columns, each cell holding `Default::default()`, here `(0, 0)`. It
/// panics only when `rows * cols` overflows.
#[verifier::external_body]
pub(crate) fn zero_grid(rows: usize, cols: usize) -> (g: Grid<(i32, i32)>)
    requires
        0 < rows,
        0 < cols,
        rows * cols <= usize::MAX,
    ensures
        grid_cells(g).len() == rows,
        forall|r: int|
            0 <= r < rows ==> (#[trigger] grid_cells(g)[r]).len() == cols && forall|c: int|
                0 <= c < cols ==> grid_cells(g)[r][c] == (0i32, 0i32),
{
    Grid::new(rows, cols)
}

/// Relies on `Index<(usize, usize)>` of `grid::Grid`: the cell at `row`,
/// `col`; it panics outside the grid.
#[verifier::external_body]
pub(crate) fn grid_get(g: &Grid<(i32, i32)>, row: usize, col: usize) -> (v: (i32, i32))
    requires
        row < grid_cells(*g).len(),
        col < grid_cells(*g)[row as int].len(),
    ensures
        v == grid_cells(*g)[row as int][col as int],
{
    g[(row, col)]
}

/// Relies on `IndexMut<(usize, usize)>` of `grid::Grid`: writes the cell at
/// `row`, `col` and no other; it panics outside the grid.
#[verifier::external_body]
pub(crate) fn grid_set(g: &mut Grid<(i32, i32)>, row: usize, col: usize, v: (i32, i32))
    requires
        row < grid_cells(*old(g)).len(),
        col < grid_cells(*old(g))[row as int].len(),
    ensures
        grid_cells(*final(g)) == grid_cells(*old(g)).update(
            row as int,
            grid_cells(*old(g))[row as int].update(col as int, v),
        ),
{
    g[(row, col)] = v;
}

} // verus!
