//! The Game of Life rule on a toroidal grid, as mathematics.
//!
//! A generation is a `Seq<bool>` of length `width * height`, row-major: the
//! cell at `(row, col)` is entry `row * width + col`.  The grid wraps: the
//! neighbor above row 0 is row `height - 1`, the neighbor right of column
//! `width - 1` is column 0, and symmetrically on the other two edges.

use vstd::prelude::*;

verus! {

/// The row above `row`, wrapping to the bottom edge.
pub open spec fn north_of(row: int, height: int) -> int {
    if row == 0 {
        height - 1
    } else {
        row - 1
    }
}

/// The row below `row`, wrapping to the top edge.
pub open spec fn south_of(row: int, height: int) -> int {
    if row == height - 1 {
        0
    } else {
        row + 1
    }
}

/// The column left of `col`, wrapping to the right edge.
pub open spec fn west_of(col: int, width: int) -> int {
    if col == 0 {
        width - 1
    } else {
        col - 1
    }
}

/// The column right of `col`, wrapping to the left edge.
pub open spec fn east_of(col: int, width: int) -> int {
    if col == width - 1 {
        0
    } else {
        col + 1
    }
}

/// The cell of `g` at `(row, col)` on a grid `width` cells wide.
pub open spec fn cell_at(g: Seq<bool>, width: int, row: int, col: int) -> bool {
    g[row * width + col]
}

/// One where the cell is alive, zero where it is dead.
pub open spec fn occupancy(b: bool) -> int {
    if b {
        1
    } else {
        0
    }
}

/// How many of the 8 toroidal neighbors of `(row, col)` are alive.  On a
/// degenerate grid distinct neighbor offsets may land on the same cell — on
/// a one-row grid the north and south neighbors are the cell's own row — and
/// such a cell is counted once per offset, as the rule demands.
pub open spec fn neighbor_count(g: Seq<bool>, width: int, height: int, row: int, col: int) -> int {
    let n = north_of(row, height);
    let s = south_of(row, height);
    let w = west_of(col, width);
    let e = east_of(col, width);
    occupancy(cell_at(g, width, n, w)) + occupancy(cell_at(g, width, n, col)) + occupancy(
        cell_at(g, width, n, e),
    ) + occupancy(cell_at(g, width, row, w)) + occupancy(cell_at(g, width, row, e)) + occupancy(
        cell_at(g, width, s, w),
    ) + occupancy(cell_at(g, width, s, col)) + occupancy(cell_at(g, width, s, e))
}

/// The rule: a cell is alive in the next generation iff it has exactly three
/// live neighbors, or it is alive now and has exactly two.  This folds the
/// four clauses — underpopulation, survival, overpopulation, reproduction —
/// into one condition.
pub open spec fn next_cell(g: Seq<bool>, width: int, height: int, row: int, col: int) -> bool {
    let count = neighbor_count(g, width, height, row, col);
    count == 3 || (cell_at(g, width, row, col) && count == 2)
}

/// One synchronous generation step of the whole grid: every cell of the
/// result is the rule applied to the old generation.
pub open spec fn step(g: Seq<bool>, width: int, height: int) -> Seq<bool> {
    Seq::new((width * height) as nat, |i: int| next_cell(g, width, height, i / width, i % width))
}

/// The fixed seed pattern: the cell at flat index `i` starts alive iff `i`
/// is even or a multiple of 7.
pub open spec fn init_cell(i: int) -> bool {
    i % 2 == 0 || i % 7 == 0
}

/// The whole seed generation for a `width` by `height` grid.
pub open spec fn init_grid(width: int, height: int) -> Seq<bool> {
    Seq::new((width * height) as nat, |i: int| init_cell(i))
}

/// A cell within bounds has its flat index within the grid.
pub proof fn lemma_flat_in_range(row: int, col: int, width: int, height: int)
    requires
        0 <= row < height,
        0 <= col < width,
    ensures
        0 <= row * width + col < width * height,
{
    assert(row * width + col < width * height) by (nonlinear_arith)
        requires
            0 <= row < height,
            0 <= col < width,
    ;
}

/// Law: for every cell within bounds, all four wrapped neighbor coordinates
/// are within bounds; and on a one-row (or one-column) grid the north and
/// south rows (or west and east columns) coincide with the cell's own, so a
/// cell there is its own neighbor through the wraparound.
pub proof fn lemma_neighbors_in_bounds(row: int, col: int, width: int, height: int)
    requires
        0 <= row < height,
        0 <= col < width,
    ensures
        0 <= north_of(row, height) < height,
        0 <= south_of(row, height) < height,
        0 <= west_of(col, width) < width,
        0 <= east_of(col, width) < width,
        height == 1 ==> north_of(row, height) == row && south_of(row, height) == row,
        width == 1 ==> west_of(col, width) == col && east_of(col, width) == col,
{
}

/// Law: the grid is a torus at the corner.  Cell `(0, 0)` is the south-east
/// neighbor of `(height-1, width-1)`, the south neighbor of `(height-1, 0)`
/// and the east neighbor of `(0, width-1)`; so whenever it is alive it adds
/// one to each of those cells' neighbor counts.
pub proof fn lemma_corner_wraparound(g: Seq<bool>, width: int, height: int)
    requires
        width >= 2,
        height >= 2,
        g.len() == width * height,
        g[0],
    ensures
        south_of(height - 1, height) == 0 && east_of(width - 1, width) == 0,
        north_of(0, height) == height - 1 && west_of(0, width) == width - 1,
        neighbor_count(g, width, height, height - 1, width - 1) >= 1,
        neighbor_count(g, width, height, height - 1, 0) >= 1,
        neighbor_count(g, width, height, 0, width - 1) >= 1,
{
    assert(cell_at(g, width, 0, 0) == g[0]);
    assert(neighbor_count(g, width, height, height - 1, width - 1) >= occupancy(
        cell_at(g, width, south_of(height - 1, height), east_of(width - 1, width)),
    ));
    assert(neighbor_count(g, width, height, height - 1, 0) >= occupancy(
        cell_at(g, width, south_of(height - 1, height), 0),
    ));
    assert(neighbor_count(g, width, height, 0, width - 1) >= occupancy(
        cell_at(g, width, 0, east_of(width - 1, width)),
    ));
}

} // verus!
