//! Index arithmetic of the background grid. The grid's vertices are stored
//! row by row; a row holds `GRID_COLUMNS` vertices spaced `GRID_DISTANCE`
//! world units apart.

use vstd::prelude::*;

verus! {

/// Width of the world in world units.
pub const WORLD_WIDTH: i32 = 1200;

/// Height of the world in world units.
pub const WORLD_HEIGHT: i32 = 900;

/// Distance of neighbouring grid vertices in world units.
pub const GRID_DISTANCE: i32 = 20;

/// Vertices per grid row: `WORLD_WIDTH / GRID_DISTANCE + 1`.
pub const GRID_COLUMNS: usize = 61;

/// The vertices pulled towards a missile in grid cell (`column`, `row`):
/// the cell's own vertex, the one a row above when that index is past the
/// first row, the one a row below when it lies inside the grid, and, unless
/// the vertex starts a row, the ones right and left of it, in this order.
pub open spec fn spec_intersect_indices(column: usize, row: usize, columns: usize, grid_len: usize) -> Seq<usize> {
    let index = row * columns + column;
    let s0 = seq![index as usize];
    let s1 = if index > columns { s0.push((index - columns) as usize) } else { s0 };
    let s2 = if index + columns < grid_len { s1.push((index + columns) as usize) } else { s1 };
    if index % (columns as int) != 0 {
        s2.push((index + 1) as usize).push((index - 1) as usize)
    } else {
        s2
    }
}

/// Indices of the grid vertices that a missile in cell (`column`, `row`)
/// pulls on. The caller indexes the grid with them; the right neighbour of
/// the last vertex of the last row lies past the grid.
pub fn intersect_indices(column: usize, row: usize, columns: usize, grid_len: usize) -> (r: Vec<usize>)
    requires
        columns > 0,
        row * columns + column + columns + 1 <= usize::MAX,
    ensures
        r@ == spec_intersect_indices(column, row, columns, grid_len),
{
    assert(row * columns <= row * columns + column) by (nonlinear_arith)
        requires
            column >= 0,
    ;
    let index = row * columns + column;
    let mut indices: Vec<usize> = Vec::new();
    indices.push(index);
    if index > columns {
        indices.push(index - columns);
    }
    if index + columns < grid_len {
        indices.push(index + columns);
    }
    if index % columns != 0 {
        assert(index != 0) by {
            if index == 0 {
                assert(0usize % columns == 0);
            }
        }
        indices.push(index + 1);
        indices.push(index - 1);
    }
    indices
}

/// `a / b` rounded towards zero, as Rust's `/` on integers does.
pub open spec fn div_toward_zero(a: int, b: int) -> int {
    if a >= 0 {
        a / b
    } else {
        -((-a) / b)
    }
}

/// The grid vertex that a force at world position (`x`, `y`), truncated to
/// whole units, acts on: its cell is found by dividing by `GRID_DISTANCE`;
/// cells with a coordinate below zero or beyond the world's width or height
/// (counted in units, not cells) are ignored, and so is an index past the
/// grid.
pub open spec fn spec_force_index(x: i32, y: i32, grid_len: usize) -> Option<usize> {
    let cx = div_toward_zero(x as int, GRID_DISTANCE as int);
    let cy = div_toward_zero(y as int, GRID_DISTANCE as int);
    if cx > WORLD_WIDTH || cy > WORLD_HEIGHT || cx < 0 || cy < 0 {
        None
    } else {
        let index = cy * GRID_COLUMNS + cx;
        if index < grid_len {
            Some(index as usize)
        } else {
            None
        }
    }
}

/// The grid vertex that a force at world position (`x`, `y`) acts on, if
/// any.
pub fn force_index(x: i32, y: i32, grid_len: usize) -> (r: Option<usize>)
    ensures
        r == spec_force_index(x, y, grid_len),
{
    let cx = x / GRID_DISTANCE;
    let cy = y / GRID_DISTANCE;
    if cx > WORLD_WIDTH || cy > WORLD_HEIGHT || cx < 0 || cy < 0 {
        return None;
    }
    let columns = GRID_COLUMNS as i32;
    let index = (cy * columns + cx) as usize;
    if index < grid_len {
        Some(index)
    } else {
        None
    }
}

} // verus!
