//! Collision of a moving body with the grid, one axis at a time.
//!
//! A displacement is tried along `x` and along `y` separately. The caller
//! finds, for each axis, the cell that the leading edge of the body would
//! reach if only that axis moved; the grid decides which of the two partial
//! moves may happen. A body that runs diagonally into a wall thus slides
//! along it.

use crate::map::Grid;
use crate::map::GridMap;
use vstd::prelude::*;

verus! {

/// Which parts of a displacement the grid lets happen.
#[derive(Debug, Clone, Copy, PartialEq, Eq)]
pub struct AxisMoves {
    /// The body may move along `x`.
    pub x: bool,
    /// The body may move along `y`.
    pub y: bool,
}

/// The moves that `grid` lets happen where the move along `x` leads into
/// the cell `x_probe` and the move along `y` into the cell `y_probe`: each
/// is decided on its own cell alone.
pub open spec fn allowed_moves(grid: Grid, x_probe: (int, int), y_probe: (int, int)) -> AxisMoves {
    AxisMoves {
        x: !grid.is_solid(x_probe.0, x_probe.1),
        y: !grid.is_solid(y_probe.0, y_probe.1),
    }
}

/// Decides both parts of a displacement: the part along `x` leads into the
/// cell `x_probe`, the part along `y` into the cell `y_probe`.
pub fn resolve_move(map: &GridMap, x_probe: (i32, i32), y_probe: (i32, i32)) -> (moves: AxisMoves)
    ensures
        moves == allowed_moves(
            map@,
            (x_probe.0 as int, x_probe.1 as int),
            (y_probe.0 as int, y_probe.1 as int),
        ),
        !map@.in_bounds(x_probe.0 as int, x_probe.1 as int) ==> !moves.x,
        !map@.in_bounds(y_probe.0 as int, y_probe.1 as int) ==> !moves.y,
{
    AxisMoves {
        x: !map.is_solid(x_probe.0, x_probe.1),
        y: !map.is_solid(y_probe.0, y_probe.1),
    }
}

} // verus!
