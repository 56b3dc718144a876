//! The extent of the world and the wrap that keeps agents inside it.

use crate::fixed::{trunc_div, ONE};
use crate::vector::Point;
use vstd::prelude::*;

verus! {

/// Width and height of the viewport, in 16.16 fixed point. The world is
/// centred on the origin. The extent may change from one tick to the next.
#[derive(Clone, Copy, Debug, PartialEq, Eq, Structural)]
pub struct WorldBounds {
    pub width: i32,
    pub height: i32,
}

/// Half of an extent: the distance from the origin to an edge.
pub open spec fn half_extent(extent: i32) -> int {
    trunc_div(extent as int, 2)
}

/// Where a coordinate ends up on a torus of the given extent. A coordinate
/// beyond the far edge re-enters one unit inside the near edge; one at or
/// beyond the near edge re-enters one unit inside the far edge.
pub open spec fn wrapped(coordinate: int, extent: i32) -> int {
    let half = half_extent(extent);
    if coordinate > half {
        -half + ONE
    } else if coordinate <= -half {
        half - ONE
    } else {
        coordinate
    }
}

/// Wraps one coordinate; the result always fits a position.
pub fn wrap_coordinate(coordinate: i64, extent: i32) -> (inside: i32)
    ensures
        inside == wrapped(coordinate as int, extent),
{
    let half: i64 = (extent / 2) as i64;
    let inside: i64 = if coordinate > half {
        -half + ONE as i64
    } else if coordinate <= -half {
        half - ONE as i64
    } else {
        coordinate
    };
    assert(i32::MIN <= inside <= i32::MAX);
    inside as i32
}

impl WorldBounds {
    /// The position that `(x, y)` wraps to.
    pub open spec fn wrapped_point(self, x: int, y: int) -> Point {
        Point { x: wrapped(x, self.width) as i32, y: wrapped(y, self.height) as i32 }
    }

    /// Whether a position lies inside the world: on each axis, above the near
    /// edge and at most at the far edge.
    pub open spec fn contains(self, p: Point) -> bool {
        &&& -half_extent(self.width) < p.x <= half_extent(self.width)
        &&& -half_extent(self.height) < p.y <= half_extent(self.height)
    }

    /// Wraps both coordinates of a position.
    pub fn wrap(&self, x: i64, y: i64) -> (inside: Point)
        ensures
            inside == self.wrapped_point(x as int, y as int),
            inside.x == wrapped(x as int, self.width),
            inside.y == wrapped(y as int, self.height),
    {
        Point { x: wrap_coordinate(x, self.width), y: wrap_coordinate(y, self.height) }
    }
}

} // verus!
