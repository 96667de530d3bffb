//! Integer 3-D coordinates, the identity of a node.

use vstd::prelude::*;

verus! {

/// A point of the grid. Two nodes with equal coordinates are the same node.
///
/// The derived order is lexicographic: by `x`, then `y`, then `z`.
#[derive(Clone, Copy, Debug, PartialEq, Eq, Structural, Hash, PartialOrd, Ord)]
pub struct NodePosition {
    pub x: isize,
    pub y: isize,
    pub z: isize,
}

impl Default for NodePosition {
    /// The origin.
    fn default() -> (r: Self)
        ensures
            r == NodePosition::origin(),
    {
        NodePosition { x: 0, y: 0, z: 0 }
    }
}

impl NodePosition {
    /// The point where all three coordinates are zero.
    pub open spec fn origin() -> NodePosition {
        NodePosition { x: 0, y: 0, z: 0 }
    }

    /// The point with the coordinates `x`, `y` and `z`.
    pub fn new(x: isize, y: isize, z: isize) -> (r: Self)
        ensures
            r.x == x,
            r.y == y,
            r.z == z,
    {
        Self { x, y, z }
    }

    /// The point `x` steps further along the first axis.
    pub fn with_x(self, x: isize) -> (r: Self)
        requires
            isize::MIN <= self.x + x <= isize::MAX,
        ensures
            r.x == self.x + x,
            r.y == self.y,
            r.z == self.z,
    {
        Self { x: self.x + x, y: self.y, z: self.z }
    }

    /// The point `y` steps further along the second axis.
    pub fn with_y(self, y: isize) -> (r: Self)
        requires
            isize::MIN <= self.y + y <= isize::MAX,
        ensures
            r.x == self.x,
            r.y == self.y + y,
            r.z == self.z,
    {
        Self { x: self.x, y: self.y + y, z: self.z }
    }

    /// The point `z` steps further along the third axis.
    pub fn with_z(self, z: isize) -> (r: Self)
        requires
            isize::MIN <= self.z + z <= isize::MAX,
        ensures
            r.x == self.x,
            r.y == self.y,
            r.z == self.z + z,
    {
        Self { x: self.x, y: self.y, z: self.z + z }
    }
}

} // verus!
