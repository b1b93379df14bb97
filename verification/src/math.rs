//! Integer vectors for chunk and voxel coordinates.

use vstd::prelude::*;

verus! {

/// A pair of integers: a column of the world, in chunk units. `y` runs along
/// the world's z axis.
#[derive(Clone, Copy, Debug, PartialEq, Eq, Structural, Hash)]
pub struct IVec2 {
    pub x: i32,
    pub y: i32,
}

impl IVec2 {
    /// The vector `(x, y)`.
    pub fn new(x: i32, y: i32) -> (v: IVec2)
        ensures
            v == (IVec2 { x, y }),
    {
        IVec2 { x, y }
    }

    /// The squared Euclidean distance between two points.
    pub open spec fn spec_distance_squared(self, other: IVec2) -> int {
        (self.x - other.x) * (self.x - other.x) + (self.y - other.y) * (self.y - other.y)
    }

    /// The squared Euclidean distance between two points. It always fits:
    /// each coordinate difference is below 2^32 in size.
    pub fn distance_squared(&self, other: IVec2) -> (d: u128)
        ensures
            d as int == self.spec_distance_squared(other),
    {
        let dx: i64 = self.x as i64 - other.x as i64;
        let dy: i64 = self.y as i64 - other.y as i64;
        let ax: u128 = if dx < 0 {
            (-dx) as u128
        } else {
            dx as u128
        };
        let ay: u128 = if dy < 0 {
            (-dy) as u128
        } else {
            dy as u128
        };
        assert(ax * ax == dx * dx && ax * ax <= 0x1_0000_0000 * 0x1_0000_0000) by (nonlinear_arith)
            requires
                ax == dx || ax == -dx,
                0 <= ax <= 0x1_0000_0000,
        ;
        assert(ay * ay == dy * dy && ay * ay <= 0x1_0000_0000 * 0x1_0000_0000) by (nonlinear_arith)
            requires
                ay == dy || ay == -dy,
                0 <= ay <= 0x1_0000_0000,
        ;
        ax * ax + ay * ay
    }
}

impl Default for IVec2 {
    fn default() -> (v: IVec2)
        ensures
            v == (IVec2 { x: 0, y: 0 }),
    {
        IVec2 { x: 0, y: 0 }
    }
}

/// A triple of integers: a voxel position, or a chunk position with its
/// height.
#[derive(Clone, Copy, Debug, PartialEq, Eq, Structural, Hash)]
pub struct IVec3 {
    pub x: i32,
    pub y: i32,
    pub z: i32,
}

impl IVec3 {
    /// The vector `(x, y, z)`.
    pub fn new(x: i32, y: i32, z: i32) -> (v: IVec3)
        ensures
            v == (IVec3 { x, y, z }),
    {
        IVec3 { x, y, z }
    }

    /// The vector with all three coordinates equal to `v`.
    pub fn splat(v: i32) -> (r: IVec3)
        ensures
            r == (IVec3 { x: v, y: v, z: v }),
    {
        IVec3 { x: v, y: v, z: v }
    }

    /// The x and z coordinates, as a column position.
    pub fn xz(&self) -> (v: IVec2)
        ensures
            v == (IVec2 { x: self.x, y: self.z }),
    {
        IVec2 { x: self.x, y: self.z }
    }

    /// The coordinates as an array `[x, y, z]`.
    pub fn to_array(&self) -> (a: [i32; 3])
        ensures
            a@ == seq![self.x, self.y, self.z],
    {
        [self.x, self.y, self.z]
    }
}

impl Default for IVec3 {
    fn default() -> (v: IVec3)
        ensures
            v == (IVec3 { x: 0, y: 0, z: 0 }),
    {
        IVec3 { x: 0, y: 0, z: 0 }
    }
}

} // verus!
