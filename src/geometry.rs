//! Fixed-point vectors, poses and shapes.
use vstd::prelude::*;

verus! {

/// Number of fixed-point units in one metre, one radian or one second.
pub const SCALE: i64 = 1_000_000;

/// A vector of three fixed-point components.
#[derive(Debug, Clone, Copy, PartialEq, Eq, Structural)]
pub struct Vec3 {
    pub x: i64,
    pub y: i64,
    pub z: i64,
}

/// The squared Euclidean length of `v`, in squared fixed-point units.
pub open spec fn norm_sq(v: Vec3) -> int {
    v.x * v.x + v.y * v.y + v.z * v.z
}

/// `v` has unit length up to one fixed-point unit: its length lies in
/// `[SCALE - 1, SCALE + 1]`.
pub open spec fn is_unit(v: Vec3) -> bool {
    (SCALE - 1) * (SCALE - 1) <= norm_sq(v) <= (SCALE + 1) * (SCALE + 1)
}

proof fn lemma_square_fits(a: int)
    requires
        i64::MIN <= a <= i64::MAX,
    ensures
        0 <= a * a <= 0x4000_0000_0000_0000_0000_0000_0000_0000,
{
    assert(0 <= a * a <= 0x4000_0000_0000_0000_0000_0000_0000_0000) by (nonlinear_arith)
        requires
            -0x8000_0000_0000_0000 <= a <= 0x8000_0000_0000_0000,
    ;
}

impl Vec3 {
    /// The vector with the given components.
    pub fn new(x: i64, y: i64, z: i64) -> (r: Vec3)
        ensures
            r == (Vec3 { x, y, z }),
    {
        Vec3 { x, y, z }
    }

    /// The squared length of this vector, computed without overflow.
    pub fn norm_squared(&self) -> (r: u128)
        ensures
            r == norm_sq(*self),
    {
        proof {
            lemma_square_fits(self.x as int);
            lemma_square_fits(self.y as int);
            lemma_square_fits(self.z as int);
        }
        let x = self.x as i128;
        let y = self.y as i128;
        let z = self.z as i128;
        (x * x) as u128 + (y * y) as u128 + (z * z) as u128
    }

    /// Whether this vector has unit length up to one fixed-point unit.
    pub fn is_unit(&self) -> (r: bool)
        ensures
            r == is_unit(*self),
    {
        let n = self.norm_squared();
        let lo = (SCALE - 1) as u128;
        let hi = (SCALE + 1) as u128;
        lo * lo <= n && n <= hi * hi
    }
}

/// A placement in the world: a translation and a rotation given as an axis
/// scaled by its angle.
#[derive(Debug, Clone, Copy, PartialEq, Eq, Structural)]
pub struct Pose {
    pub translation: Vec3,
    pub rotation: Vec3,
}

/// The geometry of a body part, centred on the part's origin.
#[derive(Debug, Clone, Copy, PartialEq, Eq, Structural)]
pub enum Shape {
    /// A box with the given half extents along each axis.
    Cuboid { half_extents: Vec3 },
    /// A sphere with the given radius.
    Ball { radius: i64 },
}

} // verus!
