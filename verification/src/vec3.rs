//! Fixed-point scalars and three-component vectors.

use vstd::prelude::*;
use vstd::std_specs::ops::{AddSpecImpl, MulSpecImpl, SubSpecImpl};

verus! {

/// One whole grid unit. A scalar `v` stands for the number `v / UNIT`.
pub const UNIT: i64 = 1_000_000;

/// Division that rounds toward zero, for a positive divisor.
pub open spec fn trunc_div(a: int, b: int) -> int {
    if a >= 0 {
        a / b
    } else {
        -((-a) / b)
    }
}

/// The fixed-point product of two scalars, rounded toward zero.
pub open spec fn scale_by(v: int, factor: int) -> int {
    trunc_div(v * factor, UNIT as int)
}

/// Whether a mathematical integer is representable as a scalar.
pub open spec fn fits(v: int) -> bool {
    i64::MIN <= v <= i64::MAX
}

/// Multiplies two scalars as fixed-point numbers.
pub fn mul_scalar(v: i64, factor: i64) -> (r: i64)
    requires
        fits(scale_by(v as int, factor as int)),
    ensures
        r == scale_by(v as int, factor as int),
{
    assert(-0x4000_0000_0000_0000_0000_0000_0000_0000 <= (v as int) * (factor as int)
        <= 0x4000_0000_0000_0000_0000_0000_0000_0000) by (nonlinear_arith)
        requires
            -0x8000_0000_0000_0000 <= v as int <= 0x8000_0000_0000_0000,
            -0x8000_0000_0000_0000 <= factor as int <= 0x8000_0000_0000_0000,
    ;
    let wide: i128 = (v as i128) * (factor as i128);
    let q: i128 = wide / (UNIT as i128);
    q as i64
}

/// A point or displacement in space, one scalar per axis.
#[derive(Clone, Copy, Debug, PartialEq, Eq, Structural)]
pub struct Vec3 {
    pub x: i64,
    pub y: i64,
    pub z: i64,
}

impl Vec3 {
    /// The vector whose three components all equal `v`.
    pub fn uniform(v: i64) -> (r: Vec3)
        ensures
            r == (Vec3 { x: v, y: v, z: v }),
    {
        Vec3 { x: v, y: v, z: v }
    }

    /// Component-wise sum as mathematical integers.
    pub open spec fn plus(self, rhs: Vec3) -> (int, int, int) {
        (self.x + rhs.x, self.y + rhs.y, self.z + rhs.z)
    }

    /// Component-wise difference as mathematical integers.
    pub open spec fn minus(self, rhs: Vec3) -> (int, int, int) {
        (self.x - rhs.x, self.y - rhs.y, self.z - rhs.z)
    }

    /// Every component multiplied by the fixed-point scalar `factor`.
    pub open spec fn scaled(self, factor: i64) -> (int, int, int) {
        (
            scale_by(self.x as int, factor as int),
            scale_by(self.y as int, factor as int),
            scale_by(self.z as int, factor as int),
        )
    }
}

/// Whether all three components are representable.
pub open spec fn fits3(v: (int, int, int)) -> bool {
    fits(v.0) && fits(v.1) && fits(v.2)
}

/// The vector with the given representable components.
pub open spec fn vec3_of(v: (int, int, int)) -> Vec3 {
    Vec3 { x: v.0 as i64, y: v.1 as i64, z: v.2 as i64 }
}

impl core::ops::Add for Vec3 {
    type Output = Vec3;

    fn add(self, rhs: Vec3) -> (r: Vec3) {
        Vec3 { x: self.x + rhs.x, y: self.y + rhs.y, z: self.z + rhs.z }
    }
}

impl AddSpecImpl for Vec3 {
    open spec fn obeys_add_spec() -> bool {
        true
    }

    open spec fn add_req(self, rhs: Vec3) -> bool {
        fits3(self.plus(rhs))
    }

    open spec fn add_spec(self, rhs: Vec3) -> Vec3 {
        vec3_of(self.plus(rhs))
    }
}

impl core::ops::Sub for Vec3 {
    type Output = Vec3;

    fn sub(self, rhs: Vec3) -> (r: Vec3) {
        Vec3 { x: self.x - rhs.x, y: self.y - rhs.y, z: self.z - rhs.z }
    }
}

impl SubSpecImpl for Vec3 {
    open spec fn obeys_sub_spec() -> bool {
        true
    }

    open spec fn sub_req(self, rhs: Vec3) -> bool {
        fits3(self.minus(rhs))
    }

    open spec fn sub_spec(self, rhs: Vec3) -> Vec3 {
        vec3_of(self.minus(rhs))
    }
}

impl core::ops::Mul<i64> for Vec3 {
    type Output = Vec3;

    fn mul(self, rhs: i64) -> (r: Vec3) {
        Vec3 {
            x: mul_scalar(self.x, rhs),
            y: mul_scalar(self.y, rhs),
            z: mul_scalar(self.z, rhs),
        }
    }
}

impl MulSpecImpl<i64> for Vec3 {
    open spec fn obeys_mul_spec() -> bool {
        true
    }

    open spec fn mul_req(self, rhs: i64) -> bool {
        fits3(self.scaled(rhs))
    }

    open spec fn mul_spec(self, rhs: i64) -> Vec3 {
        vec3_of(self.scaled(rhs))
    }
}

impl core::ops::Mul<Vec3> for i64 {
    type Output = Vec3;

    fn mul(self, rhs: Vec3) -> (r: Vec3) {
        rhs * self
    }
}

impl MulSpecImpl<Vec3> for i64 {
    open spec fn obeys_mul_spec() -> bool {
        true
    }

    open spec fn mul_req(self, rhs: Vec3) -> bool {
        fits3(rhs.scaled(self))
    }

    open spec fn mul_spec(self, rhs: Vec3) -> Vec3 {
        vec3_of(rhs.scaled(self))
    }
}

} // verus!
