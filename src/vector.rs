//! Homogeneous points and their conversions.
use crate::fixed_point::{fx_trunc, Fixed};
use crate::types::{fixed_to_pixel, pixel_of, IntVec2, Vec2, Vec3};
use vstd::prelude::*;

verus! {

/// A homogeneous point; `w` carries the perspective divisor.
#[derive(Clone, Copy, Debug, PartialEq, Eq, Structural)]
pub struct Vec4 {
    pub x: Fixed,
    pub y: Fixed,
    pub z: Fixed,
    pub w: Fixed,
}

/// A homogeneous point in the sub-pixel rasterizer's number format.
pub type FixedVec4 = Vec4;

/// The fixed-point value of an integer, exactly (no saturation for these sizes).
pub open spec fn fixed_of_int(n: int) -> Fixed {
    Fixed { bits: (n * 65536) as i64 }
}

/// `x` and `y` truncated toward zero to whole numbers; `z` and `w` kept.
pub open spec fn trunk4(v: Vec4) -> Vec4 {
    Vec4 { x: fixed_of_int(fx_trunc(v.x)), y: fixed_of_int(fx_trunc(v.y)), z: v.z, w: v.w }
}

pub fn vector4_trunk(from: Vec4) -> (r: Vec4)
    ensures
        r == trunk4(from),
{
    let tx = from.x.trunc();
    let ty = from.y.trunc();
    Vec4 {
        x: Fixed::from_bits(tx * 65536),
        y: Fixed::from_bits(ty * 65536),
        z: from.z,
        w: from.w,
    }
}

/// A point as a homogeneous point with `w = 1`.
pub open spec fn vec4_of(v: Vec3) -> Vec4 {
    Vec4 { x: v.x, y: v.y, z: v.z, w: Fixed { bits: 65536 } }
}

impl From<Vec3> for Vec4 {
    fn from(v: Vec3) -> (r: Vec4) {
        Vec4 { x: v.x, y: v.y, z: v.z, w: Fixed::one() }
    }
}

impl vstd::std_specs::convert::FromSpecImpl<Vec3> for Vec4 {
    open spec fn obeys_from_spec() -> bool {
        true
    }

    open spec fn from_spec(v: Vec3) -> Vec4 {
        vec4_of(v)
    }
}

pub open spec fn vec3_of(v: Vec4) -> Vec3 {
    Vec3 { x: v.x, y: v.y, z: v.z }
}

impl From<Vec4> for Vec3 {
    fn from(v: Vec4) -> (r: Vec3) {
        Vec3 { x: v.x, y: v.y, z: v.z }
    }
}

impl vstd::std_specs::convert::FromSpecImpl<Vec4> for Vec3 {
    open spec fn obeys_from_spec() -> bool {
        true
    }

    open spec fn from_spec(v: Vec4) -> Vec3 {
        vec3_of(v)
    }
}

impl From<Vec4> for Vec2 {
    fn from(v: Vec4) -> (r: Vec2) {
        Vec2 { x: v.x, y: v.y }
    }
}

impl vstd::std_specs::convert::FromSpecImpl<Vec4> for Vec2 {
    open spec fn obeys_from_spec() -> bool {
        true
    }

    open spec fn from_spec(v: Vec4) -> Vec2 {
        Vec2 { x: v.x, y: v.y }
    }
}

/// The pixel that a projected point falls in.
pub open spec fn pixel4(v: Vec4) -> IntVec2 {
    IntVec2 { x: pixel_of(v.x), y: pixel_of(v.y) }
}

impl From<Vec4> for IntVec2 {
    fn from(v: Vec4) -> (r: IntVec2) {
        IntVec2 { x: fixed_to_pixel(v.x), y: fixed_to_pixel(v.y) }
    }
}

impl vstd::std_specs::convert::FromSpecImpl<Vec4> for IntVec2 {
    open spec fn obeys_from_spec() -> bool {
        true
    }

    open spec fn from_spec(v: Vec4) -> IntVec2 {
        pixel4(v)
    }
}

} // verus!
