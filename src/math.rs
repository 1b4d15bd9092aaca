//! Vector arithmetic, projection, barycentric weights and color scaling.
use crate::fixed_point::{fx, fx_add, fx_div, fx_int, fx_mul, fx_neg, fx_sub, fx_trunc, trunc_div, Fixed};
use crate::matrix::{
    get_matrix4_rotation_x, get_matrix4_rotation_y, get_matrix4_rotation_z, get_matrix4_scale,
    get_matrix4_translation, matrix4_mul_vec4, mul_vec4, rotation_x4, rotation_y4, rotation_z4,
    scale4, translation4, Matrix4,
};
use crate::types::{Entity, EulerTrig, IntVec2, SinCos, TextureUV, Vec2, Vec3};
use crate::vector::{pixel4, vec3_of, vec4_of, Vec4};
use vstd::prelude::*;

verus! {

pub open spec fn add3(a: Vec3, b: Vec3) -> Vec3 {
    Vec3 { x: fx_add(a.x, b.x), y: fx_add(a.y, b.y), z: fx_add(a.z, b.z) }
}

pub open spec fn sub3(a: Vec3, b: Vec3) -> Vec3 {
    Vec3 { x: fx_sub(a.x, b.x), y: fx_sub(a.y, b.y), z: fx_sub(a.z, b.z) }
}

pub open spec fn mul3(a: Vec3, b: Vec3) -> Vec3 {
    Vec3 { x: fx_mul(a.x, b.x), y: fx_mul(a.y, b.y), z: fx_mul(a.z, b.z) }
}

pub open spec fn scale3(a: Vec3, s: Fixed) -> Vec3 {
    Vec3 { x: fx_mul(a.x, s), y: fx_mul(a.y, s), z: fx_mul(a.z, s) }
}

pub open spec fn div3(a: Vec3, b: Vec3) -> Vec3 {
    Vec3 { x: fx_div(a.x, b.x), y: fx_div(a.y, b.y), z: fx_div(a.z, b.z) }
}

pub open spec fn cross3(a: Vec3, b: Vec3) -> Vec3 {
    Vec3 {
        x: fx_sub(fx_mul(a.y, b.z), fx_mul(a.z, b.y)),
        y: fx_sub(fx_mul(a.z, b.x), fx_mul(a.x, b.z)),
        z: fx_sub(fx_mul(a.x, b.y), fx_mul(a.y, b.x)),
    }
}

pub open spec fn dot3(a: Vec3, b: Vec3) -> Fixed {
    fx_add(fx_add(fx_mul(a.x, b.x), fx_mul(a.y, b.y)), fx_mul(a.z, b.z))
}

pub open spec fn add2(a: Vec2, b: Vec2) -> Vec2 {
    Vec2 { x: fx_add(a.x, b.x), y: fx_add(a.y, b.y) }
}

pub open spec fn sub2(a: Vec2, b: Vec2) -> Vec2 {
    Vec2 { x: fx_sub(a.x, b.x), y: fx_sub(a.y, b.y) }
}

pub open spec fn mul2(a: Vec2, b: Vec2) -> Vec2 {
    Vec2 { x: fx_mul(a.x, b.x), y: fx_mul(a.y, b.y) }
}

pub open spec fn scale2(a: Vec2, s: Fixed) -> Vec2 {
    Vec2 { x: fx_mul(a.x, s), y: fx_mul(a.y, s) }
}

pub open spec fn div2(a: Vec2, b: Vec2) -> Vec2 {
    Vec2 { x: fx_div(a.x, b.x), y: fx_div(a.y, b.y) }
}

pub open spec fn dot2(a: Vec2, b: Vec2) -> Fixed {
    fx_add(fx_mul(a.x, b.x), fx_mul(a.y, b.y))
}

pub open spec fn is_isqrt(r: int, n: int) -> bool {
    0 <= r && r * r <= n < (r + 1) * (r + 1)
}

/// The integer square root: the largest `r` with `r * r <= n`.
pub open spec fn isqrt(n: int) -> int {
    choose|r: int| #[trigger] is_isqrt(r, n)
}

/// Square root of a non-negative fixed-point number, rounded down.
pub open spec fn fx_sqrt(a: Fixed) -> Fixed {
    Fixed { bits: isqrt(a.bits * 65536) as i64 }
}

pub open spec fn length3(a: Vec3) -> Fixed {
    fx_sqrt(dot3(a, a))
}

pub open spec fn length2(a: Vec2) -> Fixed {
    fx_sqrt(dot2(a, a))
}

/// `a` divided by its length; a zero-length vector stays as it is.
pub open spec fn normalized3(a: Vec3) -> Vec3 {
    let len = length3(a);
    if len.bits == 0 {
        a
    } else {
        Vec3 { x: fx_div(a.x, len), y: fx_div(a.y, len), z: fx_div(a.z, len) }
    }
}

proof fn lemma_square_nonneg(a: Fixed)
    ensures
        fx_mul(a, a).bits >= 0,
{
    assert(a.bits * a.bits >= 0) by (nonlinear_arith);
    assert((a.bits * a.bits) / 65536 >= 0);
}

proof fn lemma_dot3_self_nonneg(a: Vec3)
    ensures
        dot3(a, a).bits >= 0,
{
    lemma_square_nonneg(a.x);
    lemma_square_nonneg(a.y);
    lemma_square_nonneg(a.z);
}

fn sqrt_of(a: Fixed) -> (r: Fixed)
    requires
        a.bits >= 0,
    ensures
        r == fx_sqrt(a),
{
    let s = a.sqrt();
    match s {
        Some(v) => {
            proof {
                let n = a.bits * 65536;
                let w = v.bits as int;
                assert(is_isqrt(w, n));
                let c = isqrt(n);
                assert(is_isqrt(c, n));
                if c < w {
                    assert((c + 1) * (c + 1) <= w * w) by (nonlinear_arith)
                        requires
                            0 <= c < w,
                    ;
                } else if w < c {
                    assert((w + 1) * (w + 1) <= c * c) by (nonlinear_arith)
                        requires
                            0 <= w < c,
                    ;
                }
            }
            v
        },
        None => Fixed::zero(),
    }
}

pub fn vector3_length(vec: Vec3) -> (r: Fixed)
    ensures
        r == length3(vec),
{
    proof {
        lemma_dot3_self_nonneg(vec);
    }
    sqrt_of(vector3_dot(vec, vec))
}

pub fn vector2_length(vec: Vec2) -> (r: Fixed)
    ensures
        r == length2(vec),
{
    proof {
        lemma_square_nonneg(vec.x);
        lemma_square_nonneg(vec.y);
    }
    sqrt_of(vector2_dot(vec, vec))
}

pub fn vector3_add(a: Vec3, b: Vec3) -> (r: Vec3)
    ensures
        r == add3(a, b),
{
    Vec3 { x: a.x.plus(b.x), y: a.y.plus(b.y), z: a.z.plus(b.z) }
}

pub fn vector2_add(a: Vec2, b: Vec2) -> (r: Vec2)
    ensures
        r == add2(a, b),
{
    Vec2 { x: a.x.plus(b.x), y: a.y.plus(b.y) }
}

pub fn vector3_sub(a: Vec3, b: Vec3) -> (r: Vec3)
    ensures
        r == sub3(a, b),
{
    Vec3 { x: a.x.minus(b.x), y: a.y.minus(b.y), z: a.z.minus(b.z) }
}

pub fn vector2_sub(a: Vec2, b: Vec2) -> (r: Vec2)
    ensures
        r == sub2(a, b),
{
    Vec2 { x: a.x.minus(b.x), y: a.y.minus(b.y) }
}

/// Component-wise difference of two pixel coordinates.
pub fn intvector2_sub(a: IntVec2, b: IntVec2) -> (r: IntVec2)
    requires
        i32::MIN <= a.x - b.x <= i32::MAX,
        i32::MIN <= a.y - b.y <= i32::MAX,
    ensures
        r.x == a.x - b.x,
        r.y == a.y - b.y,
{
    IntVec2 { x: a.x - b.x, y: a.y - b.y }
}

pub fn vector3_mul(a: Vec3, b: Vec3) -> (r: Vec3)
    ensures
        r == mul3(a, b),
{
    Vec3 { x: a.x.times(b.x), y: a.y.times(b.y), z: a.z.times(b.z) }
}

pub fn vector3_mul_float(a: Vec3, b: Fixed) -> (r: Vec3)
    ensures
        r == scale3(a, b),
{
    Vec3 { x: a.x.times(b), y: a.y.times(b), z: a.z.times(b) }
}

pub fn vector2_mul(a: Vec2, b: Vec2) -> (r: Vec2)
    ensures
        r == mul2(a, b),
{
    Vec2 { x: a.x.times(b.x), y: a.y.times(b.y) }
}

pub fn vector2_mul_float(a: Vec2, b: Fixed) -> (r: Vec2)
    ensures
        r == scale2(a, b),
{
    Vec2 { x: a.x.times(b), y: a.y.times(b) }
}

/// Component-wise quotient; every component of `b` must be non-zero.
pub fn vector3_div(a: Vec3, b: Vec3) -> (r: Vec3)
    requires
        b.x.bits != 0 && b.y.bits != 0 && b.z.bits != 0,
    ensures
        r == div3(a, b),
{
    Vec3 { x: a.x.div_by(b.x), y: a.y.div_by(b.y), z: a.z.div_by(b.z) }
}

/// Component-wise quotient; every component of `b` must be non-zero.
pub fn vector2_div(a: Vec2, b: Vec2) -> (r: Vec2)
    requires
        b.x.bits != 0 && b.y.bits != 0,
    ensures
        r == div2(a, b),
{
    Vec2 { x: a.x.div_by(b.x), y: a.y.div_by(b.y) }
}

pub fn vector3_cross(a: Vec3, b: Vec3) -> (r: Vec3)
    ensures
        r == cross3(a, b),
{
    Vec3 {
        x: a.y.times(b.z).minus(a.z.times(b.y)),
        y: a.z.times(b.x).minus(a.x.times(b.z)),
        z: a.x.times(b.y).minus(a.y.times(b.x)),
    }
}

/// The 2D cross product `a.x * b.y - a.y * b.x` of two integer vectors.
pub open spec fn cross_int(ax: int, ay: int, bx: int, by: int) -> int {
    ax * by - ay * bx
}

pub fn vector2_cross(a: IntVec2, b: IntVec2) -> (r: Fixed)
    ensures
        r == fx(cross_int(a.x as int, a.y as int, b.x as int, b.y as int) * 65536),
{
    cross_fixed(a.x as i64, a.y as i64, b.x as i64, b.y as i64)
}

fn cross_fixed(ax: i64, ay: i64, bx: i64, by: i64) -> (r: Fixed)
    requires
        -0x1_0000_0000 <= ax <= 0x1_0000_0000,
        -0x1_0000_0000 <= ay <= 0x1_0000_0000,
        -0x1_0000_0000 <= bx <= 0x1_0000_0000,
        -0x1_0000_0000 <= by <= 0x1_0000_0000,
    ensures
        r == fx(cross_int(ax as int, ay as int, bx as int, by as int) * 65536),
{
    assert(-0x1_0000_0000_0000_0000 <= ax * by <= 0x1_0000_0000_0000_0000) by (nonlinear_arith)
        requires
            -0x1_0000_0000 <= ax <= 0x1_0000_0000,
            -0x1_0000_0000 <= by <= 0x1_0000_0000,
    ;
    assert(-0x1_0000_0000_0000_0000 <= ay * bx <= 0x1_0000_0000_0000_0000) by (nonlinear_arith)
        requires
            -0x1_0000_0000 <= ay <= 0x1_0000_0000,
            -0x1_0000_0000 <= bx <= 0x1_0000_0000,
    ;
    let c: i128 = ax as i128 * by as i128 - ay as i128 * bx as i128;
    let bits: i128 = c * 65536;
    let s: i64 = if bits < i64::MIN as i128 {
        i64::MIN
    } else if bits > i64::MAX as i128 {
        i64::MAX
    } else {
        bits as i64
    };
    Fixed::from_bits(s)
}

pub fn vector3_dot(a: Vec3, b: Vec3) -> (r: Fixed)
    ensures
        r == dot3(a, b),
{
    a.x.times(b.x).plus(a.y.times(b.y)).plus(a.z.times(b.z))
}

pub fn vector2_dot(a: Vec2, b: Vec2) -> (r: Fixed)
    ensures
        r == dot2(a, b),
{
    a.x.times(b.x).plus(a.y.times(b.y))
}

/// Scales `a` to unit length; a zero-length vector is left unchanged.
pub fn vector3_normalize(a: &mut Vec3)
    ensures
        *final(a) == normalized3(*old(a)),
{
    let length = vector3_length(*a);
    if length.bits != 0 {
        a.x = a.x.div_by(length);
        a.y = a.y.div_by(length);
        a.z = a.z.div_by(length);
    }
}

/// Barycentric weights `(alpha, beta, gamma)` of `p` against the triangle `a b c`,
/// all in pixel coordinates; `None` when the triangle has zero area.
pub open spec fn barycentric(a: IntVec2, b: IntVec2, c: IntVec2, p: IntVec2) -> Option<Vec3> {
    let area = fx(cross_int(c.x - a.x, c.y - a.y, b.x - a.x, b.y - a.y) * 65536);
    let alpha = fx_div(fx(cross_int(c.x - p.x, c.y - p.y, b.x - p.x, b.y - p.y) * 65536), area);
    let beta = fx_div(fx(cross_int(c.x - a.x, c.y - a.y, p.x - a.x, p.y - a.y) * 65536), area);
    let gamma = fx_sub(fx_sub(Fixed { bits: 65536 }, alpha), beta);
    if area.bits == 0 {
        None
    } else {
        Some(Vec3 { x: alpha, y: beta, z: gamma })
    }
}

pub fn barycentric_weights(a: IntVec2, b: IntVec2, c: IntVec2, p: IntVec2) -> (r: Option<Vec3>)
    ensures
        r == barycentric(a, b, c, p),
{
    let area = cross_fixed(
        c.x as i64 - a.x as i64,
        c.y as i64 - a.y as i64,
        b.x as i64 - a.x as i64,
        b.y as i64 - a.y as i64,
    );
    if area.bits == 0 {
        return None;
    }
    let alpha = cross_fixed(
        c.x as i64 - p.x as i64,
        c.y as i64 - p.y as i64,
        b.x as i64 - p.x as i64,
        b.y as i64 - p.y as i64,
    ).div_by(area);
    let beta = cross_fixed(
        c.x as i64 - a.x as i64,
        c.y as i64 - a.y as i64,
        p.x as i64 - a.x as i64,
        p.y as i64 - a.y as i64,
    ).div_by(area);
    let gamma = Fixed::one().minus(alpha).minus(beta);
    Some(Vec3 { x: alpha, y: beta, z: gamma })
}

/// Half of a window dimension, as a fixed-point number.
pub open spec fn half_of(n: u32) -> Fixed {
    Fixed { bits: (n as int * 32768) as i64 }
}

fn half(n: u32) -> (r: Fixed)
    ensures
        r == half_of(n),
{
    Fixed::from_bits(n as i64 * 32768)
}

/// Clip space to screen: perspective divide of `x` and `y` when `w` is non-zero,
/// scale by half the window, flip `y`, then offset by half the window.
#[verifier::opaque]
pub open spec fn project(clip: Vec4, window_height: u32, window_width: u32) -> Vec4 {
    let x0 = if clip.w.bits != 0 { fx_div(clip.x, clip.w) } else { clip.x };
    let y0 = if clip.w.bits != 0 { fx_div(clip.y, clip.w) } else { clip.y };
    let hw = half_of(window_width);
    let hh = half_of(window_height);
    Vec4 {
        x: fx_add(fx_mul(x0, hw), hw),
        y: fx_add(fx_neg(fx_mul(y0, hh)), hh),
        z: clip.z,
        w: clip.w,
    }
}

/// Projects a view-space point to screen space; `z` and `w` are kept for depth.
pub fn perspective_project_point(
    point: Vec3,
    projection_matrix: Matrix4,
    window_height: u32,
    window_width: u32,
) -> (r: Vec4)
    ensures
        r == project(mul_vec4(projection_matrix, vec4_of(point)), window_height, window_width),
{
    proof {
        reveal(project);
    }
    let normalized = matrix4_mul_vec4(projection_matrix, Vec4::from(point));
    let mut projected = normalized;
    if normalized.w.bits != 0 {
        projected.x = projected.x.div_by(normalized.w);
        projected.y = projected.y.div_by(normalized.w);
    }
    let hw = half(window_width);
    let hh = half(window_height);
    projected.x = projected.x.times(hw);
    projected.y = projected.y.times(hh);
    projected.y = projected.y.neg();
    projected.x = projected.x.plus(hw);
    projected.y = projected.y.plus(hh);
    projected
}

/// Model to view space: scale, rotate about x, y then z, translate, then apply
/// the view matrix.
#[verifier::opaque]
pub open spec fn transformed(
    vert: Vec3,
    rotation: EulerTrig,
    scale: Vec3,
    translation: Vec3,
    view_matrix: Matrix4,
) -> Vec3 {
    let v0 = mul_vec4(scale4(scale.x, scale.y, scale.z), vec4_of(vert));
    let v1 = mul_vec4(rotation_x4(rotation.x), v0);
    let v2 = mul_vec4(rotation_y4(rotation.y), v1);
    let v3 = mul_vec4(rotation_z4(rotation.z), v2);
    let v4 = mul_vec4(translation4(translation.x, translation.y, translation.z), v3);
    vec3_of(mul_vec4(view_matrix, v4))
}

pub fn transform_vertex(
    vert: Vec3,
    rotation: EulerTrig,
    scale: Vec3,
    translation: Vec3,
    view_matrix: Matrix4,
) -> (r: Vec3)
    ensures
        r == transformed(vert, rotation, scale, translation, view_matrix),
{
    proof {
        reveal(transformed);
    }
    let mut vec4 = Vec4::from(vert);
    vec4 = matrix4_mul_vec4(get_matrix4_scale(scale.x, scale.y, scale.z), vec4);
    vec4 = matrix4_mul_vec4(get_matrix4_rotation_x(rotation.x), vec4);
    vec4 = matrix4_mul_vec4(get_matrix4_rotation_y(rotation.y), vec4);
    vec4 = matrix4_mul_vec4(get_matrix4_rotation_z(rotation.z), vec4);
    vec4 = matrix4_mul_vec4(
        get_matrix4_translation(translation.x, translation.y, translation.z),
        vec4,
    );
    vec4 = matrix4_mul_vec4(view_matrix, vec4);
    Vec3::from(vec4)
}

/// `start` with `step` added `n` times.
pub open spec fn spin(start: Fixed, step: Fixed, n: nat) -> Fixed
    decreases n,
{
    if n == 0 {
        start
    } else {
        fx_add(spin(start, step, (n - 1) as nat), step)
    }
}

/// The entity's rotation after one update: the selected axis (0 for x, 1 for y,
/// 2 for z) advances by `speed * delta_time` once per mesh vertex.
pub open spec fn spun(rotation: Vec3, axis: u32, step: Fixed, n: nat) -> Vec3 {
    if axis == 0 {
        Vec3 { x: spin(rotation.x, step, n), ..rotation }
    } else if axis == 1 {
        Vec3 { y: spin(rotation.y, step, n), ..rotation }
    } else if axis == 2 {
        Vec3 { z: spin(rotation.z, step, n), ..rotation }
    } else {
        rotation
    }
}

pub fn rotate_entity(entity: &mut Entity, rotation_objects_type: u32, speed: Fixed, delta_time: Fixed)
    ensures
        final(entity).rotation == spun(
            old(entity).rotation,
            rotation_objects_type,
            fx_mul(speed, delta_time),
            old(entity).mesh.vertices@.len(),
        ),
        final(entity).mesh == old(entity).mesh,
        final(entity).scale == old(entity).scale,
        final(entity).translation == old(entity).translation,
{
    let step = speed.times(delta_time);
    let n = entity.mesh.vertices.len();
    let ghost start = entity.rotation;
    let mut i: usize = 0;
    while i < n
        invariant
            i <= n,
            n == old(entity).mesh.vertices@.len(),
            start == old(entity).rotation,
            entity.rotation == spun(start, rotation_objects_type, step, i as nat),
            entity.mesh == old(entity).mesh,
            entity.scale == old(entity).scale,
            entity.translation == old(entity).translation,
        decreases n - i,
    {
        if rotation_objects_type == 0 {
            entity.rotation.x = entity.rotation.x.plus(step);
        } else if rotation_objects_type == 1 {
            entity.rotation.y = entity.rotation.y.plus(step);
        } else if rotation_objects_type == 2 {
            entity.rotation.z = entity.rotation.z.plus(step);
        }
        i = i + 1;
    }
}

/// `dx / dy` between two pixels; `0` for a horizontal pair, whose slope is
/// undefined.
pub open spec fn inv_slope(p0: IntVec2, p1: IntVec2) -> Fixed {
    if p1.y == p0.y {
        Fixed { bits: 0 }
    } else {
        fx_div(fx_int(p1.x - p0.x), fx_int(p1.y - p0.y))
    }
}

pub fn get_inv_slope(p0: IntVec2, p1: IntVec2) -> (r: Fixed)
    ensures
        r == inv_slope(p0, p1),
{
    if p1.y == p0.y {
        return Fixed::zero();
    }
    let dx = Fixed::from_int(p1.x as i64 - p0.x as i64);
    let dy = Fixed::from_int(p1.y as i64 - p0.y as i64);
    dx.div_by(dy)
}

/// A masked channel value scaled by `factor`, truncated to an integer and
/// saturated into `u32`, as a float-to-integer cast does.
pub open spec fn scale_channel(c: u32, factor: Fixed) -> u32 {
    let t = fx_trunc(fx_mul(fx_int(c as int), factor));
    if t < 0 {
        0
    } else if t > u32::MAX {
        u32::MAX
    } else {
        t as u32
    }
}

pub open spec fn lit(color: u32, factor: Fixed) -> u32 {
    (color & 0xFF000000) | (scale_channel(color & 0x00FF0000, factor) & 0x00FF0000) | (
    scale_channel(color & 0x0000FF00, factor) & 0x0000FF00) | (scale_channel(
        color & 0x000000FF,
        factor,
    ) & 0x000000FF)
}

fn channel_times(c: u32, factor: Fixed) -> (r: u32)
    ensures
        r == scale_channel(c, factor),
{
    let t = Fixed::from_int(c as i64).times(factor).trunc();
    if t < 0 {
        0
    } else if t > u32::MAX as i64 {
        u32::MAX
    } else {
        t as u32
    }
}

/// Scales the red, green and blue channels of an ARGB color by
/// `percentage_factor`; alpha is kept.
pub fn light_apply_intensity(color: u32, percentage_factor: Fixed) -> (r: u32)
    ensures
        r == lit(color, percentage_factor),
{
    let alpha = color & 0xFF000000;
    let red_mask: u32 = 0x00FF0000;
    let green_mask: u32 = 0x0000FF00;
    let blue_mask: u32 = 0x000000FF;
    let red = channel_times(color & red_mask, percentage_factor);
    let green = channel_times(color & green_mask, percentage_factor);
    let blue = channel_times(color & blue_mask, percentage_factor);
    alpha | (red & red_mask) | (green & green_mask) | (blue & blue_mask)
}

/// The point on the edge `p0 p2` at the height of `p1`, `x` rounded toward
/// zero from `p0`.
pub open spec fn midpoint2(p0: IntVec2, p1: IntVec2, p2: IntVec2) -> IntVec2 {
    IntVec2 { x: (p0.x + trunc_div((p1.y - p0.y) * (p2.x - p0.x), p2.y - p0.y)) as i32, y: p1.y }
}

/// The point on the edge `p0 p2` at the height of `p1`.
pub fn triangle_vec2_midpoint(p0: IntVec2, p1: IntVec2, p2: IntVec2) -> (r: IntVec2)
    requires
        p0.y <= p1.y <= p2.y,
        p0.y < p2.y,
    ensures
        r.x == p0.x + trunc_div((p1.y - p0.y) * (p2.x - p0.x), p2.y - p0.y),
        r.y == p1.y,
        r == midpoint2(p0, p1, p2),
{
    let dy1 = p1.y as i64 - p0.y as i64;
    let dy2 = p2.y as i64 - p0.y as i64;
    let dx2 = p2.x as i64 - p0.x as i64;
    assert(-0x1_0000_0000_0000_0000 <= dy1 * dx2 <= 0x1_0000_0000_0000_0000) by (nonlinear_arith)
        requires
            0 <= dy1 <= 0x1_0000_0000,
            -0x1_0000_0000 <= dx2 <= 0x1_0000_0000,
    ;
    let num: i128 = dy1 as i128 * dx2 as i128;
    let q: i128 = num / dy2 as i128;
    proof {
        lemma_trunc_div_between(dy1 as int, dy2 as int, dx2 as int);
    }
    IntVec2 { x: (p0.x as i128 + q) as i32, y: p1.y }
}

/// `a * d / b` rounded toward zero lies between `0` and `d` when `0 <= a <= b`.
proof fn lemma_trunc_div_between(a: int, b: int, d: int)
    requires
        0 <= a <= b,
        b > 0,
    ensures
        d >= 0 ==> 0 <= trunc_div(a * d, b) <= d,
        d < 0 ==> d <= trunc_div(a * d, b) <= 0,
{
    if d >= 0 {
        assert(0 <= a * d <= b * d) by (nonlinear_arith)
            requires
                0 <= a <= b,
                d >= 0,
        ;
        assert((b * d) / b == d) by (nonlinear_arith)
            requires
                b > 0,
        ;
        assert((a * d) / b <= (b * d) / b) by (nonlinear_arith)
            requires
                0 <= a * d <= b * d,
                b > 0,
        ;
    } else {
        assert(0 <= a * (-d) <= b * (-d)) by (nonlinear_arith)
            requires
                0 <= a <= b,
                d < 0,
        ;
        assert((b * (-d)) / b == -d) by (nonlinear_arith)
            requires
                b > 0,
        ;
        assert((a * (-d)) / b <= (b * (-d)) / b) by (nonlinear_arith)
            requires
                0 <= a * (-d) <= b * (-d),
                b > 0,
        ;
        assert(a * d == -(a * (-d))) by (nonlinear_arith);
    }
}

/// The point on the edge `p0 p2` at the height of `p1`, with `w` interpolated
/// linearly along that edge and `z` taken from `p1`.
pub open spec fn midpoint4(p0: Vec4, p1: Vec4, p2: Vec4) -> Vec4 {
    Vec4 {
        x: fx_add(fx_div(fx_mul(fx_sub(p1.y, p0.y), fx_sub(p2.x, p0.x)), fx_sub(p2.y, p0.y)), p0.x),
        y: p1.y,
        z: p1.z,
        w: fx_add(fx_div(fx_mul(fx_sub(p1.y, p0.y), fx_sub(p2.w, p0.w)), fx_sub(p2.y, p0.y)), p0.w),
    }
}

pub fn triangle_vec4_midpoint(p0: Vec4, p1: Vec4, p2: Vec4) -> (r: Vec4)
    requires
        fx_sub(p2.y, p0.y).bits != 0,
    ensures
        r == midpoint4(p0, p1, p2),
{
    let dy = p2.y.minus(p0.y);
    Vec4 {
        x: p1.y.minus(p0.y).times(p2.x.minus(p0.x)).div_by(dy).plus(p0.x),
        y: p1.y,
        z: p1.z,
        w: p1.y.minus(p0.y).times(p2.w.minus(p0.w)).div_by(dy).plus(p0.w),
    }
}

/// Perspective-correct interpolation of three texture coordinates with the
/// barycentric weights `wt`: each attribute divided by its corner's `w`, weighted,
/// then divided by the weighted sum of `1 / w`. `None` when a `w` or that sum is
/// zero.
pub open spec fn perspective_uv(
    wt: Vec3,
    p0: Vec4,
    p1: Vec4,
    p2: Vec4,
    uv0: TextureUV,
    uv1: TextureUV,
    uv2: TextureUV,
) -> Option<TextureUV> {
    if p0.w.bits == 0 || p1.w.bits == 0 || p2.w.bits == 0 {
        None
    } else {
        let rw = reciprocal_w(wt, p0, p1, p2);
        let u = fx_add(
            fx_add(fx_mul(fx_div(uv0.u, p0.w), wt.x), fx_mul(fx_div(uv1.u, p1.w), wt.y)),
            fx_mul(fx_div(uv2.u, p2.w), wt.z),
        );
        let v = fx_add(
            fx_add(fx_mul(fx_div(uv0.v, p0.w), wt.x), fx_mul(fx_div(uv1.v, p1.w), wt.y)),
            fx_mul(fx_div(uv2.v, p2.w), wt.z),
        );
        if rw.bits == 0 {
            None
        } else {
            Some(TextureUV { u: fx_div(u, rw), v: fx_div(v, rw) })
        }
    }
}

/// The weighted sum of `1 / w` over the three corners.
pub open spec fn reciprocal_w(wt: Vec3, p0: Vec4, p1: Vec4, p2: Vec4) -> Fixed {
    let one = Fixed { bits: 65536 };
    fx_add(
        fx_add(fx_mul(fx_div(one, p0.w), wt.x), fx_mul(fx_div(one, p1.w), wt.y)),
        fx_mul(fx_div(one, p2.w), wt.z),
    )
}

pub fn interpolate_reciprocal_w(wt: Vec3, p0: Vec4, p1: Vec4, p2: Vec4) -> (r: Fixed)
    requires
        p0.w.bits != 0 && p1.w.bits != 0 && p2.w.bits != 0,
    ensures
        r == reciprocal_w(wt, p0, p1, p2),
{
    let one = Fixed::one();
    one.div_by(p0.w).times(wt.x).plus(one.div_by(p1.w).times(wt.y)).plus(
        one.div_by(p2.w).times(wt.z),
    )
}

pub fn interpolate_uv(
    wt: Vec3,
    p0: Vec4,
    p1: Vec4,
    p2: Vec4,
    uv0: TextureUV,
    uv1: TextureUV,
    uv2: TextureUV,
) -> (r: Option<TextureUV>)
    ensures
        r == perspective_uv(wt, p0, p1, p2, uv0, uv1, uv2),
{
    if p0.w.bits == 0 || p1.w.bits == 0 || p2.w.bits == 0 {
        return None;
    }
    let rw = interpolate_reciprocal_w(wt, p0, p1, p2);
    let u = uv0.u.div_by(p0.w).times(wt.x).plus(uv1.u.div_by(p1.w).times(wt.y)).plus(
        uv2.u.div_by(p2.w).times(wt.z),
    );
    let v = uv0.v.div_by(p0.w).times(wt.x).plus(uv1.v.div_by(p1.w).times(wt.y)).plus(
        uv2.v.div_by(p2.w).times(wt.z),
    );
    if rw.bits == 0 {
        return None;
    }
    Some(TextureUV { u: u.div_by(rw), v: v.div_by(rw) })
}

/// The texture coordinate at the split point of a triangle sorted by `y`
/// (`p0` on top), interpolated with perspective correction; `None` when the
/// triangle is degenerate in pixels or a divisor is zero.
pub open spec fn midpoint_uv(
    p0: Vec4,
    p1: Vec4,
    p2: Vec4,
    uv0: TextureUV,
    uv1: TextureUV,
    uv2: TextureUV,
) -> Option<TextureUV> {
    let mid = midpoint4(p0, p1, p2);
    match barycentric(pixel4(p0), pixel4(p1), pixel4(p2), pixel4(mid)) {
        Some(wt) => perspective_uv(wt, p0, p1, p2, uv0, uv1, uv2),
        None => None,
    }
}

pub fn triangle_midpoint_uv(
    p0: Vec4,
    p1: Vec4,
    p2: Vec4,
    uv0: TextureUV,
    uv1: TextureUV,
    uv2: TextureUV,
) -> (r: Option<TextureUV>)
    requires
        fx_sub(p2.y, p0.y).bits != 0,
    ensures
        r == midpoint_uv(p0, p1, p2, uv0, uv1, uv2),
{
    let mid_point = triangle_vec4_midpoint(p0, p1, p2);
    let weights = barycentric_weights(
        IntVec2::from(p0),
        IntVec2::from(p1),
        IntVec2::from(p2),
        IntVec2::from(mid_point),
    );
    match weights {
        Some(wt) => interpolate_uv(wt, p0, p1, p2, uv0, uv1, uv2),
        None => None,
    }
}

pub open spec fn rotated_x(v: Vec3, a: SinCos) -> Vec3 {
    Vec3 {
        x: v.x,
        y: fx_sub(fx_mul(v.y, a.cos), fx_mul(v.z, a.sin)),
        z: fx_add(fx_mul(v.y, a.sin), fx_mul(v.z, a.cos)),
    }
}

pub open spec fn rotated_y(v: Vec3, a: SinCos) -> Vec3 {
    Vec3 {
        x: fx_sub(fx_mul(v.x, a.cos), fx_mul(v.z, a.sin)),
        y: v.y,
        z: fx_add(fx_mul(v.x, a.sin), fx_mul(v.z, a.cos)),
    }
}

pub open spec fn rotated_z(v: Vec3, a: SinCos) -> Vec3 {
    Vec3 {
        x: fx_sub(fx_mul(v.x, a.cos), fx_mul(v.y, a.sin)),
        y: fx_add(fx_mul(v.x, a.sin), fx_mul(v.y, a.cos)),
        z: v.z,
    }
}

pub fn rotate_vec3_x(vec: Vec3, angle: SinCos) -> (r: Vec3)
    ensures
        r == rotated_x(vec, angle),
{
    Vec3 {
        x: vec.x,
        y: vec.y.times(angle.cos).minus(vec.z.times(angle.sin)),
        z: vec.y.times(angle.sin).plus(vec.z.times(angle.cos)),
    }
}

pub fn rotate_vec3_y(vec: Vec3, angle: SinCos) -> (r: Vec3)
    ensures
        r == rotated_y(vec, angle),
{
    Vec3 {
        x: vec.x.times(angle.cos).minus(vec.z.times(angle.sin)),
        y: vec.y,
        z: vec.x.times(angle.sin).plus(vec.z.times(angle.cos)),
    }
}

pub fn rotate_vec3_z(vec: Vec3, angle: SinCos) -> (r: Vec3)
    ensures
        r == rotated_z(vec, angle),
{
    Vec3 {
        x: vec.x.times(angle.cos).minus(vec.y.times(angle.sin)),
        y: vec.x.times(angle.sin).plus(vec.y.times(angle.cos)),
        z: vec.z,
    }
}

/// The centroid of three points: their sum from zero, divided by three.
pub open spec fn centroid(a: Vec3, b: Vec3, c: Vec3) -> Vec3 {
    let three = Fixed { bits: 196608 };
    div3(
        add3(add3(add3(Vec3 { x: Fixed { bits: 0 }, y: Fixed { bits: 0 }, z: Fixed { bits: 0 } }, a), b), c),
        Vec3 { x: three, y: three, z: three },
    )
}

pub fn triangle_avg(vec1: Vec3, vec2: Vec3, vec3: Vec3) -> (r: Vec3)
    ensures
        r == centroid(vec1, vec2, vec3),
{
    let mut res = Vec3::default();
    res = vector3_add(res, vec1);
    res = vector3_add(res, vec2);
    res = vector3_add(res, vec3);
    let three = Fixed::from_bits(3 * 65536);
    vector3_div(res, Vec3 { x: three, y: three, z: three })
}

/// Screen space back to clip space: undo the offset, the `y` flip and the scale
/// by half the window, then multiply the normalized coordinates by `w`.
pub open spec fn unproject(screen: Vec4, window_height: u32, window_width: u32) -> Vec2 {
    let hw = half_of(window_width);
    let hh = half_of(window_height);
    Vec2 {
        x: fx_mul(fx_div(fx_sub(screen.x, hw), hw), screen.w),
        y: fx_mul(fx_div(fx_sub(hh, screen.y), hh), screen.w),
    }
}

/// The clip-space `x` and `y` of a projected point, from its screen position
/// and its `w`.
pub fn unproject_point(screen: Vec4, window_height: u32, window_width: u32) -> (r: Vec2)
    requires
        window_height > 0,
        window_width > 0,
    ensures
        r == unproject(screen, window_height, window_width),
{
    let hw = half(window_width);
    let hh = half(window_height);
    Vec2 {
        x: screen.x.minus(hw).div_by(hw).times(screen.w),
        y: hh.minus(screen.y).div_by(hh).times(screen.w),
    }
}

/// Scaling by `h / 65536` rounded down, then dividing by it rounded toward
/// zero, loses at most two units.
proof fn lemma_scale_and_back(n: int, h: int)
    requires
        h >= 32768,
    ensures
        n - 2 <= trunc_div(((n * h) / 65536) * 65536, h) <= n,
{
    let m = (n * h) / 65536;
    let b = trunc_div(m * 65536, h);
    assert(m * 65536 <= n * h < m * 65536 + 65536) by (nonlinear_arith)
        requires
            m == (n * h) / 65536,
    ;
    if m * 65536 >= 0 {
        assert(b == (m * 65536) / h);
        assert(b * h <= m * 65536 < b * h + h) by (nonlinear_arith)
            requires
                b == (m * 65536) / h,
                h > 0,
        ;
        assert(b <= n) by (nonlinear_arith)
            requires
                b * h <= n * h,
                h > 0,
        ;
        assert(b >= n - 2) by (nonlinear_arith)
            requires
                n * h < b * h + h + 65536,
                h >= 32768,
        ;
    } else {
        let q = (-(m * 65536)) / h;
        assert(b == -q);
        assert(q * h <= -(m * 65536) < q * h + h) by (nonlinear_arith)
            requires
                q == (-(m * 65536)) / h,
                h > 0,
        ;
        assert(b * h == -(q * h)) by (nonlinear_arith)
            requires
                b == -q,
        ;
        assert(b <= n) by (nonlinear_arith)
            requires
                b * h < n * h + h,
                h > 0,
        ;
        assert(b >= n - 2) by (nonlinear_arith)
            requires
                b * h >= m * 65536,
                m * 65536 > n * h - 65536,
                h >= 32768,
        ;
    }
}

/// Dividing by `w` rounded toward zero, then multiplying back rounded down,
/// moves a value by at most `w / 65536 + 1` units; multiplying the quotient
/// moved by up to two units back moves it by `3 w / 65536 + 2` at most.
proof fn lemma_divide_and_back(x: int, w: int, d: int)
    requires
        w > 0,
        0 <= d <= 2,
    ensures
        ({
            let q = trunc_div(x * 65536, w) - d;
            let back = (q * w) / 65536;
            &&& 65536 * (back - x) <= 3 * w + 131072
            &&& 65536 * (x - back) <= 3 * w + 131072
        }),
{
    let t = trunc_div(x * 65536, w);
    let q = t - d;
    let back = (q * w) / 65536;
    assert(back * 65536 <= q * w < back * 65536 + 65536) by (nonlinear_arith)
        requires
            back == (q * w) / 65536,
    ;
    if x >= 0 {
        assert(t == (x * 65536) / w);
        assert(t * w <= x * 65536 < t * w + w) by (nonlinear_arith)
            requires
                t == (x * 65536) / w,
                w > 0,
        ;
    } else {
        let u = (-(x * 65536)) / w;
        assert(t == -u);
        assert(u * w <= -(x * 65536) < u * w + w) by (nonlinear_arith)
            requires
                u == (-(x * 65536)) / w,
                w > 0,
        ;
        assert(t * w >= x * 65536 > t * w - w) by (nonlinear_arith)
            requires
                t == -u,
                u * w <= -(x * 65536) < u * w + w,
        ;
    }
    assert(q * w == t * w - d * w) by (nonlinear_arith)
        requires
            q == t - d,
    ;
    assert(0 <= d * w <= 2 * w) by (nonlinear_arith)
        requires
            0 <= d <= 2,
            w > 0,
    ;
}

/// Projecting a point in front of the camera to the screen and mapping it back
/// with its `w` recovers its clip-space `x` and `y` to within
/// `(3 w + 2) / 65536`, the rounding of the fixed-point steps. The bounds keep
/// every step clear of saturation.
pub proof fn lemma_project_round_trip(clip: Vec4, window_height: u32, window_width: u32)
    requires
        0 < window_width <= 0x10_0000,
        0 < window_height <= 0x10_0000,
        0 < clip.w.bits <= 0x100_0000_0000,
        -0x100_0000_0000 <= clip.x.bits <= 0x100_0000_0000,
        -0x100_0000_0000 <= clip.y.bits <= 0x100_0000_0000,
        -0x100_0000_0000 * clip.w.bits <= clip.x.bits * 65536 <= 0x100_0000_0000 * clip.w.bits,
        -0x100_0000_0000 * clip.w.bits <= clip.y.bits * 65536 <= 0x100_0000_0000 * clip.w.bits,
    ensures
        ({
            let back = unproject(project(clip, window_height, window_width), window_height, window_width);
            &&& 65536 * (back.x.bits - clip.x.bits) <= 3 * clip.w.bits + 131072
            &&& 65536 * (clip.x.bits - back.x.bits) <= 3 * clip.w.bits + 131072
            &&& 65536 * (back.y.bits - clip.y.bits) <= 3 * clip.w.bits + 131072
            &&& 65536 * (clip.y.bits - back.y.bits) <= 3 * clip.w.bits + 131072
        }),
{
    reveal(project);
    let w = clip.w.bits as int;
    lemma_axis_round_trip(clip.x.bits as int, w, window_width as int * 32768, false);
    lemma_axis_round_trip(clip.y.bits as int, w, window_height as int * 32768, true);
}

proof fn lemma_trunc_div_bound(a: int, b: int, c: int)
    requires
        b > 0,
        c >= 0,
        -c * b <= a <= c * b,
    ensures
        -c <= trunc_div(a, b) <= c,
{
    if a >= 0 {
        assert((a / b) <= c) by (nonlinear_arith)
            requires
                0 <= a <= c * b,
                b > 0,
        ;
    } else {
        assert((-c) * b == -(c * b)) by (nonlinear_arith);
        assert(((-a) / b) <= c) by (nonlinear_arith)
            requires
                0 < -a <= c * b,
                b > 0,
        ;
    }
}

proof fn lemma_axis_round_trip(x: int, w: int, h: int, flip: bool)
    requires
        0 < w <= 0x100_0000_0000,
        32768 <= h <= 0x8_0000_0000,
        -0x100_0000_0000 * w <= x * 65536 <= 0x100_0000_0000 * w,
        -0x100_0000_0000 <= x <= 0x100_0000_0000,
    ensures
        ({
            let xf = Fixed { bits: x as i64 };
            let wf = Fixed { bits: w as i64 };
            let hf = Fixed { bits: h as i64 };
            let ndc = fx_div(xf, wf);
            let screen = if flip { fx_add(fx_neg(fx_mul(ndc, hf)), hf) } else { fx_add(fx_mul(ndc, hf), hf) };
            let back_ndc = if flip { fx_div(fx_sub(hf, screen), hf) } else { fx_div(fx_sub(screen, hf), hf) };
            let back = fx_mul(back_ndc, wf).bits;
            &&& 65536 * (back - x) <= 3 * w + 131072
            &&& 65536 * (x - back) <= 3 * w + 131072
        }),
{
    let n = trunc_div(x * 65536, w);
    lemma_trunc_div_bound(x * 65536, w, 0x100_0000_0000);
    assert(-0x100_0000_0000 <= n <= 0x100_0000_0000);
    let m = (n * h) / 65536;
    assert(-(0x100_0000_0000 * 0x8_0000_0000) <= n * h <= 0x100_0000_0000 * 0x8_0000_0000) by (nonlinear_arith)
        requires
            -0x100_0000_0000 <= n <= 0x100_0000_0000,
            32768 <= h <= 0x8_0000_0000,
    ;
    assert(-0x800_0000_0000_0000 <= m <= 0x800_0000_0000_0000);
    lemma_scale_and_back(n, h);
    let b = trunc_div(m * 65536, h);
    assert(n - 2 <= b <= n);
    lemma_divide_and_back(x, w, n - b);
}

} // verus!
