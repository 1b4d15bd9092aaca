//! 4x4 matrices acting on column vectors (`M * v`).
use crate::fixed_point::{fx_add, fx_div, fx_mul, fx_neg, fx_sub, Fixed};
use crate::math::{
    add3, cross3, dot3, normalized3, sub3, vector3_add, vector3_cross, vector3_dot,
    vector3_normalize, vector3_sub,
};
use crate::types::{vec3_zero, Camera, SinCos, Vec3};
use crate::vector::{vec3_of, vec4_of, Vec4};
use vstd::prelude::*;

verus! {

#[derive(Clone, Copy, Debug)]
pub struct Matrix4 {
    pub m: [[Fixed; 4]; 4],
}

pub open spec fn zero() -> Fixed {
    Fixed { bits: 0 }
}

pub open spec fn one() -> Fixed {
    Fixed { bits: 65536 }
}

pub open spec fn mat(
    r0: [Fixed; 4],
    r1: [Fixed; 4],
    r2: [Fixed; 4],
    r3: [Fixed; 4],
) -> Matrix4 {
    Matrix4 { m: [r0, r1, r2, r3] }
}

pub open spec fn identity4() -> Matrix4 {
    mat(
        [one(), zero(), zero(), zero()],
        [zero(), one(), zero(), zero()],
        [zero(), zero(), one(), zero()],
        [zero(), zero(), zero(), one()],
    )
}

pub open spec fn scale4(sx: Fixed, sy: Fixed, sz: Fixed) -> Matrix4 {
    mat(
        [sx, zero(), zero(), zero()],
        [zero(), sy, zero(), zero()],
        [zero(), zero(), sz, zero()],
        [zero(), zero(), zero(), one()],
    )
}

pub open spec fn translation4(tx: Fixed, ty: Fixed, tz: Fixed) -> Matrix4 {
    mat(
        [one(), zero(), zero(), tx],
        [zero(), one(), zero(), ty],
        [zero(), zero(), one(), tz],
        [zero(), zero(), zero(), one()],
    )
}

pub open spec fn rotation_x4(a: SinCos) -> Matrix4 {
    mat(
        [one(), zero(), zero(), zero()],
        [zero(), a.cos, fx_neg(a.sin), zero()],
        [zero(), a.sin, a.cos, zero()],
        [zero(), zero(), zero(), one()],
    )
}

pub open spec fn rotation_y4(a: SinCos) -> Matrix4 {
    mat(
        [a.cos, zero(), a.sin, zero()],
        [zero(), one(), zero(), zero()],
        [fx_neg(a.sin), zero(), a.cos, zero()],
        [zero(), zero(), zero(), one()],
    )
}

pub open spec fn rotation_z4(a: SinCos) -> Matrix4 {
    mat(
        [a.cos, fx_neg(a.sin), zero(), zero()],
        [a.sin, a.cos, zero(), zero()],
        [zero(), zero(), one(), zero()],
        [zero(), zero(), zero(), one()],
    )
}

/// `r[0]*x + r[1]*y + r[2]*z + r[3]*w`, summed left to right.
pub open spec fn row_dot(r: [Fixed; 4], v: Vec4) -> Fixed {
    fx_add(
        fx_add(fx_add(fx_mul(r[0], v.x), fx_mul(r[1], v.y)), fx_mul(r[2], v.z)),
        fx_mul(r[3], v.w),
    )
}

/// `M * v`.
pub open spec fn mul_vec4(a: Matrix4, v: Vec4) -> Vec4 {
    Vec4 {
        x: row_dot(a.m[0], v),
        y: row_dot(a.m[1], v),
        z: row_dot(a.m[2], v),
        w: row_dot(a.m[3], v),
    }
}

/// Entry `(i, j)` of `a * b`: the sum over `k` of `a[i][k] * b[k][j]`, from zero.
pub open spec fn product_entry(a: Matrix4, b: Matrix4, i: int, j: int) -> Fixed {
    fx_add(
        fx_add(
            fx_add(
                fx_add(zero(), fx_mul(a.m[i][0], b.m[0][j])),
                fx_mul(a.m[i][1], b.m[1][j]),
            ),
            fx_mul(a.m[i][2], b.m[2][j]),
        ),
        fx_mul(a.m[i][3], b.m[3][j]),
    )
}

#[allow(dead_code)]
pub fn get_matrix4_identity() -> (r: Matrix4)
    ensures
        r == identity4(),
{
    let o = Fixed::one();
    let z = Fixed::zero();
    Matrix4 { m: [[o, z, z, z], [z, o, z, z], [z, z, o, z], [z, z, z, o]] }
}

pub fn get_matrix4_scale(sx: Fixed, sy: Fixed, sz: Fixed) -> (r: Matrix4)
    ensures
        r == scale4(sx, sy, sz),
{
    let o = Fixed::one();
    let z = Fixed::zero();
    Matrix4 { m: [[sx, z, z, z], [z, sy, z, z], [z, z, sz, z], [z, z, z, o]] }
}

pub fn get_matrix4_translation(tx: Fixed, ty: Fixed, tz: Fixed) -> (r: Matrix4)
    ensures
        r == translation4(tx, ty, tz),
{
    let o = Fixed::one();
    let z = Fixed::zero();
    Matrix4 { m: [[o, z, z, tx], [z, o, z, ty], [z, z, o, tz], [z, z, z, o]] }
}

/// Rotation about the x axis by the angle whose sine and cosine are given.
pub fn get_matrix4_rotation_x(angle: SinCos) -> (r: Matrix4)
    ensures
        r == rotation_x4(angle),
{
    let o = Fixed::one();
    let z = Fixed::zero();
    let c = angle.cos;
    let s = angle.sin;
    Matrix4 { m: [[o, z, z, z], [z, c, s.neg(), z], [z, s, c, z], [z, z, z, o]] }
}

/// Rotation about the y axis by the angle whose sine and cosine are given.
pub fn get_matrix4_rotation_y(angle: SinCos) -> (r: Matrix4)
    ensures
        r == rotation_y4(angle),
{
    let o = Fixed::one();
    let z = Fixed::zero();
    let c = angle.cos;
    let s = angle.sin;
    Matrix4 { m: [[c, z, s, z], [z, o, z, z], [s.neg(), z, c, z], [z, z, z, o]] }
}

/// Rotation about the z axis by the angle whose sine and cosine are given.
pub fn get_matrix4_rotation_z(angle: SinCos) -> (r: Matrix4)
    ensures
        r == rotation_z4(angle),
{
    let o = Fixed::one();
    let z = Fixed::zero();
    let c = angle.cos;
    let s = angle.sin;
    Matrix4 { m: [[c, s.neg(), z, z], [s, c, z, z], [z, z, o, z], [z, z, z, o]] }
}

fn product_at(a: &Matrix4, b: &Matrix4, i: usize, j: usize) -> (r: Fixed)
    requires
        i < 4,
        j < 4,
    ensures
        r == product_entry(*a, *b, i as int, j as int),
{
    let mut acc = Fixed::zero();
    acc = acc.plus(a.m[i][0].times(b.m[0][j]));
    acc = acc.plus(a.m[i][1].times(b.m[1][j]));
    acc = acc.plus(a.m[i][2].times(b.m[2][j]));
    acc = acc.plus(a.m[i][3].times(b.m[3][j]));
    acc
}

fn product_row(a: &Matrix4, b: &Matrix4, i: usize) -> (r: [Fixed; 4])
    requires
        i < 4,
    ensures
        forall|j: int| 0 <= j < 4 ==> r[j] == product_entry(*a, *b, i as int, j),
{
    [product_at(a, b, i, 0), product_at(a, b, i, 1), product_at(a, b, i, 2), product_at(a, b, i, 3)]
}

/// The product `matrix1 * matrix2`.
#[allow(dead_code)]
pub fn matrix4_mul_matrix4(matrix1: Matrix4, matrix2: Matrix4) -> (r: Matrix4)
    ensures
        forall|i: int, j: int|
            0 <= i < 4 && 0 <= j < 4 ==> r.m[i][j] == product_entry(matrix1, matrix2, i, j),
{
    Matrix4 {
        m: [
            product_row(&matrix1, &matrix2, 0),
            product_row(&matrix1, &matrix2, 1),
            product_row(&matrix1, &matrix2, 2),
            product_row(&matrix1, &matrix2, 3),
        ],
    }
}

fn row_times(r: &[Fixed; 4], v: &Vec4) -> (res: Fixed)
    ensures
        res == row_dot(*r, *v),
{
    r[0].times(v.x).plus(r[1].times(v.y)).plus(r[2].times(v.z)).plus(r[3].times(v.w))
}

/// `matrix * vec`.
pub fn matrix4_mul_vec4(matrix: Matrix4, vec: Vec4) -> (r: Vec4)
    ensures
        r == mul_vec4(matrix, vec),
{
    Vec4 {
        x: row_times(&matrix.m[0], &vec),
        y: row_times(&matrix.m[1], &vec),
        z: row_times(&matrix.m[2], &vec),
        w: row_times(&matrix.m[3], &vec),
    }
}

/// The view matrix of a camera at `eye` looking at `target`, with `up` as the
/// approximate up direction.
#[verifier::opaque]
pub open spec fn look_at(eye: Vec3, target: Vec3, up: Vec3) -> Matrix4 {
    let z = normalized3(sub3(target, eye));
    let x = normalized3(cross3(up, z));
    let y = cross3(z, x);
    mat(
        [x.x, x.y, x.z, fx_neg(dot3(x, eye))],
        [y.x, y.y, y.z, fx_neg(dot3(y, eye))],
        [z.x, z.y, z.z, fx_neg(dot3(z, eye))],
        [zero(), zero(), zero(), one()],
    )
}

pub fn get_look_at_view_matrix(camera_pos: Vec3, target: Vec3, up_view: Vec3) -> (r: Matrix4)
    ensures
        r == look_at(camera_pos, target, up_view),
{
    proof {
        reveal(look_at);
    }
    let mut z = vector3_sub(target, camera_pos);
    vector3_normalize(&mut z);
    let mut x = vector3_cross(up_view, z);
    vector3_normalize(&mut x);
    let y = vector3_cross(z, x);
    let o = Fixed::one();
    let zr = Fixed::zero();
    Matrix4 {
        m: [
            [x.x, x.y, x.z, vector3_dot(x, camera_pos).neg()],
            [y.x, y.y, y.z, vector3_dot(y, camera_pos).neg()],
            [z.x, z.y, z.z, vector3_dot(z, camera_pos).neg()],
            [zr, zr, zr, o],
        ],
    }
}

pub open spec fn unit_z() -> Vec3 {
    Vec3 { x: zero(), y: zero(), z: one() }
}

pub open spec fn unit_y() -> Vec3 {
    Vec3 { x: zero(), y: one(), z: zero() }
}

/// The camera after a view update with the given pitch and yaw: the look
/// direction is `+z` turned by pitch then yaw, the velocity turned by yaw is
/// added to the position, and the velocity is reset.
#[verifier::opaque]
pub open spec fn fps_camera(camera: Camera, pitch: SinCos, yaw: SinCos) -> Camera {
    let rotation = mat_product(rotation_y4(yaw), mat_product(rotation_x4(pitch), identity4()));
    Camera {
        position: add3(camera.position, vec3_of(mul_vec4(rotation_y4(yaw), vec4_of(camera.velocity)))),
        rotation: camera.rotation,
        velocity: vec3_zero(),
        direction: vec3_of(mul_vec4(rotation, vec4_of(unit_z()))),
    }
}

/// The matrix whose entries are `product_entry(a, b, i, j)`.
pub open spec fn mat_product(a: Matrix4, b: Matrix4) -> Matrix4 {
    mat(
        [product_entry(a, b, 0, 0), product_entry(a, b, 0, 1), product_entry(a, b, 0, 2), product_entry(a, b, 0, 3)],
        [product_entry(a, b, 1, 0), product_entry(a, b, 1, 1), product_entry(a, b, 1, 2), product_entry(a, b, 1, 3)],
        [product_entry(a, b, 2, 0), product_entry(a, b, 2, 1), product_entry(a, b, 2, 2), product_entry(a, b, 2, 3)],
        [product_entry(a, b, 3, 0), product_entry(a, b, 3, 1), product_entry(a, b, 3, 2), product_entry(a, b, 3, 3)],
    )
}

proof fn lemma_product_is(r: Matrix4, a: Matrix4, b: Matrix4)
    requires
        forall|i: int, j: int| 0 <= i < 4 && 0 <= j < 4 ==> r.m[i][j] == product_entry(a, b, i, j),
    ensures
        r == mat_product(a, b),
{
    let p = mat_product(a, b);
    assert(r.m[0] =~= p.m[0]);
    assert(r.m[1] =~= p.m[1]);
    assert(r.m[2] =~= p.m[2]);
    assert(r.m[3] =~= p.m[3]);
    assert(r.m =~= p.m);
}

/// Updates the camera from its pitch and yaw (given as sines and cosines of
/// `camera.rotation.x` and `camera.rotation.y`) and returns the view matrix.
pub fn get_fps_view_matrix(camera: &mut Camera, pitch: SinCos, yaw: SinCos) -> (r: Matrix4)
    ensures
        *final(camera) == fps_camera(*old(camera), pitch, yaw),
        r == look_at(
            final(camera).position,
            add3(final(camera).direction, final(camera).position),
            unit_y(),
        ),
{
    proof {
        reveal(fps_camera);
    }
    let o = Fixed::one();
    let zr = Fixed::zero();
    let mut target = Vec3 { x: zr, y: zr, z: o };
    let x_rotation_matrix = get_matrix4_rotation_x(pitch);
    let y_rotation_matrix = get_matrix4_rotation_y(yaw);
    let inner = matrix4_mul_matrix4(x_rotation_matrix, get_matrix4_identity());
    proof {
        lemma_product_is(inner, rotation_x4(pitch), identity4());
    }
    let rotation_matrix = matrix4_mul_matrix4(y_rotation_matrix, inner);
    proof {
        lemma_product_is(rotation_matrix, rotation_y4(yaw), inner);
    }
    camera.direction = Vec3::from(matrix4_mul_vec4(rotation_matrix, Vec4::from(target)));
    camera.position = vector3_add(
        camera.position,
        Vec3::from(matrix4_mul_vec4(y_rotation_matrix, Vec4::from(camera.velocity))),
    );
    camera.velocity = Vec3::default();
    target = vector3_add(camera.direction, camera.position);
    get_look_at_view_matrix(camera.position, target, Vec3 { x: zr, y: o, z: zr })
}

/// The perspective projection: `fov_scaling` is `1 / tan(fov / 2)`; depth maps
/// `z_near .. z_far` with `z_far / (z_far - z_near)`, and `w` takes `z`.
pub open spec fn projection4(fov_scaling: Fixed, aspect_ratio: Fixed, z_near: Fixed, z_far: Fixed) -> Matrix4 {
    let zl = fx_div(z_far, fx_sub(z_far, z_near));
    mat(
        [fx_mul(aspect_ratio, fov_scaling), zero(), zero(), zero()],
        [zero(), fov_scaling, zero(), zero()],
        [zero(), zero(), zl, fx_neg(fx_mul(zl, z_near))],
        [zero(), zero(), one(), zero()],
    )
}

pub fn get_projection_matrix(fov_scaling: Fixed, aspect_ratio: Fixed, z_near: Fixed, z_far: Fixed) -> (r: Matrix4)
    requires
        fx_sub(z_far, z_near).bits != 0,
    ensures
        r == projection4(fov_scaling, aspect_ratio, z_near, z_far),
{
    let z_normalizer_left = z_far.div_by(z_far.minus(z_near));
    let z_normalizer_right = z_normalizer_left.times(z_near).neg();
    let o = Fixed::one();
    let zr = Fixed::zero();
    Matrix4 {
        m: [
            [aspect_ratio.times(fov_scaling), zr, zr, zr],
            [zr, fov_scaling, zr, zr],
            [zr, zr, z_normalizer_left, z_normalizer_right],
            [zr, zr, o, zr],
        ],
    }
}

} // verus!
