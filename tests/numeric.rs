use software_renderer::fixed_point::Fixed;
use software_renderer::math::{
    barycentric_weights, get_inv_slope, light_apply_intensity, perspective_project_point,
    triangle_vec2_midpoint, unproject_point, vector2_cross, vector3_length, vector3_normalize,
};
use software_renderer::matrix::{get_matrix4_identity, get_projection_matrix, matrix4_mul_matrix4};
use software_renderer::types::{IntVec2, Texture, Vec3};

fn fx(v: f64) -> Fixed {
    Fixed::from_bits((v * 65536.0).round() as i64)
}

fn to_f(v: Fixed) -> f64 {
    v.bits as f64 / 65536.0
}

#[test]
fn inv_slope_of_rising_edge_is_half() {
    let r = get_inv_slope(IntVec2 { x: 0, y: 0 }, IntVec2 { x: 4, y: 8 });
    assert_eq!(r.bits, 32768);
}

#[test]
fn inv_slope_of_horizontal_pair_is_zero() {
    let r = get_inv_slope(IntVec2 { x: 0, y: 3 }, IntVec2 { x: 4, y: 3 });
    assert_eq!(r.bits, 0);
}

#[test]
fn light_halves_color_channels_and_keeps_alpha() {
    let r = light_apply_intensity(0xFF184787, fx(0.5));
    assert_eq!(r, 0xFF0C2343);
    assert_eq!(r & 0xFF000000, 0xFF000000);
}

#[test]
fn light_with_negative_factor_keeps_only_alpha() {
    assert_eq!(light_apply_intensity(0xFF184787, fx(-1.0)), 0xFF000000);
}

#[test]
fn fixed_multiplication_rounds_down() {
    assert_eq!(fx(1.5).times(fx(2.0)).bits, fx(3.0).bits);
    assert_eq!(Fixed::from_bits(-1).times(Fixed::from_bits(1)).bits, -1);
    assert_eq!(Fixed::from_bits(i64::MAX).times(fx(2.0)).bits, i64::MAX);
}

#[test]
fn fixed_division_rounds_toward_zero() {
    assert_eq!(fx(1.0).div_by(fx(4.0)).bits, 16384);
    assert_eq!(Fixed::from_bits(-1).div_by(fx(2.0)).bits, 0);
    assert_eq!(fx(7.0).div_by(fx(-2.0)).bits, fx(-3.5).bits);
}

#[test]
fn fixed_sqrt_rounds_down_and_rejects_negatives() {
    assert_eq!(fx(4.0).sqrt().unwrap().bits, fx(2.0).bits);
    assert_eq!(Fixed::from_bits(2).sqrt().unwrap().bits, 362);
    assert!(fx(-1.0).sqrt().is_none());
}

#[test]
fn length_of_three_four_zero_is_five() {
    let v = Vec3 { x: fx(3.0), y: fx(4.0), z: fx(0.0) };
    assert_eq!(vector3_length(v).bits, fx(5.0).bits);
}

#[test]
fn normalize_scales_to_unit_and_keeps_zero() {
    let mut v = Vec3 { x: fx(0.0), y: fx(0.0), z: fx(-3.0) };
    vector3_normalize(&mut v);
    assert_eq!(v.z.bits, -65536);
    let mut z = Vec3 { x: fx(0.0), y: fx(0.0), z: fx(0.0) };
    vector3_normalize(&mut z);
    assert_eq!(z.z.bits, 0);
}

#[test]
fn cross_of_unit_axes() {
    let r = vector2_cross(IntVec2 { x: 1, y: 0 }, IntVec2 { x: 0, y: 1 });
    assert_eq!(r.bits, 65536);
}

#[test]
fn midpoint_on_long_edge() {
    let r = triangle_vec2_midpoint(
        IntVec2 { x: 0, y: 0 },
        IntVec2 { x: 10, y: 5 },
        IntVec2 { x: 4, y: 10 },
    );
    assert_eq!((r.x, r.y), (2, 5));
}

#[test]
fn barycentric_weights_at_a_corner_and_degenerate() {
    let a = IntVec2 { x: 0, y: 0 };
    let b = IntVec2 { x: 10, y: 0 };
    let c = IntVec2 { x: 0, y: 10 };
    let w = barycentric_weights(a, b, c, a).unwrap();
    assert_eq!((w.x.bits, w.y.bits, w.z.bits), (65536, 0, 0));
    assert!(barycentric_weights(a, a, c, b).is_none());
}

#[test]
fn identity_times_identity_is_identity() {
    let i = get_matrix4_identity();
    let p = matrix4_mul_matrix4(i, i);
    for r in 0..4 {
        for c in 0..4 {
            assert_eq!(p.m[r][c].bits, if r == c { 65536 } else { 0 });
        }
    }
}

#[test]
fn projection_round_trips_through_screen_space() {
    // fov of 90 degrees: 1 / tan(45 deg) = 1.
    let proj = get_projection_matrix(fx(1.0), fx(1.0), fx(0.1), fx(100.0));
    let width = 800u32;
    let height = 600u32;
    for &(x, y, z) in &[(1.0, 2.0, 5.0), (-3.0, 0.5, 10.0), (0.25, -0.75, 2.0)] {
        let p = perspective_project_point(Vec3 { x: fx(x), y: fx(y), z: fx(z) }, proj, height, width);
        let w = to_f(p.w);
        assert!(w > 0.0);
        let ndc_x = (to_f(p.x) - width as f64 / 2.0) / (width as f64 / 2.0);
        let ndc_y = -(to_f(p.y) - height as f64 / 2.0) / (height as f64 / 2.0);
        assert!((ndc_x * w - x).abs() < 0.01);
        assert!((ndc_y * w - y).abs() < 0.01);
    }
}

#[test]
fn projection_centers_the_view_axis() {
    let proj = get_projection_matrix(fx(1.0), fx(0.5625), fx(0.1), fx(100.0));
    let p = perspective_project_point(Vec3 { x: fx(0.0), y: fx(0.0), z: fx(5.0) }, proj, 720, 1280);
    assert_eq!((p.x.bits, p.y.bits), (640 * 65536, 360 * 65536));
    assert_eq!(p.w.bits, fx(5.0).bits);
}

#[test]
fn unproject_inverts_projection() {
    let proj = get_projection_matrix(fx(1.7320508), fx(0.5625), fx(0.01), fx(100.0));
    let p = perspective_project_point(Vec3 { x: fx(-2.5), y: fx(1.25), z: fx(7.0) }, proj, 720, 1280);
    let back = unproject_point(p, 720, 1280);
    let clip_x = -2.5 * 0.5625 * 1.7320508;
    let clip_y = 1.25 * 1.7320508;
    assert!((to_f(back.x) - clip_x).abs() < 0.001);
    assert!((to_f(back.y) - clip_y).abs() < 0.001);
}

#[test]
fn texture_from_rgba_packs_argb() {
    let t = Texture::from_rgba(2, 1, &vec![0x11, 0x22, 0x33, 0x44, 0xAA, 0xBB, 0xCC, 0xFF]).unwrap();
    assert_eq!(t.data, vec![0x44112233, 0xFFAABBCC]);
    assert_eq!((t.width, t.height), (2, 1));
    assert!(Texture::from_rgba(2, 2, &vec![0; 8]).is_none());
    assert!(Texture::from_rgba(0, 1, &vec![]).is_none());
}
