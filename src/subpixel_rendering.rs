//! The edge-function rasterizer: a bounding-box scan with incrementally stepped
//! edge functions, a top-left fill rule and perspective-correct texturing.
use crate::fixed_point::{fx_add, fx_div, fx_int, fx_mul, fx_sub, Fixed};
use crate::math::{interpolate_reciprocal_w, interpolate_uv, light_apply_intensity};
use crate::math::{lit, perspective_uv, reciprocal_w, spin};
use crate::render::{depth_respected, in_frame, lemma_depth_respected_chain, lemma_index_in_frame, pix, pixel_index, shade, write_fragment};
use crate::types::{FrameBuffer, IntVec2, Texture, TextureUV, Vec3};
use crate::vector::FixedVec4;
use vstd::prelude::*;

pub use crate::render::render_pixel;

verus! {

/// The bias that moves pixel centers exactly on a top or left edge inside.
pub const EDGE_BIAS_BITS: i64 = 66;

/// Twice the signed area of `a b c` in the x-y plane: `(b - a) x (c - a)`.
pub open spec fn cross2(a: FixedVec4, b: FixedVec4, c: FixedVec4) -> Fixed {
    fx_sub(fx_mul(fx_sub(b.x, a.x), fx_sub(c.y, a.y)), fx_mul(fx_sub(b.y, a.y), fx_sub(c.x, a.x)))
}

pub fn triangle_cross(a: &FixedVec4, b: &FixedVec4, c: &FixedVec4) -> (r: Fixed)
    ensures
        r == cross2(*a, *b, *c),
{
    let ab_x = b.x.minus(a.x);
    let ab_y = b.y.minus(a.y);
    let ac_x = c.x.minus(a.x);
    let ac_y = c.y.minus(a.y);
    ab_x.times(ac_y).minus(ab_y.times(ac_x))
}

/// The edge from `p0` to `p1` is a top edge (horizontal, pointing right) or a
/// left edge (pointing up the screen).
pub open spec fn top_left(p0: FixedVec4, p1: FixedVec4) -> bool {
    let edge_x = fx_sub(p1.x, p0.x);
    let edge_y = fx_sub(p1.y, p0.y);
    (edge_y.bits == 0 && edge_x.bits > 0) || edge_y.bits < 0
}

pub fn is_edge_top_left(p0: &FixedVec4, p1: &FixedVec4) -> (r: bool)
    ensures
        r == top_left(*p0, *p1),
{
    let edge_x = p1.x.minus(p0.x);
    let edge_y = p1.y.minus(p0.y);
    let is_edge_top = edge_y.bits == 0 && edge_x.bits > 0;
    let is_edge_left = edge_y.bits < 0;
    is_edge_top || is_edge_left
}

/// Rounds to the nearest integer, halves away from zero.
pub open spec fn round_fx(a: Fixed) -> int {
    if a.bits >= 0 {
        (a.bits + 32768) / 65536
    } else {
        -((-a.bits + 32768) / 65536)
    }
}

fn round_fixed(a: Fixed) -> (r: i64)
    ensures
        r == round_fx(a),
{
    if a.bits >= 0 {
        ((a.bits as i128 + 32768) / 65536) as i64
    } else {
        (-((-(a.bits as i128) + 32768) / 65536)) as i64
    }
}

pub open spec fn min3(a: Fixed, b: Fixed, c: Fixed) -> Fixed {
    let m = if a.bits <= b.bits { a } else { b };
    if m.bits <= c.bits { m } else { c }
}

pub open spec fn max3(a: Fixed, b: Fixed, c: Fixed) -> Fixed {
    let m = if a.bits >= b.bits { a } else { b };
    if m.bits >= c.bits { m } else { c }
}

fn min_of(a: Fixed, b: Fixed, c: Fixed) -> (r: Fixed)
    ensures
        r == min3(a, b, c),
{
    let m = if a.bits <= b.bits { a } else { b };
    if m.bits <= c.bits { m } else { c }
}

fn max_of(a: Fixed, b: Fixed, c: Fixed) -> (r: Fixed)
    ensures
        r == max3(a, b, c),
{
    let m = if a.bits >= b.bits { a } else { b };
    if m.bits >= c.bits { m } else { c }
}

/// Clamps an integer into `i32`.
fn to_i32(v: i64) -> (r: i32)
    ensures
        r as int == crate::types::clamp_i32(v as int),
{
    if v < i32::MIN as i64 {
        i32::MIN
    } else if v > i32::MAX as i64 {
        i32::MAX
    } else {
        v as i32
    }
}

/// The bias of an edge: `-EDGE_BIAS_BITS` raw units on a top or left edge,
/// else zero.
pub open spec fn edge_bias(pa: FixedVec4, pb: FixedVec4) -> Fixed {
    if top_left(pa, pb) {
        fx_sub(Fixed { bits: 0 }, Fixed { bits: EDGE_BIAS_BITS })
    } else {
        Fixed { bits: 0 }
    }
}

/// The center of the top-left pixel of the bounding box.
pub open spec fn box_origin(x_min: int, y_min: int) -> FixedVec4 {
    let half = Fixed { bits: 32768 };
    FixedVec4 { x: fx_add(fx_int(x_min), half), y: fx_add(fx_int(y_min), half), z: half, w: half }
}

/// The biased edge function of `pa pb` at the pixel `kx` columns right of and
/// `ky` rows below the box origin, as the rasterizer steps it: evaluated at the
/// origin, then advanced by the per-row and per-column deltas.
pub open spec fn edge_value(pa: FixedVec4, pb: FixedVec4, origin: FixedVec4, kx: nat, ky: nat) -> Fixed {
    spin(
        spin(fx_add(cross2(pa, pb, origin), edge_bias(pa, pb)), fx_sub(pb.x, pa.x), ky),
        fx_sub(pa.y, pb.y),
        kx,
    )
}

/// The lit, perspective-correct fragment for the edge values `w0 w1 w2`
/// (divided by the triangle's doubled area to give barycentric weights).
pub open spec fn edge_fragment(
    w0: Fixed,
    w1: Fixed,
    w2: Fixed,
    area: Fixed,
    p0: FixedVec4,
    p1: FixedVec4,
    p2: FixedVec4,
    uv0: TextureUV,
    uv1: TextureUV,
    uv2: TextureUV,
    texture: &Texture,
    light_dot: Fixed,
) -> Option<(Fixed, u32)> {
    let wt = Vec3 { x: fx_div(w0, area), y: fx_div(w1, area), z: fx_div(w2, area) };
    match perspective_uv(wt, p0, p1, p2, uv0, uv1, uv2) {
        Some(uv) => Some(
            (fx_sub(Fixed { bits: 65536 }, reciprocal_w(wt, p0, p1, p2)), lit(sample_clamped(texture, uv), light_dot)),
        ),
        None => None,
    }
}

/// What pixel `(x, y)` holds after the edge-function rasterizer draws the
/// triangle over `cur`: a pixel in the rounded bounding box (upper ends
/// excluded) whose three biased edge values are all non-negative gets its
/// fragment depth-tested; a triangle of zero area draws nothing.
pub open spec fn edge_rasterized(
    cur: (Fixed, u32),
    x: int,
    y: int,
    p0: FixedVec4,
    p1: FixedVec4,
    p2: FixedVec4,
    uv0: TextureUV,
    uv1: TextureUV,
    uv2: TextureUV,
    texture: &Texture,
    light_dot: Fixed,
) -> (Fixed, u32) {
    let x_min = round_fx(min3(p0.x, p1.x, p2.x));
    let x_max = round_fx(max3(p0.x, p1.x, p2.x));
    let y_min = round_fx(min3(p0.y, p1.y, p2.y));
    let y_max = round_fx(max3(p0.y, p1.y, p2.y));
    let area = cross2(p0, p1, p2);
    let o = box_origin(x_min, y_min);
    let kx = (x - x_min) as nat;
    let ky = (y - y_min) as nat;
    let w0 = edge_value(p1, p2, o, kx, ky);
    let w1 = edge_value(p2, p0, o, kx, ky);
    let w2 = edge_value(p0, p1, o, kx, ky);
    if area.bits != 0 && x_min <= x < x_max && y_min <= y < y_max && w0.bits >= 0 && w1.bits >= 0
        && w2.bits >= 0 {
        shade(cur, edge_fragment(w0, w1, w2, area, p0, p1, p2, uv0, uv1, uv2, texture, light_dot))
    } else {
        cur
    }
}

/// Shades one pixel from its edge values.
fn shade_edge_pixel(
    frame: &mut FrameBuffer,
    x: i64,
    y: i64,
    w0: Fixed,
    w1: Fixed,
    w2: Fixed,
    area: Fixed,
    p0: FixedVec4,
    p1: FixedVec4,
    p2: FixedVec4,
    uv0: TextureUV,
    uv1: TextureUV,
    uv2: TextureUV,
    texture: &Texture,
    light_dot: Fixed,
)
    requires
        old(frame).wf(),
        texture.wf(),
        area.bits != 0,
    ensures
        final(frame).wf(),
        depth_respected(*old(frame), *final(frame)),
        forall|i: int|
            0 <= i < final(frame).color@.len() ==> #[trigger] pix(*final(frame), i) == if i % (
            old(frame).width as int) == x && i / (old(frame).width as int) == y {
                shade(pix(*old(frame), i), edge_fragment(w0, w1, w2, area, p0, p1, p2, uv0, uv1, uv2, texture, light_dot))
            } else {
                pix(*old(frame), i)
            },
{
    let ghost w = frame.width as int;
    let ghost h = frame.height as int;
    let ghost frag = edge_fragment(w0, w1, w2, area, p0, p1, p2, uv0, uv1, uv2, texture, light_dot);
    let alpha = w0.div_by(area);
    let beta = w1.div_by(area);
    let gamma = w2.div_by(area);
    let weights = Vec3 { x: alpha, y: beta, z: gamma };
    let sampled = interpolate_uv(weights, p0, p1, p2, uv0, uv1, uv2);
    if let Some(uv) = sampled {
        let interpolated_reciprocal_w = interpolate_reciprocal_w(weights, p0, p1, p2);
        let texture_color = sample_unsigned(texture, uv);
        let color_after_light = light_apply_intensity(texture_color, light_dot);
        let depth = Fixed::one().minus(interpolated_reciprocal_w);
        let p = IntVec2 { x: to_i32(x), y: to_i32(y) };
        write_fragment(frame, p, depth, color_after_light);
        proof {
            assert(frag == Some((depth, color_after_light)));
            if in_frame(w, h, p.x as int, p.y as int) {
                lemma_index_in_frame(w, h, p.x as int, p.y as int);
            }
            assert forall|i: int| 0 <= i < frame.color@.len() implies #[trigger] pix(*frame, i)
                == if i % w == x && i / w == y {
                shade(pix(*old(frame), i), frag)
            } else {
                pix(*old(frame), i)
            } by {
                lemma_pixel_position(w, h, i);
                if i % w == x && i / w == y {
                    assert(in_frame(w, h, p.x as int, p.y as int));
                    assert(i == pixel_index(w, p.x as int, p.y as int));
                } else if in_frame(w, h, p.x as int, p.y as int) {
                    assert(i != pixel_index(w, p.x as int, p.y as int));
                }
            }
        }
    } else {
        proof {
            assert(frag is None);
        }
    }
}

/// Pixel `i` of a `width x height` frame lies at `(i % width, i / width)`,
/// inside the frame.
pub proof fn lemma_pixel_position(width: int, height: int, i: int)
    requires
        0 <= i < width * height,
        width >= 0,
        height >= 0,
    ensures
        width > 0,
        in_frame(width, height, i % width, i / width),
        i == pixel_index(width, i % width, i / width),
        forall|x: int, y: int| in_frame(width, height, x, y) && i == pixel_index(width, x, y) ==> x
            == i % width && y == i / width,
{
    if width <= 0 {
        assert(width * height == 0) by (nonlinear_arith)
            requires
                width == 0,
        ;
    }
    vstd::arithmetic::div_mod::lemma_fundamental_div_mod(i, width);
    vstd::arithmetic::div_mod::lemma_mod_bound(i, width);
    assert((i / width) * width == width * (i / width)) by (nonlinear_arith);
    assert(0 <= i / width < height) by (nonlinear_arith)
        requires
            i == width * (i / width) + i % width,
            0 <= i < width * height,
            0 <= i % width < width,
    ;
    assert forall|x: int, y: int| in_frame(width, height, x, y) && i == pixel_index(width, x, y) implies x
        == i % width && y == i / width by {
        lemma_index_in_frame(width, height, x, y);
    }
}

/// Rasterizes a textured, lit triangle by edge functions over its bounding box
/// (corners rounded to whole pixels; the upper ends excluded). A pixel is
/// covered when all three edge functions at its center, each biased down on
/// top-left edges, are non-negative; the edge functions are stepped by fixed
/// per-column and per-row deltas. A covered pixel's texture sample, scaled by
/// `light_dot`, is depth-tested into the frame. A triangle of zero area is
/// skipped.
pub fn subpixel_render_triangle(
    frame: &mut FrameBuffer,
    p0: FixedVec4,
    p1: FixedVec4,
    p2: FixedVec4,
    uv0: &TextureUV,
    uv1: &TextureUV,
    uv2: &TextureUV,
    texture: &Texture,
    light_dot: Fixed,
)
    requires
        old(frame).wf(),
        texture.wf(),
    ensures
        final(frame).wf(),
        depth_respected(*old(frame), *final(frame)),
        forall|i: int|
            0 <= i < final(frame).color@.len() ==> #[trigger] pix(*final(frame), i) == edge_rasterized(
                pix(*old(frame), i),
                i % (old(frame).width as int),
                i / (old(frame).width as int),
                p0,
                p1,
                p2,
                *uv0,
                *uv1,
                *uv2,
                texture,
                light_dot,
            ),
{
    let ghost w = frame.width as int;
    let ghost h = frame.height as int;
    let x_min = round_fixed(min_of(p0.x, p1.x, p2.x));
    let x_max = round_fixed(max_of(p0.x, p1.x, p2.x));
    let y_min = round_fixed(min_of(p0.y, p1.y, p2.y));
    let y_max = round_fixed(max_of(p0.y, p1.y, p2.y));
    let triangle_area = triangle_cross(&p0, &p1, &p2);
    if triangle_area.bits == 0 {
        return;
    }
    let delta_w0_col = p1.y.minus(p2.y);
    let delta_w1_col = p2.y.minus(p0.y);
    let delta_w2_col = p0.y.minus(p1.y);
    let delta_w0_row = p2.x.minus(p1.x);
    let delta_w1_row = p0.x.minus(p2.x);
    let delta_w2_row = p1.x.minus(p0.x);
    let threshold = Fixed::from_bits(EDGE_BIAS_BITS);
    let bias0 = if is_edge_top_left(&p1, &p2) { Fixed::zero().minus(threshold) } else { Fixed::zero() };
    let bias1 = if is_edge_top_left(&p2, &p0) { Fixed::zero().minus(threshold) } else { Fixed::zero() };
    let bias2 = if is_edge_top_left(&p0, &p1) { Fixed::zero().minus(threshold) } else { Fixed::zero() };
    let half = Fixed::from_bits(32768);
    let p_target = FixedVec4 {
        x: Fixed::from_int(x_min).plus(half),
        y: Fixed::from_int(y_min).plus(half),
        z: half,
        w: half,
    };
    let ghost o = box_origin(x_min as int, y_min as int);
    let mut w0_row = triangle_cross(&p1, &p2, &p_target).plus(bias0);
    let mut w1_row = triangle_cross(&p2, &p0, &p_target).plus(bias1);
    let mut w2_row = triangle_cross(&p0, &p1, &p_target).plus(bias2);
    let mut y = y_min;
    while y < y_max
        invariant
            frame.wf(),
            texture.wf(),
            w == frame.width,
            h == frame.height,
            depth_respected(*old(frame), *frame),
            y >= y_min,
            x_min == round_fx(min3(p0.x, p1.x, p2.x)),
            x_max == round_fx(max3(p0.x, p1.x, p2.x)),
            y_min == round_fx(min3(p0.y, p1.y, p2.y)),
            y_max == round_fx(max3(p0.y, p1.y, p2.y)),
            triangle_area == cross2(p0, p1, p2),
            triangle_area.bits != 0,
            o == box_origin(x_min as int, y_min as int),
            delta_w0_col == fx_sub(p1.y, p2.y),
            delta_w1_col == fx_sub(p2.y, p0.y),
            delta_w2_col == fx_sub(p0.y, p1.y),
            w0_row == edge_value(p1, p2, o, 0, (y - y_min) as nat),
            w1_row == edge_value(p2, p0, o, 0, (y - y_min) as nat),
            w2_row == edge_value(p0, p1, o, 0, (y - y_min) as nat),
            delta_w0_row == fx_sub(p2.x, p1.x),
            delta_w1_row == fx_sub(p0.x, p2.x),
            delta_w2_row == fx_sub(p1.x, p0.x),
            forall|i: int|
                0 <= i < frame.color@.len() ==> #[trigger] pix(*frame, i) == if i / w < y {
                    edge_rasterized(pix(*old(frame), i), i % w, i / w, p0, p1, p2, *uv0, *uv1, *uv2, texture, light_dot)
                } else {
                    pix(*old(frame), i)
                },
        decreases y_max - y,
    {
        let mut w0 = w0_row;
        let mut w1 = w1_row;
        let mut w2 = w2_row;
        let mut x = x_min;
        while x < x_max
            invariant
                frame.wf(),
                texture.wf(),
                w == frame.width,
                h == frame.height,
                depth_respected(*old(frame), *frame),
                y_min <= y < y_max,
                x >= x_min,
                x_min == round_fx(min3(p0.x, p1.x, p2.x)),
                x_max == round_fx(max3(p0.x, p1.x, p2.x)),
                y_min == round_fx(min3(p0.y, p1.y, p2.y)),
                y_max == round_fx(max3(p0.y, p1.y, p2.y)),
                triangle_area == cross2(p0, p1, p2),
                triangle_area.bits != 0,
                o == box_origin(x_min as int, y_min as int),
                delta_w0_col == fx_sub(p1.y, p2.y),
                delta_w1_col == fx_sub(p2.y, p0.y),
                delta_w2_col == fx_sub(p0.y, p1.y),
                w0 == edge_value(p1, p2, o, (x - x_min) as nat, (y - y_min) as nat),
                w1 == edge_value(p2, p0, o, (x - x_min) as nat, (y - y_min) as nat),
                w2 == edge_value(p0, p1, o, (x - x_min) as nat, (y - y_min) as nat),
                w0_row == edge_value(p1, p2, o, 0, (y - y_min) as nat),
                w1_row == edge_value(p2, p0, o, 0, (y - y_min) as nat),
                w2_row == edge_value(p0, p1, o, 0, (y - y_min) as nat),
                delta_w0_row == fx_sub(p2.x, p1.x),
                delta_w1_row == fx_sub(p0.x, p2.x),
                delta_w2_row == fx_sub(p1.x, p0.x),
                forall|i: int|
                    0 <= i < frame.color@.len() ==> #[trigger] pix(*frame, i) == if i / w < y || (i / w
                        == y && i % w < x) {
                        edge_rasterized(pix(*old(frame), i), i % w, i / w, p0, p1, p2, *uv0, *uv1, *uv2, texture, light_dot)
                    } else {
                        pix(*old(frame), i)
                    },
            decreases x_max - x,
        {
            let ghost mid = *frame;
            if w0.bits >= 0 && w1.bits >= 0 && w2.bits >= 0 {
                shade_edge_pixel(frame, x, y, w0, w1, w2, triangle_area, p0, p1, p2, *uv0, *uv1, *uv2, texture, light_dot);
                proof {
                    lemma_depth_respected_chain(*old(frame), mid, *frame);
                }
            }
            proof {
                assert forall|i: int| 0 <= i < frame.color@.len() implies #[trigger] pix(*frame, i)
                    == if i / w < y || (i / w == y && i % w < x + 1) {
                    edge_rasterized(pix(*old(frame), i), i % w, i / w, p0, p1, p2, *uv0, *uv1, *uv2, texture, light_dot)
                } else {
                    pix(*old(frame), i)
                } by {
                    assert(pix(mid, i) == if i / w < y || (i / w == y && i % w < x) {
                        edge_rasterized(pix(*old(frame), i), i % w, i / w, p0, p1, p2, *uv0, *uv1, *uv2, texture, light_dot)
                    } else {
                        pix(*old(frame), i)
                    });
                }
            }
            w0 = w0.plus(delta_w0_col);
            w1 = w1.plus(delta_w1_col);
            w2 = w2.plus(delta_w2_col);
            proof {
                assert(((x + 1 - x_min) as nat - 1) as nat == (x - x_min) as nat);
            }
            x = x + 1;
        }
        proof {
            assert forall|i: int| 0 <= i < frame.color@.len() implies #[trigger] pix(*frame, i)
                == if i / w < y + 1 {
                edge_rasterized(pix(*old(frame), i), i % w, i / w, p0, p1, p2, *uv0, *uv1, *uv2, texture, light_dot)
            } else {
                pix(*old(frame), i)
            } by {
                if i / w == y && i % w >= x {
                    assert(pix(*frame, i) == pix(*old(frame), i));
                }
            }
        }
        w0_row = w0_row.plus(delta_w0_row);
        w1_row = w1_row.plus(delta_w1_row);
        w2_row = w2_row.plus(delta_w2_row);
        proof {
            assert(((y + 1 - y_min) as nat - 1) as nat == (y - y_min) as nat);
        }
        y = y + 1;
    }
    proof {
        assert forall|i: int| 0 <= i < frame.color@.len() implies #[trigger] pix(*frame, i)
            == edge_rasterized(pix(*old(frame), i), i % w, i / w, p0, p1, p2, *uv0, *uv1, *uv2, texture, light_dot) by {
        }
    }
}

/// The texture's pixel at `(u, v)` scaled by its size, truncated (negative
/// values to zero, as a float-to-unsigned cast does) and wrapped into its
/// pixel count.
pub open spec fn sample_clamped(texture: &Texture, uv: TextureUV) -> u32 {
    let tx = unsigned_coord(uv.u, texture.width);
    let ty = unsigned_coord(uv.v, texture.height);
    texture.data@[(ty * texture.width + tx) % (texture.width * texture.height) as int]
}

pub open spec fn unsigned_coord(c: Fixed, size: u32) -> int {
    let t = crate::fixed_point::fx_trunc(fx_mul(c, crate::fixed_point::fx_int(size as int)));
    if t < 0 { 0 } else if t > u32::MAX { u32::MAX as int } else { t }
}

fn coord_unsigned(c: Fixed, size: u32) -> (r: u64)
    ensures
        r == unsigned_coord(c, size),
{
    let t = c.times(Fixed::from_int(size as i64)).trunc();
    if t < 0 { 0 } else if t > u32::MAX as i64 { u32::MAX as u64 } else { t as u64 }
}

fn sample_unsigned(texture: &Texture, uv: TextureUV) -> (r: u32)
    requires
        texture.wf(),
    ensures
        r == sample_clamped(texture, uv),
{
    let tx = coord_unsigned(uv.u, texture.width);
    let ty = coord_unsigned(uv.v, texture.height);
    let count = texture.width as u64 * texture.height as u64;
    assert(count > 0) by (nonlinear_arith)
        requires
            count == texture.width * texture.height,
            texture.width > 0,
            texture.height > 0,
    ;
    assert(ty * texture.width <= 0xFFFF_FFFF * 0xFFFF_FFFF) by (nonlinear_arith)
        requires
            ty <= 0xFFFF_FFFF,
            texture.width <= 0xFFFF_FFFF,
    ;
    let linear = ty as u128 * texture.width as u128 + tx as u128;
    let index = (linear % count as u128) as usize;
    texture.data[index]
}

/// A point's coordinates lie within `2^30` in raw units (`2^14` pixels), where
/// edge functions do not saturate.
pub open spec fn in_edge_range(p: FixedVec4) -> bool {
    -0x4000_0000 <= p.x.bits <= 0x4000_0000 && -0x4000_0000 <= p.y.bits <= 0x4000_0000
}

proof fn lemma_floor_shift(b: int, x: int)
    ensures
        (b * (x + 65536)) / 65536 == (b * x) / 65536 + b,
{
    let q = (b * x) / 65536;
    let r = (b * x) % 65536;
    vstd::arithmetic::div_mod::lemma_fundamental_div_mod(b * x, 65536);
    vstd::arithmetic::div_mod::lemma_mod_bound(b * x, 65536);
    assert(b * (x + 65536) == 65536 * (q + b) + r) by (nonlinear_arith)
        requires
            b * x == 65536 * q + r,
    ;
    vstd::arithmetic::div_mod::lemma_div_multiples_vanish_fancy(q + b, r, 65536);
}

proof fn lemma_product_bound(a: int, b: int)
    requires
        -0x8000_0000 <= a <= 0x8000_0000,
        -0x8000_0000 <= b <= 0x8000_0000,
    ensures
        -0x4000_0000_0000_0000 <= a * b <= 0x4000_0000_0000_0000,
{
    assert(-0x4000_0000_0000_0000 <= a * b <= 0x4000_0000_0000_0000) by (nonlinear_arith)
        requires
            -0x8000_0000 <= a <= 0x8000_0000,
            -0x8000_0000 <= b <= 0x8000_0000,
    ;
}

/// Stepping the edge function of `p1 p2` one whole pixel right adds
/// `p1.y - p2.y`, and one pixel down adds `p2.x - p1.x`, exactly: the
/// incremental evaluation of the rasterizer equals evaluation from scratch.
pub proof fn lemma_edge_step_exact(p1: FixedVec4, p2: FixedVec4, p: FixedVec4)
    requires
        in_edge_range(p1),
        in_edge_range(p2),
        in_edge_range(p),
        -0x4000_0000 <= p.x.bits + 65536 <= 0x4000_0000,
        -0x4000_0000 <= p.y.bits + 65536 <= 0x4000_0000,
    ensures
        cross2(p1, p2, FixedVec4 { x: Fixed { bits: (p.x.bits + 65536) as i64 }, ..p }) == fx_add(
            cross2(p1, p2, p),
            fx_sub(p1.y, p2.y),
        ),
        cross2(p1, p2, FixedVec4 { y: Fixed { bits: (p.y.bits + 65536) as i64 }, ..p }) == fx_add(
            cross2(p1, p2, p),
            fx_sub(p2.x, p1.x),
        ),
{
    let a = p2.x.bits - p1.x.bits;
    let b = p2.y.bits - p1.y.bits;
    let x = p.x.bits - p1.x.bits;
    let y = p.y.bits - p1.y.bits;
    lemma_product_bound(a, y);
    lemma_product_bound(b, x);
    lemma_product_bound(a, y + 65536);
    lemma_product_bound(b, x + 65536);
    lemma_floor_shift(b, x);
    lemma_floor_shift(a, y);
}

proof fn lemma_cross_bound(pa: FixedVec4, pb: FixedVec4, p: FixedVec4)
    requires
        in_edge_range(pa),
        in_edge_range(pb),
        in_edge_range(p),
    ensures
        -0x1_0000_0000_0000 <= cross2(pa, pb, p).bits <= 0x1_0000_0000_0000,
{
    lemma_product_bound(pb.x.bits - pa.x.bits, p.y.bits - pa.y.bits);
    lemma_product_bound(pb.y.bits - pa.y.bits, p.x.bits - pa.x.bits);
}

/// Within `2^13` pixels of the origin, where nothing saturates, the edge value
/// that the rasterizer reaches by stepping equals the biased edge function
/// evaluated directly at the pixel's center: the incremental evaluation is
/// exact.
pub proof fn lemma_edge_value_direct(pa: FixedVec4, pb: FixedVec4, x_min: int, y_min: int, kx: nat, ky: nat)
    requires
        in_edge_range(pa),
        in_edge_range(pb),
        -0x2000 <= x_min && x_min + kx <= 0x2000,
        -0x2000 <= y_min && y_min + ky <= 0x2000,
    ensures
        edge_value(pa, pb, box_origin(x_min, y_min), kx, ky) == fx_add(
            cross2(pa, pb, box_origin(x_min + kx, y_min + ky)),
            edge_bias(pa, pb),
        ),
    decreases kx + ky,
{
    let o = box_origin(x_min, y_min);
    let bias = edge_bias(pa, pb);
    if kx > 0 {
        lemma_edge_value_direct(pa, pb, x_min, y_min, (kx - 1) as nat, ky);
        let prev = box_origin(x_min + kx - 1, y_min + ky);
        let next = box_origin(x_min + kx, y_min + ky);
        assert(next == FixedVec4 { x: Fixed { bits: (prev.x.bits + 65536) as i64 }, ..prev });
        lemma_edge_step_exact(pa, pb, prev);
        lemma_cross_bound(pa, pb, prev);
        lemma_cross_bound(pa, pb, next);
    } else if ky > 0 {
        lemma_edge_value_direct(pa, pb, x_min, y_min, 0, (ky - 1) as nat);
        let prev = box_origin(x_min, y_min + ky - 1);
        let next = box_origin(x_min, y_min + ky);
        assert(next == FixedVec4 { y: Fixed { bits: (prev.y.bits + 65536) as i64 }, ..prev });
        lemma_edge_step_exact(pa, pb, prev);
        lemma_cross_bound(pa, pb, prev);
        lemma_cross_bound(pa, pb, next);
        assert(edge_value(pa, pb, o, 0, ky) == spin(fx_add(cross2(pa, pb, o), bias), fx_sub(pb.x, pa.x), ky));
        assert(edge_value(pa, pb, o, 0, (ky - 1) as nat) == spin(fx_add(cross2(pa, pb, o), bias), fx_sub(pb.x, pa.x), (ky - 1) as nat));
    }
}

proof fn lemma_floor_sum(p: int, q: int)
    ensures
        (p + q) / 65536 - 1 <= p / 65536 + q / 65536 <= (p + q) / 65536,
{
    vstd::arithmetic::div_mod::lemma_fundamental_div_mod(p, 65536);
    vstd::arithmetic::div_mod::lemma_fundamental_div_mod(q, 65536);
    vstd::arithmetic::div_mod::lemma_fundamental_div_mod(p + q, 65536);
    vstd::arithmetic::div_mod::lemma_mod_bound(p, 65536);
    vstd::arithmetic::div_mod::lemma_mod_bound(q, 65536);
    vstd::arithmetic::div_mod::lemma_mod_bound(p + q, 65536);
}

/// An edge shared by two triangles, traversed in opposite directions, is
/// claimed by at most one of them: at any pixel center the biased edge
/// functions of `a b` and of `b a` are never both non-negative (the top-left
/// rule), so no pixel along it is drawn twice.
pub proof fn lemma_shared_edge_drawn_once(a: FixedVec4, b: FixedVec4, c: FixedVec4)
    requires
        in_edge_range(a),
        in_edge_range(b),
        in_edge_range(c),
        a.x != b.x || a.y != b.y,
    ensures
        !(fx_add(cross2(a, b, c), edge_bias(a, b)).bits >= 0 && fx_add(cross2(b, a, c), edge_bias(b, a)).bits
            >= 0),
{
    let ax = a.x.bits as int;
    let ay = a.y.bits as int;
    let bx = b.x.bits as int;
    let by = b.y.bits as int;
    let cx = c.x.bits as int;
    let cy = c.y.bits as int;
    lemma_product_bound(bx - ax, cy - ay);
    lemma_product_bound(by - ay, cx - ax);
    lemma_product_bound(ax - bx, cy - by);
    lemma_product_bound(ay - by, cx - bx);
    let aa = bx - ax;
    let bb = by - ay;
    let xx = cx - ax;
    let yy = cy - ay;
    assert((ax - bx) * (cy - by) == (bb * aa) - aa * yy) by (nonlinear_arith)
        requires
            aa == bx - ax,
            bb == by - ay,
            yy == cy - ay,
    ;
    assert((ay - by) * (cx - bx) == (bb * aa) - bb * xx) by (nonlinear_arith)
        requires
            aa == bx - ax,
            bb == by - ay,
            xx == cx - ax,
    ;
    lemma_floor_sum(aa * yy, bb * aa - aa * yy);
    lemma_floor_sum(bb * xx, bb * aa - bb * xx);
    assert(top_left(a, b) != top_left(b, a));
}

} // verus!
