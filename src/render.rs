//! Rasterization into a frame buffer: pixels, boxes, lines, scanline triangle
//! fills (flat color and perspective-correct textured) with a depth test.
use crate::fixed_point::{fx_add, fx_div, fx_int, fx_mul, fx_neg, fx_sub, fx_trunc, Fixed};
use crate::math::{
    cross_int,    barycentric, barycentric_weights, get_inv_slope, interpolate_reciprocal_w, interpolate_uv,
    inv_slope, midpoint2, midpoint4, midpoint_uv, perspective_uv, reciprocal_w, spin,
    triangle_midpoint_uv, triangle_vec2_midpoint, triangle_vec4_midpoint,
};
use crate::types::{fixed_to_pixel, pixel_of, FrameBuffer, IntVec2, Texture, TextureUV, Vec2};
use crate::vector::{pixel4, Vec4};
use vstd::prelude::*;

verus! {

/// The pixel `(x, y)` lies inside a `width x height` frame.
pub open spec fn in_frame(width: int, height: int, x: int, y: int) -> bool {
    0 <= x < width && 0 <= y < height
}

/// The row-major index of pixel `(x, y)`.
pub open spec fn pixel_index(width: int, x: int, y: int) -> int {
    y * width + x
}

/// Two frames of the same size whose depth buffers agree.
pub open spec fn same_depth(a: FrameBuffer, b: FrameBuffer) -> bool {
    &&& a.width == b.width
    &&& a.height == b.height
    &&& a.depth@ == b.depth@
    &&& a.color@.len() == b.color@.len()
}

pub proof fn lemma_index_in_frame(width: int, height: int, x: int, y: int)
    requires
        in_frame(width, height, x, y),
    ensures
        0 <= pixel_index(width, x, y) < width * height,
        pixel_index(width, x, y) % width == x,
        pixel_index(width, x, y) / width == y,
{
    assert(0 <= y * width + x < width * height) by (nonlinear_arith)
        requires
            0 <= x < width,
            0 <= y < height,
    ;
    vstd::arithmetic::div_mod::lemma_fundamental_div_mod_converse(y * width + x, width, y, x);
}

/// Sets one pixel; coordinates outside the frame are ignored.
pub fn render_pixel(frame: &mut FrameBuffer, x_pos: i32, y_pos: i32, color: u32)
    requires
        old(frame).wf(),
    ensures
        final(frame).wf(),
        same_depth(*old(frame), *final(frame)),
        final(frame).color@ == if in_frame(old(frame).width as int, old(frame).height as int, x_pos as int, y_pos as int) {
            old(frame).color@.update(pixel_index(old(frame).width as int, x_pos as int, y_pos as int), color)
        } else {
            old(frame).color@
        },
{
    let width = frame.width as i64;
    let height = frame.height as i64;
    let len = frame.color.len();
    if (x_pos as i64) < width && x_pos >= 0 && y_pos >= 0 && (y_pos as i64) < height {
        proof {
            lemma_index_in_frame(width as int, height as int, x_pos as int, y_pos as int);
            assert(y_pos * width <= y_pos * width + x_pos < len);
        }
        let index = y_pos as usize * frame.width as usize + x_pos as usize;
        frame.color.set(index, color);
    }
}

/// Fills the whole color buffer with `color`.
pub fn clear_color_buffer(frame: &mut FrameBuffer, color: u32)
    requires
        old(frame).wf(),
    ensures
        final(frame).wf(),
        same_depth(*old(frame), *final(frame)),
        forall|i: int| 0 <= i < final(frame).color@.len() ==> #[trigger] final(frame).color@[i] == color,
{
    let n = frame.color.len();
    let mut i: usize = 0;
    while i < n
        invariant
            frame.wf(),
            same_depth(*old(frame), *frame),
            n == frame.color@.len(),
            i <= n,
            forall|j: int| 0 <= j < i ==> #[trigger] frame.color@[j] == color,
        decreases n - i,
    {
        frame.color.set(i, color);
        i = i + 1;
    }
}

/// The box painted by `render_box`: from `(x_pos, y_pos)` over the given size,
/// cut to the frame.
pub open spec fn in_box(x_pos: int, y_pos: int, box_width: int, box_height: int, x: int, y: int) -> bool {
    &&& x_pos <= x < x_pos + box_width
    &&& y_pos <= y < y_pos + box_height
}

/// Paints a `box_width x box_height` rectangle with its top-left corner at
/// `(x_pos, y_pos)`, cut to the frame.
pub fn render_box(frame: &mut FrameBuffer, x_pos: i32, y_pos: i32, box_width: u32, box_height: u32, color: u32)
    requires
        old(frame).wf(),
    ensures
        final(frame).wf(),
        same_depth(*old(frame), *final(frame)),
        forall|i: int|
            0 <= i < final(frame).color@.len() ==> #[trigger] final(frame).color@[i] == if in_box(
                x_pos as int,
                y_pos as int,
                box_width as int,
                box_height as int,
                i % old(frame).width as int,
                i / old(frame).width as int,
            ) {
                color
            } else {
                old(frame).color@[i]
            },
{
    let w = frame.width as i64;
    let h = frame.height as i64;
    let x_begin: i64 = if x_pos < 0 { 0 } else { x_pos as i64 };
    let y_begin: i64 = if y_pos < 0 { 0 } else { y_pos as i64 };
    let x_stop = x_pos as i64 + box_width as i64;
    let y_stop = y_pos as i64 + box_height as i64;
    let x_end: i64 = if x_stop < w { x_stop } else { w };
    let y_end: i64 = if y_stop < h { y_stop } else { h };
    let ghost before = frame.color@;
    let mut y = y_begin;
    while y < y_end
        invariant
            frame.wf(),
            same_depth(*old(frame), *frame),
            before == old(frame).color@,
            w == frame.width,
            h == frame.height,
            0 <= y_begin <= y,
            y_end <= h,
            x_begin >= 0,
            x_end <= w,
            x_begin == if x_pos < 0 { 0 } else { x_pos as int },
            y_begin == if y_pos < 0 { 0 } else { y_pos as int },
            x_end == if x_pos + box_width < w { x_pos + box_width } else { w as int },
            y_end == if y_pos + box_height < h { y_pos + box_height } else { h as int },
            forall|i: int|
                0 <= i < frame.color@.len() ==> #[trigger] frame.color@[i] == if in_box(
                    x_pos as int,
                    y_pos as int,
                    box_width as int,
                    box_height as int,
                    i % w as int,
                    i / w as int,
                ) && i / w as int <= y - 1 {
                    color
                } else {
                    before[i]
                },
        decreases y_end - y,
    {
        let mut x = x_begin;
        while x < x_end
            invariant
                frame.wf(),
                same_depth(*old(frame), *frame),
                before == old(frame).color@,
                w == frame.width,
                h == frame.height,
                0 <= y_begin <= y < y_end,
                y_end <= h,
                0 <= x_begin <= x,
                x_end <= w,
                x_begin == if x_pos < 0 { 0 } else { x_pos as int },
                y_begin == if y_pos < 0 { 0 } else { y_pos as int },
                x_end == if x_pos + box_width < w { x_pos + box_width } else { w as int },
                y_end == if y_pos + box_height < h { y_pos + box_height } else { h as int },
                forall|i: int|
                    0 <= i < frame.color@.len() ==> #[trigger] frame.color@[i] == if in_box(
                        x_pos as int,
                        y_pos as int,
                        box_width as int,
                        box_height as int,
                        i % w as int,
                        i / w as int,
                    ) && (i / w as int <= y - 1 || (i / w as int == y && i % w as int <= x - 1)) {
                        color
                    } else {
                        before[i]
                    },
            decreases x_end - x,
        {
            proof {
                lemma_index_in_frame(w as int, h as int, x as int, y as int);
            }
            let ghost idx = pixel_index(w as int, x as int, y as int);
            render_pixel(frame, x as i32, y as i32, color);
            proof {
                assert forall|i: int| 0 <= i < frame.color@.len() implies #[trigger] frame.color@[i]
                    == if in_box(
                    x_pos as int,
                    y_pos as int,
                    box_width as int,
                    box_height as int,
                    i % w as int,
                    i / w as int,
                ) && (i / w as int <= y - 1 || (i / w as int == y && i % w as int <= x)) {
                    color
                } else {
                    before[i]
                } by {
                    if i != idx {
                        if i / w as int == y && i % w as int == x {
                            vstd::arithmetic::div_mod::lemma_fundamental_div_mod(i, w as int);
                        }
                    }
                }
            }
            x = x + 1;
        }
        proof {
            assert forall|i: int| 0 <= i < frame.color@.len() implies #[trigger] frame.color@[i]
                == if in_box(
                x_pos as int,
                y_pos as int,
                box_width as int,
                box_height as int,
                i % w as int,
                i / w as int,
            ) && i / w as int <= y {
                color
            } else {
                before[i]
            } by {
                if i / w as int == y {
                    vstd::arithmetic::div_mod::lemma_mod_bound(i, w as int);
                }
            }
        }
        y = y + 1;
    }
    proof {
        assert forall|i: int| 0 <= i < frame.color@.len() implies #[trigger] frame.color@[i]
            == if in_box(
            x_pos as int,
            y_pos as int,
            box_width as int,
            box_height as int,
            i % w as int,
            i / w as int,
        ) {
            color
        } else {
            before[i]
        } by {
            vstd::arithmetic::div_mod::lemma_mod_bound(i, w as int);
            vstd::arithmetic::div_mod::lemma_fundamental_div_mod(i, w as int);
            if i / w as int >= h {
                assert(i >= h * w) by (nonlinear_arith)
                    requires
                        i / w as int >= h,
                        i == w * (i / w as int) + i % w as int,
                        i % w as int >= 0,
                        w > 0,
                ;
            }
        }
    }
}

/// The number of steps of a line: the larger of its extents in x and y.
pub open spec fn line_steps(x_start: int, y_start: int, x_end: int, y_end: int) -> int {
    let dx = if x_end >= x_start { x_end - x_start } else { x_start - x_end };
    let dy = if y_end >= y_start { y_end - y_start } else { y_start - y_end };
    if dx >= dy { dx } else { dy }
}

/// The per-step increment along one axis: `d / steps`, or zero for a
/// single-point line.
pub open spec fn line_increment(d: int, steps: int) -> Fixed {
    if steps == 0 {
        Fixed { bits: 0 }
    } else {
        fx_div(fx_int(d), fx_int(steps))
    }
}

/// A line from `(x0, y0)` to `(x1, y1)`, stepped `line_steps + 1` times by
/// fixed increments.
pub struct LineSpec {
    pub x0: int,
    pub y0: int,
    pub x1: int,
    pub y1: int,
}

/// The pixel that step `k` of the line lands on.
pub open spec fn line_point(l: LineSpec, k: nat) -> (int, int) {
    let steps = line_steps(l.x0, l.y0, l.x1, l.y1);
    (
        pixel_of(spin(fx_int(l.x0), line_increment(l.x1 - l.x0, steps), k)) as int,
        pixel_of(spin(fx_int(l.y0), line_increment(l.y1 - l.y0, steps), k)) as int,
    )
}

/// Step `k` of the line paints pixel `i` of a `width x height` frame.
pub open spec fn line_hits(l: LineSpec, width: int, height: int, k: int, i: int) -> bool {
    let p = line_point(l, k as nat);
    &&& 0 <= k
    &&& in_frame(width, height, p.0, p.1)
    &&& pixel_index(width, p.0, p.1) == i
}

/// Some step before `n` paints pixel `i`.
pub open spec fn line_hits_before(l: LineSpec, width: int, height: int, n: int, i: int) -> bool {
    exists|k: int| k < n && #[trigger] line_hits(l, width, height, k, i)
}

/// Draws a line by stepping from the start toward the end point with fixed
/// increments, painting the truncated position at each of `steps + 1` steps.
pub fn render_line(frame: &mut FrameBuffer, x_start: i32, y_start: i32, x_end: i32, y_end: i32, color: u32)
    requires
        old(frame).wf(),
    ensures
        final(frame).wf(),
        same_depth(*old(frame), *final(frame)),
        forall|i: int|
            0 <= i < final(frame).color@.len() ==> #[trigger] final(frame).color@[i] == if line_hits_before(
                LineSpec { x0: x_start as int, y0: y_start as int, x1: x_end as int, y1: y_end as int },
                old(frame).width as int,
                old(frame).height as int,
                line_steps(x_start as int, y_start as int, x_end as int, y_end as int) + 1,
                i,
            ) {
                color
            } else {
                old(frame).color@[i]
            },
{
    let ghost l = LineSpec { x0: x_start as int, y0: y_start as int, x1: x_end as int, y1: y_end as int };
    let ghost w = frame.width as int;
    let ghost h = frame.height as int;
    let dx = x_end as i64 - x_start as i64;
    let dy = y_end as i64 - y_start as i64;
    let adx = if dx >= 0 { dx } else { -dx };
    let ady = if dy >= 0 { dy } else { -dy };
    let side_length = if adx >= ady { adx } else { ady };
    let (x_inc, y_inc) = if side_length == 0 {
        (Fixed::zero(), Fixed::zero())
    } else {
        let side = Fixed::from_int(side_length);
        (Fixed::from_int(dx).div_by(side), Fixed::from_int(dy).div_by(side))
    };
    let mut x_cur = Fixed::from_int(x_start as i64);
    let mut y_cur = Fixed::from_int(y_start as i64);
    let ghost before = frame.color@;
    let mut k: i64 = 0;
    while k <= side_length
        invariant
            frame.wf(),
            same_depth(*old(frame), *frame),
            before == old(frame).color@,
            w == frame.width,
            h == frame.height,
            side_length == line_steps(l.x0, l.y0, l.x1, l.y1),
            l.x0 == x_start && l.y0 == y_start && l.x1 == x_end && l.y1 == y_end,
            x_inc == line_increment(l.x1 - l.x0, side_length as int),
            y_inc == line_increment(l.y1 - l.y0, side_length as int),
            0 <= k <= side_length + 1,
            side_length <= 0x1_0000_0000,
            x_cur == spin(fx_int(l.x0), x_inc, k as nat),
            y_cur == spin(fx_int(l.y0), y_inc, k as nat),
            forall|i: int|
                0 <= i < frame.color@.len() ==> #[trigger] frame.color@[i] == if line_hits_before(
                    l,
                    w,
                    h,
                    k as int,
                    i,
                ) {
                    color
                } else {
                    before[i]
                },
        decreases side_length + 1 - k,
    {
        let px = fixed_to_pixel(x_cur);
        let py = fixed_to_pixel(y_cur);
        let ghost prev = frame.color@;
        render_pixel(frame, px, py, color);
        proof {
            assert(line_point(l, k as nat) == (px as int, py as int));
            assert forall|i: int| 0 <= i < frame.color@.len() implies #[trigger] frame.color@[i]
                == if line_hits_before(l, w, h, k + 1, i) {
                color
            } else {
                before[i]
            } by {
                assert(prev[i] == if line_hits_before(l, w, h, k as int, i) {
                    color
                } else {
                    before[i]
                });
                if in_frame(w, h, px as int, py as int) {
                    lemma_index_in_frame(w, h, px as int, py as int);
                }
                if line_hits(l, w, h, k as int, i) {
                    assert(line_hits_before(l, w, h, k + 1, i));
                } else if line_hits_before(l, w, h, k + 1, i) {
                    let j = choose|j: int| j < k + 1 && #[trigger] line_hits(l, w, h, j, i);
                    assert(j < k);
                    assert(line_hits_before(l, w, h, k as int, i));
                } else {
                    if line_hits_before(l, w, h, k as int, i) {
                        let j = choose|j: int| j < k && #[trigger] line_hits(l, w, h, j, i);
                        assert(line_hits_before(l, w, h, k + 1, i));
                    }
                }
            }
        }
        x_cur = x_cur.plus(x_inc);
        y_cur = y_cur.plus(y_inc);
        k = k + 1;
    }
}

/// `x` lies between `a` and `b`, in either order.
pub open spec fn between(x: int, a: int, b: int) -> bool {
    (a <= x <= b) || (b <= x <= a)
}

/// Paints the pixels of row `y` from `x_from` to `x_to` (in either order) that
/// lie in the frame.
fn draw_span(frame: &mut FrameBuffer, x_from: i32, x_to: i32, y: i32, color: u32)
    requires
        old(frame).wf(),
    ensures
        final(frame).wf(),
        same_depth(*old(frame), *final(frame)),
        forall|i: int|
            0 <= i < final(frame).color@.len() ==> #[trigger] final(frame).color@[i] == if i / (
            old(frame).width as int) == y && between(
                i % (old(frame).width as int),
                x_from as int,
                x_to as int,
            ) {
                color
            } else {
                old(frame).color@[i]
            },
{
    let ghost before = frame.color@;
    let w = frame.width as i64;
    let h = frame.height as i64;
    if y < 0 || y as i64 >= h || w == 0 {
        proof {
            assert forall|i: int| 0 <= i < frame.color@.len() implies #[trigger] frame.color@[i]
                == before[i] && i / (w as int) != y by {
                if w > 0 {
                    vstd::arithmetic::div_mod::lemma_fundamental_div_mod(i, w as int);
                    vstd::arithmetic::div_mod::lemma_mod_bound(i, w as int);
                    if i / (w as int) >= h {
                        assert(i >= h * w) by (nonlinear_arith)
                            requires
                                i / (w as int) >= h,
                                i == w * (i / (w as int)) + i % (w as int),
                                i % (w as int) >= 0,
                                w > 0,
                        ;
                    }
                    if i / (w as int) < 0 {
                        assert(i < 0) by (nonlinear_arith)
                            requires
                                i / (w as int) < 0,
                                i == w * (i / (w as int)) + i % (w as int),
                                i % (w as int) < w,
                                w > 0,
                        ;
                    }
                } else {
                    assert(w * h == 0);
                }
            }
        }
        return;
    }
    let lo0: i64 = if x_from <= x_to { x_from as i64 } else { x_to as i64 };
    let hi0: i64 = if x_from <= x_to { x_to as i64 } else { x_from as i64 };
    let lo: i64 = if lo0 < 0 { 0 } else { lo0 };
    let hi: i64 = if hi0 > w - 1 { w - 1 } else { hi0 };
    let mut x = lo;
    while x <= hi
        invariant
            frame.wf(),
            same_depth(*old(frame), *frame),
            before == old(frame).color@,
            w == frame.width,
            h == frame.height,
            0 <= y < h,
            w > 0,
            0 <= lo <= x,
            hi <= w - 1,
            lo == if lo0 < 0 { 0 } else { lo0 as int },
            hi == if hi0 > w - 1 { w - 1 } else { hi0 as int },
            lo0 == if x_from <= x_to { x_from as int } else { x_to as int },
            hi0 == if x_from <= x_to { x_to as int } else { x_from as int },
            x <= hi + 1 || x == lo,
            forall|i: int|
                0 <= i < frame.color@.len() ==> #[trigger] frame.color@[i] == if i / (w as int) == y
                    && lo <= i % (w as int) < x {
                    color
                } else {
                    before[i]
                },
        decreases hi - x + 1,
    {
        proof {
            lemma_index_in_frame(w as int, h as int, x as int, y as int);
        }
        let ghost idx = pixel_index(w as int, x as int, y as int);
        render_pixel(frame, x as i32, y, color);
        proof {
            assert forall|i: int| 0 <= i < frame.color@.len() implies #[trigger] frame.color@[i]
                == if i / (w as int) == y && lo <= i % (w as int) < x + 1 {
                color
            } else {
                before[i]
            } by {
                if i != idx && i / (w as int) == y && i % (w as int) == x {
                    vstd::arithmetic::div_mod::lemma_fundamental_div_mod(i, w as int);
                }
            }
        }
        x = x + 1;
    }
    proof {
        assert forall|i: int| 0 <= i < frame.color@.len() implies #[trigger] frame.color@[i]
            == if i / (w as int) == y && between(i % (w as int), x_from as int, x_to as int) {
            color
        } else {
            before[i]
        } by {
            vstd::arithmetic::div_mod::lemma_mod_bound(i, w as int);
        }
    }
}

/// The span ends `(x_start, x_end)` of a scanline fill after `k` rows: both
/// start at `start`, each row they move by the inverse slopes (subtracted when
/// the fill runs up the screen), and a span wider than `max_width` pixels is
/// reset to `left_x .. right_x`.
pub open spec fn scan_ends(
    start: Fixed,
    ls: Fixed,
    rs: Fixed,
    left_x: Fixed,
    right_x: Fixed,
    max_width: int,
    rising: bool,
    k: nat,
) -> (Fixed, Fixed)
    decreases k,
{
    if k == 0 {
        (start, start)
    } else {
        let prev = scan_ends(start, ls, rs, left_x, right_x, max_width, rising, (k - 1) as nat);
        let s = if rising { fx_sub(prev.0, ls) } else { fx_add(prev.0, ls) };
        let e = if rising { fx_sub(prev.1, rs) } else { fx_add(prev.1, rs) };
        if pixel_of(fx_sub(e, s)) > max_width {
            (left_x, right_x)
        } else {
            (s, e)
        }
    }
}

/// The base corner with the larger `x` (the second on a tie).
pub open spec fn right_of(p1: IntVec2, p2: IntVec2) -> IntVec2 {
    if p1.x > p2.x { p1 } else { p2 }
}

pub open spec fn left_of(p1: IntVec2, p2: IntVec2) -> IntVec2 {
    if p1.x > p2.x { p2 } else { p1 }
}

/// The span ends of row `k` below the apex of a flat-bottom fill.
pub open spec fn flat_bottom_ends(p0: IntVec2, p1: IntVec2, p2: IntVec2, k: nat) -> (Fixed, Fixed) {
    let l = left_of(p1, p2);
    let r = right_of(p1, p2);
    scan_ends(
        fx_int(p0.x as int),
        inv_slope(p0, l),
        inv_slope(p0, r),
        fx_int(l.x as int),
        fx_int(r.x as int),
        r.x - l.x,
        false,
        k,
    )
}

/// The span ends of row `k` above the apex of a flat-top fill.
pub open spec fn flat_top_ends(p0: IntVec2, p1: IntVec2, p2: IntVec2, k: nat) -> (Fixed, Fixed) {
    let l = left_of(p1, p2);
    let r = right_of(p1, p2);
    scan_ends(
        fx_int(p0.x as int),
        inv_slope(l, p0),
        inv_slope(r, p0),
        fx_int(l.x as int),
        fx_int(r.x as int),
        r.x - l.x,
        true,
        k,
    )
}

/// Pixel `(x, y)` is painted by the flat-bottom fill with apex `p0`: its row
/// lies from `p0.y` to `p2.y` and `x` lies within that row's span.
pub open spec fn flat_bottom_covers(p0: IntVec2, p1: IntVec2, p2: IntVec2, x: int, y: int) -> bool {
    let ends = flat_bottom_ends(p0, p1, p2, (y - p0.y) as nat);
    p0.y <= y <= p2.y && between(x, pixel_of(ends.0) as int, pixel_of(ends.1) as int)
}

/// Pixel `(x, y)` is painted by the flat-top fill with apex `p0`: its row lies
/// from the base up to `p0.y` and `x` lies within that row's span.
pub open spec fn flat_top_covers(p0: IntVec2, p1: IntVec2, p2: IntVec2, x: int, y: int) -> bool {
    flat_top_rows_cover(p0, p1, p2, right_of(p1, p2).y as int, x, y)
}

/// Pixel `(x, y)` is painted by the flat-top fill with apex `p0` when it stops
/// at row `last`: its row lies from `last` up to `p0.y` and `x` lies within that
/// row's span.
pub open spec fn flat_top_rows_cover(p0: IntVec2, p1: IntVec2, p2: IntVec2, last: int, x: int, y: int) -> bool {
    let ends = flat_top_ends(p0, p1, p2, (p0.y - y) as nat);
    last <= y <= p0.y && between(x, pixel_of(ends.0) as int, pixel_of(ends.1) as int)
}

/// Fills a triangle with apex `p0` on top and base `p1 p2` below it, row by row
/// from `p0.y` down to `p2.y`, stepping the span ends by the inverse slopes of
/// the two sides. A span that grows wider than the base (from accumulated
/// rounding) is reset to the base corners.
pub fn fill_flat_bottom_triangle(frame: &mut FrameBuffer, p0: IntVec2, p1: IntVec2, p2: IntVec2, color: u32)
    requires
        old(frame).wf(),
    ensures
        final(frame).wf(),
        same_depth(*old(frame), *final(frame)),
        forall|i: int|
            0 <= i < final(frame).color@.len() ==> #[trigger] final(frame).color@[i] == if flat_bottom_covers(
                p0,
                p1,
                p2,
                i % (old(frame).width as int),
                i / (old(frame).width as int),
            ) {
                color
            } else {
                old(frame).color@[i]
            },
{
    let mut left_point = p1;
    let mut right_point = p2;
    if left_point.x > right_point.x {
        left_point = p2;
        right_point = p1;
    }
    let max_width = right_point.x as i64 - left_point.x as i64;
    let left_slope = get_inv_slope(p0, left_point);
    let right_slope = get_inv_slope(p0, right_point);
    let mut x_start = Fixed::from_int(p0.x as i64);
    let mut x_end = Fixed::from_int(p0.x as i64);
    let ghost w = frame.width as int;
    let ghost before = frame.color@;
    let y_end = p2.y as i64 + 1;
    let mut y = p0.y as i64;
    while y < y_end
        invariant
            frame.wf(),
            same_depth(*old(frame), *frame),
            before == old(frame).color@,
            w == frame.width,
            p0.y <= y <= y_end || y == p0.y,
            y_end == p2.y + 1,
            left_point == left_of(p1, p2),
            right_point == right_of(p1, p2),
            max_width == right_point.x - left_point.x,
            left_slope == inv_slope(p0, left_point),
            right_slope == inv_slope(p0, right_point),
            (x_start, x_end) == flat_bottom_ends(p0, p1, p2, (y - p0.y) as nat),
            forall|i: int|
                0 <= i < frame.color@.len() ==> #[trigger] frame.color@[i] == if p0.y <= i / w < y
                    && flat_bottom_covers(p0, p1, p2, i % w, i / w) {
                    color
                } else {
                    before[i]
                },
        decreases y_end - y,
    {
        let ghost mid = frame.color@;
        draw_span(frame, fixed_to_pixel(x_start), fixed_to_pixel(x_end), y as i32, color);
        proof {
            assert forall|i: int| 0 <= i < frame.color@.len() implies #[trigger] frame.color@[i]
                == if p0.y <= i / w < y + 1 && flat_bottom_covers(p0, p1, p2, i % w, i / w) {
                color
            } else {
                before[i]
            } by {
                assert(mid[i] == if p0.y <= i / w < y && flat_bottom_covers(p0, p1, p2, i % w, i / w) {
                    color
                } else {
                    before[i]
                });
            }
        }
        x_start = x_start.plus(left_slope);
        x_end = x_end.plus(right_slope);
        if fixed_to_pixel(x_end.minus(x_start)) as i64 > max_width {
            x_start = Fixed::from_int(left_point.x as i64);
            x_end = Fixed::from_int(right_point.x as i64);
        }
        proof {
            assert(((y + 1 - p0.y) as nat - 1) as nat == (y - p0.y) as nat);
        }
        y = y + 1;
    }
}

/// Fills the rows from `p0.y` up to row `last` of a triangle with apex `p0` at
/// the bottom and base `p1 p2` above it.
fn fill_flat_top_rows(frame: &mut FrameBuffer, p0: IntVec2, p1: IntVec2, p2: IntVec2, last: i64, color: u32)
    requires
        old(frame).wf(),
        last >= i32::MIN,
    ensures
        final(frame).wf(),
        same_depth(*old(frame), *final(frame)),
        forall|i: int|
            0 <= i < final(frame).color@.len() ==> #[trigger] final(frame).color@[i] == if flat_top_rows_cover(
                p0,
                p1,
                p2,
                last as int,
                i % (old(frame).width as int),
                i / (old(frame).width as int),
            ) {
                color
            } else {
                old(frame).color@[i]
            },
{
    let mut left_point = p1;
    let mut right_point = p2;
    if left_point.x > right_point.x {
        left_point = p2;
        right_point = p1;
    }
    let max_width = right_point.x as i64 - left_point.x as i64;
    let left_slope = get_inv_slope(left_point, p0);
    let right_slope = get_inv_slope(right_point, p0);
    let mut x_start = Fixed::from_int(p0.x as i64);
    let mut x_end = Fixed::from_int(p0.x as i64);
    let ghost w = frame.width as int;
    let ghost before = frame.color@;
    let y_end = last;
    let mut y = p0.y as i64;
    while y >= y_end
        invariant
            frame.wf(),
            same_depth(*old(frame), *frame),
            before == old(frame).color@,
            w == frame.width,
            y_end - 1 <= y <= p0.y || y == p0.y,
            y_end == last,
            last >= i32::MIN,
            left_point == left_of(p1, p2),
            right_point == right_of(p1, p2),
            max_width == right_point.x - left_point.x,
            left_slope == inv_slope(left_point, p0),
            right_slope == inv_slope(right_point, p0),
            (x_start, x_end) == flat_top_ends(p0, p1, p2, (p0.y - y) as nat),
            forall|i: int|
                0 <= i < frame.color@.len() ==> #[trigger] frame.color@[i] == if y < i / w <= p0.y
                    && flat_top_rows_cover(p0, p1, p2, last as int, i % w, i / w) {
                    color
                } else {
                    before[i]
                },
        decreases y - y_end + 1,
    {
        let ghost mid = frame.color@;
        draw_span(frame, fixed_to_pixel(x_start), fixed_to_pixel(x_end), y as i32, color);
        proof {
            assert forall|i: int| 0 <= i < frame.color@.len() implies #[trigger] frame.color@[i]
                == if y - 1 < i / w <= p0.y && flat_top_rows_cover(p0, p1, p2, last as int, i % w, i / w) {
                color
            } else {
                before[i]
            } by {
                assert(mid[i] == if y < i / w <= p0.y && flat_top_rows_cover(p0, p1, p2, last as int, i % w, i / w) {
                    color
                } else {
                    before[i]
                });
            }
        }
        x_start = x_start.minus(left_slope);
        x_end = x_end.minus(right_slope);
        if fixed_to_pixel(x_end.minus(x_start)) as i64 > max_width {
            x_start = Fixed::from_int(left_point.x as i64);
            x_end = Fixed::from_int(right_point.x as i64);
        }
        proof {
            assert(((p0.y - (y - 1)) as nat - 1) as nat == (p0.y - y) as nat);
        }
        y = y - 1;
    }
}

/// Fills a triangle with apex `p0` at the bottom and base `p1 p2` above it, row
/// by row from `p0.y` up to the base, with the same drift guard as
/// `fill_flat_bottom_triangle`.
pub fn fill_flat_top_triangle(frame: &mut FrameBuffer, p0: IntVec2, p1: IntVec2, p2: IntVec2, color: u32)
    requires
        old(frame).wf(),
    ensures
        final(frame).wf(),
        same_depth(*old(frame), *final(frame)),
        forall|i: int|
            0 <= i < final(frame).color@.len() ==> #[trigger] final(frame).color@[i] == if flat_top_covers(
                p0,
                p1,
                p2,
                i % (old(frame).width as int),
                i / (old(frame).width as int),
            ) {
                color
            } else {
                old(frame).color@[i]
            },
{
    let last = if p1.x > p2.x { p1.y } else { p2.y };
    fill_flat_top_rows(frame, p0, p1, p2, last as i64, color);
}

/// The corners ordered top to bottom by three conditional swaps.
pub open spec fn sort_by_y(p0: IntVec2, p1: IntVec2, p2: IntVec2) -> (IntVec2, IntVec2, IntVec2) {
    let m1 = if p2.y < p1.y { p2 } else { p1 };
    let b1 = if p2.y < p1.y { p1 } else { p2 };
    let t2 = if m1.y < p0.y { m1 } else { p0 };
    let m2 = if m1.y < p0.y { p0 } else { m1 };
    let m3 = if b1.y < m2.y { b1 } else { m2 };
    let b3 = if b1.y < m2.y { m2 } else { b1 };
    (t2, m3, b3)
}

fn sort_corners(p0: IntVec2, p1: IntVec2, p2: IntVec2) -> (r: (IntVec2, IntVec2, IntVec2))
    ensures
        r == sort_by_y(p0, p1, p2),
        r.0.y <= r.1.y <= r.2.y,
{
    let mut top_point = p0;
    let mut mid_point = p1;
    let mut bottom_point = p2;
    if bottom_point.y < mid_point.y {
        let t = bottom_point;
        bottom_point = mid_point;
        mid_point = t;
    }
    if mid_point.y < top_point.y {
        let t = mid_point;
        mid_point = top_point;
        top_point = t;
    }
    if bottom_point.y < mid_point.y {
        let t = bottom_point;
        bottom_point = mid_point;
        mid_point = t;
    }
    (top_point, mid_point, bottom_point)
}

/// Sorting the corners by `y` does not depend on the order they come in: every
/// ordering of the three corners gives the same `y` values top to bottom, the
/// same corners in some order, and, when the heights are distinct, exactly the
/// same sorted corners.
pub proof fn lemma_sort_by_y_order_independent(a: IntVec2, b: IntVec2, c: IntVec2)
    ensures
        ({
            let s = sort_by_y(a, b, c);
            let perms = seq![
                sort_by_y(a, b, c),
                sort_by_y(a, c, b),
                sort_by_y(b, a, c),
                sort_by_y(b, c, a),
                sort_by_y(c, a, b),
                sort_by_y(c, b, a),
            ];
            &&& s.0.y <= s.1.y <= s.2.y
            &&& s == (a, b, c) || s == (a, c, b) || s == (b, a, c) || s == (b, c, a) || s == (c, a, b)
                || s == (c, b, a)
            &&& forall|i: int|
                0 <= i < 6 ==> (#[trigger] perms[i]).0.y == s.0.y && perms[i].1.y == s.1.y
                    && perms[i].2.y == s.2.y
            &&& (a.y != b.y && b.y != c.y && a.y != c.y) ==> forall|i: int|
                0 <= i < 6 ==> #[trigger] perms[i] == s
        }),
{
}

/// Pixel `(x, y)` is painted when filling the triangle whose corners, sorted
/// by `y`, are `s`: nothing when all three share a row (the triangle has no
/// area), by the flat-bottom fill when the lower two share a row, by the
/// flat-top fill when the upper two do, and otherwise by the flat-bottom half
/// down to the middle corner's row and the flat-top half from the row below it.
pub open spec fn triangle_covers(s: (IntVec2, IntVec2, IntVec2), x: int, y: int) -> bool {
    if s.0.y == s.2.y {
        false
    } else if s.1.y == s.2.y {
        flat_bottom_covers(s.0, s.1, s.2, x, y)
    } else if s.0.y == s.1.y {
        flat_top_covers(s.2, s.1, s.0, x, y)
    } else {
        let m = midpoint2(s.0, s.1, s.2);
        flat_bottom_covers(s.0, s.1, m, x, y) || flat_top_rows_cover(s.2, s.1, m, s.1.y + 1, x, y)
    }
}

/// In the split case the two halves paint disjoint rows: the upper half ends at
/// the middle corner's row and the lower half starts on the row below it.
pub proof fn lemma_halves_disjoint(s: (IntVec2, IntVec2, IntVec2), x: int, y: int)
    requires
        s.0.y < s.1.y < s.2.y,
    ensures
        !(flat_bottom_covers(s.0, s.1, midpoint2(s.0, s.1, s.2), x, y) && flat_top_rows_cover(
            s.2,
            s.1,
            midpoint2(s.0, s.1, s.2),
            s.1.y + 1,
            x,
            y,
        )),
{
}

/// Every ordering of the three corners fills exactly the same pixels.
pub proof fn lemma_fill_order_independent(a: IntVec2, b: IntVec2, c: IntVec2, x: int, y: int)
    ensures
        triangle_covers(sort_by_y(a, c, b), x, y) == triangle_covers(sort_by_y(a, b, c), x, y),
        triangle_covers(sort_by_y(b, a, c), x, y) == triangle_covers(sort_by_y(a, b, c), x, y),
        triangle_covers(sort_by_y(b, c, a), x, y) == triangle_covers(sort_by_y(a, b, c), x, y),
        triangle_covers(sort_by_y(c, a, b), x, y) == triangle_covers(sort_by_y(a, b, c), x, y),
        triangle_covers(sort_by_y(c, b, a), x, y) == triangle_covers(sort_by_y(a, b, c), x, y),
{
    lemma_sort_by_y_order_independent(a, b, c);
    let s = sort_by_y(a, b, c);
    if s.0.y != s.2.y {
        if s.1.y == s.2.y && s.1.x != s.2.x {
            lemma_flat_base_order_independent(s.0, s.1, s.2, x, y);
        }
        if s.0.y == s.1.y && s.0.x != s.1.x {
            lemma_flat_base_order_independent(s.2, s.1, s.0, x, y);
        }
    }
}

/// Fills a triangle with `color`: sorts the corners by `y`, then fills a flat
/// bottom half and a flat top half split at the height of the middle corner.
pub fn fill_triangle(frame: &mut FrameBuffer, p0: IntVec2, p1: IntVec2, p2: IntVec2, color: u32)
    requires
        old(frame).wf(),
    ensures
        final(frame).wf(),
        same_depth(*old(frame), *final(frame)),
        forall|i: int|
            0 <= i < final(frame).color@.len() ==> #[trigger] final(frame).color@[i] == if triangle_covers(
                sort_by_y(p0, p1, p2),
                i % (old(frame).width as int),
                i / (old(frame).width as int),
            ) {
                color
            } else {
                old(frame).color@[i]
            },
{
    let (top_point, mid_point, bottom_point) = sort_corners(p0, p1, p2);
    let ghost w = frame.width as int;
    if top_point.y == bottom_point.y {
        return;
    }
    if mid_point.y == bottom_point.y {
        fill_flat_bottom_triangle(frame, top_point, mid_point, bottom_point, color);
    } else if top_point.y == mid_point.y {
        fill_flat_top_triangle(frame, bottom_point, mid_point, top_point, color);
    } else {
        let mid_intersect_point = triangle_vec2_midpoint(top_point, mid_point, bottom_point);
        let ghost f0 = frame.color@;
        fill_flat_bottom_triangle(frame, top_point, mid_point, mid_intersect_point, color);
        let ghost f1 = frame.color@;
        fill_flat_top_rows(frame, bottom_point, mid_point, mid_intersect_point, mid_point.y as i64 + 1, color);
        proof {
            assert forall|i: int| 0 <= i < frame.color@.len() implies #[trigger] frame.color@[i]
                == if triangle_covers(sort_by_y(p0, p1, p2), i % w, i / w) {
                color
            } else {
                f0[i]
            } by {
                assert(f1[i] == if flat_bottom_covers(top_point, mid_point, mid_intersect_point, i % w, i / w) {
                    color
                } else {
                    f0[i]
                });
            }
        }
    }
}

/// The depth test: a fragment replaces what a pixel holds only when it is
/// strictly closer.
pub open spec fn depth_step(cur: (Fixed, u32), frag: (Fixed, u32)) -> (Fixed, u32) {
    if frag.0.bits < cur.0.bits { frag } else { cur }
}

/// What a pixel holds after the fragments are tested in order.
pub open spec fn depth_resolve(init: (Fixed, u32), frags: Seq<(Fixed, u32)>) -> (Fixed, u32)
    decreases frags.len(),
{
    if frags.len() == 0 {
        init
    } else {
        depth_step(depth_resolve(init, frags.drop_last()), frags.last())
    }
}

/// After any number of fragments are depth-tested into a pixel, it holds the
/// color of the closest of them (the first one, among equally close ones), if
/// that one is closer than what the pixel held before; otherwise the pixel is
/// unchanged.
pub proof fn lemma_depth_test_keeps_nearest(init: (Fixed, u32), frags: Seq<(Fixed, u32)>)
    ensures
        ({
            let r = depth_resolve(init, frags);
            ||| (r == init && forall|j: int| 0 <= j < frags.len() ==> (#[trigger] frags[j]).0.bits
                >= init.0.bits)
            ||| exists|i: int|
                0 <= i < frags.len() && r == #[trigger] frags[i] && frags[i].0.bits < init.0.bits
                    && (forall|j: int| 0 <= j < frags.len() ==> frags[i].0.bits <= (#[trigger] frags[j]).0.bits)
                    && (forall|j: int| 0 <= j < i ==> frags[i].0.bits < (#[trigger] frags[j]).0.bits)
        }),
    decreases frags.len(),
{
    if frags.len() > 0 {
        let pre = frags.drop_last();
        lemma_depth_test_keeps_nearest(init, pre);
        let r0 = depth_resolve(init, pre);
        let last = frags.last();
        let n = frags.len() - 1;
        assert(forall|j: int| 0 <= j < n ==> pre[j] == frags[j]);
        if r0 == init && forall|j: int| 0 <= j < pre.len() ==> (#[trigger] pre[j]).0.bits >= init.0.bits {
            if last.0.bits < init.0.bits {
                assert(frags[n] == last);
                assert forall|j: int| 0 <= j < frags.len() implies last.0.bits <= (#[trigger] frags[j]).0.bits by {
                    if j < n {
                        assert(pre[j] == frags[j]);
                    }
                }
                assert forall|j: int| 0 <= j < n implies last.0.bits < (#[trigger] frags[j]).0.bits by {
                    assert(pre[j] == frags[j]);
                }
            } else {
                assert forall|j: int| 0 <= j < frags.len() implies (#[trigger] frags[j]).0.bits >= init.0.bits by {
                    if j < n {
                        assert(pre[j] == frags[j]);
                    }
                }
            }
        } else {
            let i = choose|i: int|
                0 <= i < pre.len() && r0 == #[trigger] pre[i] && pre[i].0.bits < init.0.bits
                    && (forall|j: int| 0 <= j < pre.len() ==> pre[i].0.bits <= (#[trigger] pre[j]).0.bits)
                    && (forall|j: int| 0 <= j < i ==> pre[i].0.bits < (#[trigger] pre[j]).0.bits);
            assert(frags[i] == pre[i]);
            if last.0.bits < r0.0.bits {
                assert(frags[n] == last);
                assert forall|j: int| 0 <= j < frags.len() implies last.0.bits <= (#[trigger] frags[j]).0.bits by {
                    if j < n {
                        assert(pre[j] == frags[j]);
                    }
                }
                assert forall|j: int| 0 <= j < n implies last.0.bits < (#[trigger] frags[j]).0.bits by {
                    assert(pre[j] == frags[j]);
                }
            } else {
                assert forall|j: int| 0 <= j < frags.len() implies frags[i].0.bits <= (#[trigger] frags[j]).0.bits by {
                    if j < n {
                        assert(pre[j] == frags[j]);
                    }
                }
                assert forall|j: int| 0 <= j < i implies frags[i].0.bits < (#[trigger] frags[j]).0.bits by {
                    assert(pre[j] == frags[j]);
                }
            }
        }
    }
}

/// `|c * size|`, truncated and saturated into `u32`: a texel coordinate.
pub open spec fn texel_coord(c: Fixed, size: u32) -> int {
    let v = fx_mul(c, fx_int(size as int));
    let a = if v.bits < 0 { fx_neg(v) } else { v };
    let t = fx_trunc(a);
    if t > u32::MAX { u32::MAX as int } else { t }
}

/// The texture's pixel at coordinate `(u, v)`: scaled by the texture's size,
/// truncated, and wrapped into its pixel count.
pub open spec fn sample(texture: &Texture, uv: TextureUV) -> u32 {
    let tx = texel_coord(uv.u, texture.width);
    let ty = texel_coord(uv.v, texture.height);
    texture.data@[(ty * texture.width + tx) % (texture.width * texture.height) as int]
}

/// The fragment that a textured triangle (screen-space corners with their clip
/// `w`) gives at pixel `p`: the perspective-correct texture sample at depth
/// `1 - interpolated 1/w`. `None` where the triangle is degenerate in pixels or
/// a divisor is zero.
pub open spec fn texel_fragment(
    p: IntVec2,
    p0: Vec4,
    p1: Vec4,
    p2: Vec4,
    uv0: TextureUV,
    uv1: TextureUV,
    uv2: TextureUV,
    texture: &Texture,
) -> Option<(Fixed, u32)> {
    match barycentric(pixel4(p0), pixel4(p1), pixel4(p2), p) {
        Some(wt) => match perspective_uv(wt, p0, p1, p2, uv0, uv1, uv2) {
            Some(uv) => Some(
                (fx_sub(Fixed { bits: 65536 }, reciprocal_w(wt, p0, p1, p2)), sample(texture, uv)),
            ),
            None => None,
        },
        None => None,
    }
}

/// Pixel `p` of `b` is the depth test of `frag` against pixel `p` of `a`, and
/// every other pixel is unchanged.
pub open spec fn depth_tested(a: FrameBuffer, b: FrameBuffer, p: IntVec2, frag: Option<(Fixed, u32)>) -> bool {
    let w = a.width as int;
    let idx = pixel_index(w, p.x as int, p.y as int);
    &&& b.width == a.width
    &&& b.height == a.height
    &&& if frag is Some && in_frame(w, a.height as int, p.x as int, p.y as int) {
        let r = depth_step((a.depth@[idx], a.color@[idx]), frag->0);
        &&& b.depth@ == a.depth@.update(idx, r.0)
        &&& b.color@ == a.color@.update(idx, r.1)
    } else {
        b.depth@ == a.depth@ && b.color@ == a.color@
    }
}

/// Depth only ever decreases, and a pixel's color changes only where its depth
/// decreased.
pub open spec fn depth_respected(a: FrameBuffer, b: FrameBuffer) -> bool {
    &&& a.width == b.width
    &&& a.height == b.height
    &&& a.color@.len() == b.color@.len()
    &&& a.depth@.len() == b.depth@.len()
    &&& forall|i: int|
        0 <= i < a.depth@.len() ==> (#[trigger] b.depth@[i]).bits <= a.depth@[i].bits && (
        b.depth@[i] == a.depth@[i] ==> b.color@[i] == a.color@[i])
}

proof fn lemma_depth_tested_respects(a: FrameBuffer, b: FrameBuffer, p: IntVec2, frag: Option<(Fixed, u32)>)
    requires
        a.wf(),
        depth_tested(a, b, p, frag),
    ensures
        b.wf(),
        depth_respected(a, b),
{
    if frag is Some && in_frame(a.width as int, a.height as int, p.x as int, p.y as int) {
        lemma_index_in_frame(a.width as int, a.height as int, p.x as int, p.y as int);
    }
}

fn texel_coordinate(c: Fixed, size: u32) -> (r: u64)
    ensures
        r == texel_coord(c, size),
{
    let v = c.times(Fixed::from_int(size as i64));
    let a = if v.bits < 0 { v.neg() } else { v };
    let t = a.trunc();
    proof {
        assert(a.bits >= 0);
    }
    if t > u32::MAX as i64 { u32::MAX as u64 } else { t as u64 }
}

fn sample_texture(texture: &Texture, uv: TextureUV) -> (r: u32)
    requires
        texture.wf(),
    ensures
        r == sample(texture, uv),
{
    let tx = texel_coordinate(uv.u, texture.width);
    let ty = texel_coordinate(uv.v, texture.height);
    let count = texture.width as u64 * texture.height as u64;
    assert(count > 0) by (nonlinear_arith)
        requires
            count == texture.width * texture.height,
            texture.width > 0,
            texture.height > 0,
    ;
    assert(ty * texture.width <= 0xFFFF_FFFF * 0xFFFF_FFFF) by (nonlinear_arith)
        requires
            ty <= 0xFFFF_FFFF,
            texture.width <= 0xFFFF_FFFF,
    ;
    let linear = ty as u128 * texture.width as u128 + tx as u128;
    let index = (linear % count as u128) as usize;
    texture.data[index]
}

/// Shades pixel `p` of a textured triangle: perspective-correct texture lookup,
/// then the depth test against the frame's depth buffer.
pub fn render_texel(
    frame: &mut FrameBuffer,
    p: IntVec2,
    p0: Vec4,
    p1: Vec4,
    p2: Vec4,
    uv0: TextureUV,
    uv1: TextureUV,
    uv2: TextureUV,
    texture: &Texture,
)
    requires
        old(frame).wf(),
        texture.wf(),
    ensures
        final(frame).wf(),
        depth_tested(*old(frame), *final(frame), p, texel_fragment(p, p0, p1, p2, uv0, uv1, uv2, texture)),
        depth_respected(*old(frame), *final(frame)),
{
    let ghost frag = texel_fragment(p, p0, p1, p2, uv0, uv1, uv2, texture);
    let weights = barycentric_weights(IntVec2::from(p0), IntVec2::from(p1), IntVec2::from(p2), p);
    let wt = match weights {
        Some(wt) => wt,
        None => return,
    };
    let uv = match interpolate_uv(wt, p0, p1, p2, uv0, uv1, uv2) {
        Some(uv) => uv,
        None => return,
    };
    let interpolated_reciprocal_w = interpolate_reciprocal_w(wt, p0, p1, p2);
    let depth = Fixed::one().minus(interpolated_reciprocal_w);
    let texel = sample_texture(texture, uv);
    assert(frag == Some((depth, texel)));
    let width = frame.width as i64;
    let height = frame.height as i64;
    let len = frame.color.len();
    if (p.x as i64) < width && p.x >= 0 && p.y >= 0 && (p.y as i64) < height {
        proof {
            lemma_index_in_frame(width as int, height as int, p.x as int, p.y as int);
            assert(p.y * width <= p.y * width + p.x < len);
        }
        let index = p.y as usize * frame.width as usize + p.x as usize;
        if depth.bits < frame.depth[index].bits {
            frame.depth.set(index, depth);
            frame.color.set(index, texel);
        }
        proof {
            let r = depth_step((old(frame).depth@[index as int], old(frame).color@[index as int]), (depth, texel));
            assert(frame.depth@ =~= old(frame).depth@.update(index as int, r.0));
            assert(frame.color@ =~= old(frame).color@.update(index as int, r.1));
        }
    }
    proof {
        lemma_depth_tested_respects(*old(frame), *frame, p, frag);
    }
}

/// The depth and color of pixel `i`.
pub open spec fn pix(f: FrameBuffer, i: int) -> (Fixed, u32) {
    (f.depth@[i], f.color@[i])
}

/// What a pixel holds after a fragment, if there is one, is depth-tested into it.
pub open spec fn shade(cur: (Fixed, u32), frag: Option<(Fixed, u32)>) -> (Fixed, u32) {
    match frag {
        Some(f) => depth_step(cur, f),
        None => cur,
    }
}

pub proof fn lemma_depth_respected_chain(a: FrameBuffer, b: FrameBuffer, c: FrameBuffer)
    requires
        depth_respected(a, b),
        depth_respected(b, c),
    ensures
        depth_respected(a, c),
{
    assert forall|i: int| 0 <= i < a.depth@.len() implies (#[trigger] c.depth@[i]).bits
        <= a.depth@[i].bits && (c.depth@[i] == a.depth@[i] ==> c.color@[i] == a.color@[i]) by {
        assert(b.depth@[i].bits <= a.depth@[i].bits);
        assert(c.depth@[i].bits <= b.depth@[i].bits);
        if c.depth@[i] == a.depth@[i] {
            assert(b.depth@[i] == a.depth@[i]);
        }
    }
}

/// The fragment of a textured triangle (`p0 p1 p2` with their texture
/// coordinates) at pixel `(x, y)`.
pub open spec fn fragment_at(
    x: int,
    y: int,
    p0: Vec4,
    p1: Vec4,
    p2: Vec4,
    uv0: TextureUV,
    uv1: TextureUV,
    uv2: TextureUV,
    texture: &Texture,
) -> Option<(Fixed, u32)> {
    texel_fragment(IntVec2 { x: x as i32, y: y as i32 }, p0, p1, p2, uv0, uv1, uv2, texture)
}

/// Shades pixels `x_from ..= x_to` of row `y` of a textured triangle.
fn shade_row(
    frame: &mut FrameBuffer,
    y: i32,
    x_from: i32,
    x_to: i32,
    p0: Vec4,
    p1: Vec4,
    p2: Vec4,
    uv0: TextureUV,
    uv1: TextureUV,
    uv2: TextureUV,
    texture: &Texture,
)
    requires
        old(frame).wf(),
        texture.wf(),
    ensures
        final(frame).wf(),
        depth_respected(*old(frame), *final(frame)),
        forall|i: int|
            0 <= i < final(frame).color@.len() ==> #[trigger] pix(*final(frame), i) == if i / (
            old(frame).width as int) == y && x_from <= i % (old(frame).width as int) <= x_to {
                shade(
                    pix(*old(frame), i),
                    fragment_at(i % (old(frame).width as int), y as int, p0, p1, p2, uv0, uv1, uv2, texture),
                )
            } else {
                pix(*old(frame), i)
            },
{
    let ghost w = frame.width as int;
    let ghost h = frame.height as int;
    let end = x_to as i64 + 1;
    let mut x = x_from as i64;
    while x < end
        invariant
            frame.wf(),
            texture.wf(),
            w == frame.width,
            h == frame.height,
            depth_respected(*old(frame), *frame),
            x >= x_from,
            end == x_to + 1,
            x <= end || x == x_from,
            forall|i: int|
                0 <= i < frame.color@.len() ==> #[trigger] pix(*frame, i) == if i / w == y && x_from
                    <= i % w < x {
                    shade(pix(*old(frame), i), fragment_at(i % w, y as int, p0, p1, p2, uv0, uv1, uv2, texture))
                } else {
                    pix(*old(frame), i)
                },
        decreases end - x,
    {
        let ghost mid = *frame;
        let p = IntVec2 { x: x as i32, y };
        render_texel(frame, p, p0, p1, p2, uv0, uv1, uv2, texture);
        proof {
            if in_frame(w, h, p.x as int, p.y as int) {
                lemma_index_in_frame(w, h, p.x as int, p.y as int);
            }
            lemma_depth_respected_chain(*old(frame), mid, *frame);
            assert forall|i: int| 0 <= i < frame.color@.len() implies #[trigger] pix(*frame, i)
                == if i / w == y && x_from <= i % w < x + 1 {
                shade(pix(*old(frame), i), fragment_at(i % w, y as int, p0, p1, p2, uv0, uv1, uv2, texture))
            } else {
                pix(*old(frame), i)
            } by {
                assert(pix(mid, i) == if i / w == y && x_from <= i % w < x {
                    shade(pix(*old(frame), i), fragment_at(i % w, y as int, p0, p1, p2, uv0, uv1, uv2, texture))
                } else {
                    pix(*old(frame), i)
                });
                if in_frame(w, h, p.x as int, p.y as int) && i == pixel_index(w, p.x as int, p.y as int) {
                } else {
                    if i / w == y && i % w == x {
                        vstd::arithmetic::div_mod::lemma_fundamental_div_mod(i, w);
                        vstd::arithmetic::div_mod::lemma_mod_bound(i, w);
                        assert(i == pixel_index(w, p.x as int, p.y as int));
                        assert(0 <= i / w) by (nonlinear_arith)
                            requires
                                i == w * (i / w) + i % w,
                                0 <= i,
                                0 <= i % w < w,
                        ;
                        assert(i / w < h) by (nonlinear_arith)
                            requires
                                i == w * (i / w) + i % w,
                                i < w * h,
                                0 <= i % w < w,
                        ;
                    }
                    assert(pix(*frame, i) == pix(mid, i));
                }
            }
        }
        x = x + 1;
    }
}

/// The base corner with the larger `x` (the second on a tie), with its texture
/// coordinate.
pub open spec fn right4(p1: Vec4, p2: Vec4, uv1: TextureUV, uv2: TextureUV) -> (Vec4, TextureUV) {
    if p1.x.bits > p2.x.bits { (p1, uv1) } else { (p2, uv2) }
}

pub open spec fn left4(p1: Vec4, p2: Vec4, uv1: TextureUV, uv2: TextureUV) -> (Vec4, TextureUV) {
    if p1.x.bits > p2.x.bits { (p2, uv2) } else { (p1, uv1) }
}

/// What pixel `(x, y)` holds after a textured flat triangle is shaded over
/// `cur`: the apex `p0` is on top (`rising` false) or at the bottom (`rising`
/// true), the rows run from the apex's row to the base's, and each row's span
/// runs from `x_start` to `x_end` as `scan_ends` steps them; a covered pixel
/// gets its fragment depth-tested.
#[verifier::opaque]
pub open spec fn flat_textured(
    cur: (Fixed, u32),
    x: int,
    y: int,
    p0: Vec4,
    p1: Vec4,
    p2: Vec4,
    uv0: TextureUV,
    uv1: TextureUV,
    uv2: TextureUV,
    texture: &Texture,
    rising: bool,
) -> (Fixed, u32) {
    let l = left4(p1, p2, uv1, uv2);
    let r = right4(p1, p2, uv1, uv2);
    let apex_row = pixel_of(p0.y) as int;
    let ls = if rising { inv_slope(pixel4(l.0), pixel4(p0)) } else { inv_slope(pixel4(p0), pixel4(l.0)) };
    let rs = if rising { inv_slope(pixel4(r.0), pixel4(p0)) } else { inv_slope(pixel4(p0), pixel4(r.0)) };
    let k = if rising { apex_row - y } else { y - apex_row };
    let ends = scan_ends(p0.x, ls, rs, l.0.x, r.0.x, pixel_of(r.0.x) - pixel_of(l.0.x), rising, k as nat);
    let in_rows = if rising {
        pixel_of(r.0.y) <= y <= apex_row
    } else {
        apex_row <= y <= pixel_of(p2.y)
    };
    if in_rows && pixel_of(ends.0) <= x <= pixel_of(ends.1) {
        shade(cur, fragment_at(x, y, p0, l.0, r.0, uv0, l.1, r.1, texture))
    } else {
        cur
    }
}

/// Rasterizes a textured triangle with apex `p0` on top and base `p1 p2`, row by
/// row from the apex down, shading each pixel with `render_texel`.
pub fn fill_flat_bottom_triangle_with_texture(
    frame: &mut FrameBuffer,
    p0: Vec4,
    p1: Vec4,
    p2: Vec4,
    texture_uv0: TextureUV,
    texture_uv1: TextureUV,
    texture_uv2: TextureUV,
    texture: &Texture,
)
    requires
        old(frame).wf(),
        texture.wf(),
    ensures
        final(frame).wf(),
        depth_respected(*old(frame), *final(frame)),
        forall|i: int|
            0 <= i < final(frame).color@.len() ==> #[trigger] pix(*final(frame), i) == flat_textured(
                pix(*old(frame), i),
                i % (old(frame).width as int),
                i / (old(frame).width as int),
                p0,
                p1,
                p2,
                texture_uv0,
                texture_uv1,
                texture_uv2,
                texture,
                false,
            ),
{
    proof {
        reveal(flat_textured);
    }
    let mut left_point = p1;
    let mut left_point_uv = texture_uv1;
    let mut right_point = p2;
    let mut right_point_uv = texture_uv2;
    if left_point.x.bits > right_point.x.bits {
        left_point = p2;
        left_point_uv = texture_uv2;
        right_point = p1;
        right_point_uv = texture_uv1;
    }
    let max_width = fixed_to_pixel(right_point.x) as i64 - fixed_to_pixel(left_point.x) as i64;
    let left_slope = get_inv_slope(IntVec2::from(p0), IntVec2::from(left_point));
    let right_slope = get_inv_slope(IntVec2::from(p0), IntVec2::from(right_point));
    let mut x_start = p0.x;
    let mut x_end = p0.x;
    let ghost w = frame.width as int;
    let y_start = fixed_to_pixel(p0.y) as i64;
    let y_end = fixed_to_pixel(p2.y) as i64 + 1;
    let mut y = y_start;
    while y < y_end
        invariant
            frame.wf(),
            texture.wf(),
            w == frame.width,
            depth_respected(*old(frame), *frame),
            y_start == pixel_of(p0.y),
            y_end == pixel_of(p2.y) + 1,
            y >= y_start,
            y <= y_end || y == y_start,
            (left_point, left_point_uv) == left4(p1, p2, texture_uv1, texture_uv2),
            (right_point, right_point_uv) == right4(p1, p2, texture_uv1, texture_uv2),
            max_width == pixel_of(right_point.x) - pixel_of(left_point.x),
            left_slope == inv_slope(pixel4(p0), pixel4(left_point)),
            right_slope == inv_slope(pixel4(p0), pixel4(right_point)),
            (x_start, x_end) == scan_ends(
                p0.x,
                left_slope,
                right_slope,
                left_point.x,
                right_point.x,
                max_width as int,
                false,
                (y - y_start) as nat,
            ),
            forall|i: int|
                0 <= i < frame.color@.len() ==> #[trigger] pix(*frame, i) == if i / w < y {
                    flat_textured(pix(*old(frame), i), i % w, i / w, p0, p1, p2, texture_uv0, texture_uv1, texture_uv2, texture, false)
                } else {
                    pix(*old(frame), i)
                },
        decreases y_end - y,
    {
        let ghost mid = *frame;
        shade_row(
            frame,
            y as i32,
            fixed_to_pixel(x_start),
            fixed_to_pixel(x_end),
            p0,
            left_point,
            right_point,
            texture_uv0,
            left_point_uv,
            right_point_uv,
            texture,
        );
        proof {
            reveal(flat_textured);
            lemma_depth_respected_chain(*old(frame), mid, *frame);
            assert forall|i: int| 0 <= i < frame.color@.len() implies #[trigger] pix(*frame, i)
                == if i / w < y + 1 {
                flat_textured(pix(*old(frame), i), i % w, i / w, p0, p1, p2, texture_uv0, texture_uv1, texture_uv2, texture, false)
            } else {
                pix(*old(frame), i)
            } by {
                assert(pix(mid, i) == if i / w < y {
                    flat_textured(pix(*old(frame), i), i % w, i / w, p0, p1, p2, texture_uv0, texture_uv1, texture_uv2, texture, false)
                } else {
                    pix(*old(frame), i)
                });
            }
        }
        x_start = x_start.plus(left_slope);
        x_end = x_end.plus(right_slope);
        if fixed_to_pixel(x_end.minus(x_start)) as i64 > max_width {
            x_start = left_point.x;
            x_end = right_point.x;
        }
        proof {
            assert(((y + 1 - y_start) as nat - 1) as nat == (y - y_start) as nat);
        }
        y = y + 1;
    }
    proof {
        assert forall|i: int| 0 <= i < frame.color@.len() implies #[trigger] pix(*frame, i)
            == flat_textured(pix(*old(frame), i), i % w, i / w, p0, p1, p2, texture_uv0, texture_uv1, texture_uv2, texture, false) by {
        }
    }
}

/// Rasterizes a textured triangle with apex `p0` at the bottom and base `p1 p2`
/// above it, row by row from the apex up.
pub fn fill_flat_top_triangle_with_texture(
    frame: &mut FrameBuffer,
    p0: Vec4,
    p1: Vec4,
    p2: Vec4,
    texture_uv0: TextureUV,
    texture_uv1: TextureUV,
    texture_uv2: TextureUV,
    texture: &Texture,
)
    requires
        old(frame).wf(),
        texture.wf(),
    ensures
        final(frame).wf(),
        depth_respected(*old(frame), *final(frame)),
        forall|i: int|
            0 <= i < final(frame).color@.len() ==> #[trigger] pix(*final(frame), i) == flat_textured(
                pix(*old(frame), i),
                i % (old(frame).width as int),
                i / (old(frame).width as int),
                p0,
                p1,
                p2,
                texture_uv0,
                texture_uv1,
                texture_uv2,
                texture,
                true,
            ),
{
    proof {
        reveal(flat_textured);
    }
    let mut left_point = p1;
    let mut left_point_uv = texture_uv1;
    let mut right_point = p2;
    let mut right_point_uv = texture_uv2;
    if left_point.x.bits > right_point.x.bits {
        left_point = p2;
        left_point_uv = texture_uv2;
        right_point = p1;
        right_point_uv = texture_uv1;
    }
    let max_width = fixed_to_pixel(right_point.x) as i64 - fixed_to_pixel(left_point.x) as i64;
    let left_slope = get_inv_slope(IntVec2::from(left_point), IntVec2::from(p0));
    let right_slope = get_inv_slope(IntVec2::from(right_point), IntVec2::from(p0));
    let mut x_start = p0.x;
    let mut x_end = p0.x;
    let ghost w = frame.width as int;
    let y_start = fixed_to_pixel(p0.y) as i64;
    let y_end = fixed_to_pixel(right_point.y) as i64;
    let mut y = y_start;
    while y >= y_end
        invariant
            frame.wf(),
            texture.wf(),
            w == frame.width,
            depth_respected(*old(frame), *frame),
            y_start == pixel_of(p0.y),
            y_end == pixel_of(right_point.y),
            y <= y_start,
            y >= y_end - 1 || y == y_start,
            (left_point, left_point_uv) == left4(p1, p2, texture_uv1, texture_uv2),
            (right_point, right_point_uv) == right4(p1, p2, texture_uv1, texture_uv2),
            max_width == pixel_of(right_point.x) - pixel_of(left_point.x),
            left_slope == inv_slope(pixel4(left_point), pixel4(p0)),
            right_slope == inv_slope(pixel4(right_point), pixel4(p0)),
            (x_start, x_end) == scan_ends(
                p0.x,
                left_slope,
                right_slope,
                left_point.x,
                right_point.x,
                max_width as int,
                true,
                (y_start - y) as nat,
            ),
            forall|i: int|
                0 <= i < frame.color@.len() ==> #[trigger] pix(*frame, i) == if i / w > y {
                    flat_textured(pix(*old(frame), i), i % w, i / w, p0, p1, p2, texture_uv0, texture_uv1, texture_uv2, texture, true)
                } else {
                    pix(*old(frame), i)
                },
        decreases y - y_end + 1,
    {
        let ghost mid = *frame;
        shade_row(
            frame,
            y as i32,
            fixed_to_pixel(x_start),
            fixed_to_pixel(x_end),
            p0,
            left_point,
            right_point,
            texture_uv0,
            left_point_uv,
            right_point_uv,
            texture,
        );
        proof {
            reveal(flat_textured);
            lemma_depth_respected_chain(*old(frame), mid, *frame);
            assert forall|i: int| 0 <= i < frame.color@.len() implies #[trigger] pix(*frame, i)
                == if i / w > y - 1 {
                flat_textured(pix(*old(frame), i), i % w, i / w, p0, p1, p2, texture_uv0, texture_uv1, texture_uv2, texture, true)
            } else {
                pix(*old(frame), i)
            } by {
                assert(pix(mid, i) == if i / w > y {
                    flat_textured(pix(*old(frame), i), i % w, i / w, p0, p1, p2, texture_uv0, texture_uv1, texture_uv2, texture, true)
                } else {
                    pix(*old(frame), i)
                });
            }
        }
        x_start = x_start.minus(left_slope);
        x_end = x_end.minus(right_slope);
        if fixed_to_pixel(x_end.minus(x_start)) as i64 > max_width {
            x_start = left_point.x;
            x_end = right_point.x;
        }
        proof {
            assert(((y_start - (y - 1)) as nat - 1) as nat == (y_start - y) as nat);
        }
        y = y - 1;
    }
    proof {
        assert forall|i: int| 0 <= i < frame.color@.len() implies #[trigger] pix(*frame, i)
            == flat_textured(pix(*old(frame), i), i % w, i / w, p0, p1, p2, texture_uv0, texture_uv1, texture_uv2, texture, true) by {
        }
    }
}

/// The corners of a textured triangle with their texture coordinates, ordered
/// top to bottom by three conditional swaps.
pub open spec fn sort_textured(
    p0: Vec4,
    p1: Vec4,
    p2: Vec4,
    uv0: TextureUV,
    uv1: TextureUV,
    uv2: TextureUV,
) -> ((Vec4, TextureUV), (Vec4, TextureUV), (Vec4, TextureUV)) {
    let a = (p0, uv0);
    let b = (p1, uv1);
    let c = (p2, uv2);
    let t1 = if a.0.y.bits > b.0.y.bits { b } else { a };
    let m1 = if a.0.y.bits > b.0.y.bits { a } else { b };
    let m2 = if m1.0.y.bits > c.0.y.bits { c } else { m1 };
    let b2 = if m1.0.y.bits > c.0.y.bits { m1 } else { c };
    let t3 = if t1.0.y.bits > m2.0.y.bits { m2 } else { t1 };
    let m3 = if t1.0.y.bits > m2.0.y.bits { t1 } else { m2 };
    (t3, m3, b2)
}

/// What pixel `(x, y)` holds after the textured triangle whose corners, sorted
/// by `y`, are `s` is shaded over `cur`: one flat half when two corners share a
/// row, otherwise the flat-bottom half and then the flat-top half split at the
/// middle corner's row; nothing when the split point's texture coordinate
/// cannot be interpolated.
pub open spec fn textured_triangle(
    cur: (Fixed, u32),
    x: int,
    y: int,
    s: ((Vec4, TextureUV), (Vec4, TextureUV), (Vec4, TextureUV)),
    texture: &Texture,
) -> (Fixed, u32) {
    let (t, m, b) = s;
    if m.0.y == b.0.y {
        flat_textured(cur, x, y, t.0, m.0, b.0, t.1, m.1, b.1, texture, false)
    } else if t.0.y == m.0.y {
        flat_textured(cur, x, y, b.0, m.0, t.0, b.1, m.1, t.1, texture, true)
    } else {
        match midpoint_uv(t.0, m.0, b.0, t.1, m.1, b.1) {
            Some(muv) => {
                let mi = midpoint4(t.0, m.0, b.0);
                let upper = flat_textured(cur, x, y, t.0, m.0, mi, t.1, m.1, muv, texture, false);
                flat_textured(upper, x, y, b.0, m.0, mi, b.1, m.1, muv, texture, true)
            },
            None => cur,
        }
    }
}

fn sort_textured_corners(
    p0: Vec4,
    p1: Vec4,
    p2: Vec4,
    uv0: TextureUV,
    uv1: TextureUV,
    uv2: TextureUV,
) -> (r: ((Vec4, TextureUV), (Vec4, TextureUV), (Vec4, TextureUV)))
    ensures
        r == sort_textured(p0, p1, p2, uv0, uv1, uv2),
        r.0.0.y.bits <= r.1.0.y.bits <= r.2.0.y.bits,
{
    let mut top = (p0, uv0);
    let mut mid = (p1, uv1);
    let mut bottom = (p2, uv2);
    if top.0.y.bits > mid.0.y.bits {
        let t = top;
        top = mid;
        mid = t;
    }
    if mid.0.y.bits > bottom.0.y.bits {
        let t = mid;
        mid = bottom;
        bottom = t;
    }
    if top.0.y.bits > mid.0.y.bits {
        let t = top;
        top = mid;
        mid = t;
    }
    (top, mid, bottom)
}

/// Rasterizes a textured triangle given in screen space with its clip `w`:
/// sorts the corners by `y` (with their texture coordinates), then fills a flat
/// bottom half and a flat top half split at the middle corner's height, with
/// the split point's texture coordinate interpolated with perspective
/// correction. A triangle whose split point cannot be interpolated is skipped.
pub fn fill_triangle_with_texture(
    frame: &mut FrameBuffer,
    p0: Vec4,
    p1: Vec4,
    p2: Vec4,
    texture_uv0: TextureUV,
    texture_uv1: TextureUV,
    texture_uv2: TextureUV,
    texture: &Texture,
)
    requires
        old(frame).wf(),
        texture.wf(),
    ensures
        final(frame).wf(),
        depth_respected(*old(frame), *final(frame)),
        forall|i: int|
            0 <= i < final(frame).color@.len() ==> #[trigger] pix(*final(frame), i) == textured_triangle(
                pix(*old(frame), i),
                i % (old(frame).width as int),
                i / (old(frame).width as int),
                sort_textured(p0, p1, p2, texture_uv0, texture_uv1, texture_uv2),
                texture,
            ),
{
    let ghost w = frame.width as int;
    let (top, mid, bottom) = sort_textured_corners(p0, p1, p2, texture_uv0, texture_uv1, texture_uv2);
    let (top_point, top_point_texture) = top;
    let (mid_point, mid_point_texture) = mid;
    let (bottom_point, bottom_point_texture) = bottom;
    if mid_point.y.bits == bottom_point.y.bits {
        fill_flat_bottom_triangle_with_texture(
            frame,
            top_point,
            mid_point,
            bottom_point,
            top_point_texture,
            mid_point_texture,
            bottom_point_texture,
            texture,
        );
    } else if top_point.y.bits == mid_point.y.bits {
        fill_flat_top_triangle_with_texture(
            frame,
            bottom_point,
            mid_point,
            top_point,
            bottom_point_texture,
            mid_point_texture,
            top_point_texture,
            texture,
        );
    } else {
        let mid_intersect_point = triangle_vec4_midpoint(top_point, mid_point, bottom_point);
        let mid_intersect_uv = triangle_midpoint_uv(
            top_point,
            mid_point,
            bottom_point,
            top_point_texture,
            mid_point_texture,
            bottom_point_texture,
        );
        if let Some(mid_uv) = mid_intersect_uv {
            let ghost f0 = *frame;
            fill_flat_bottom_triangle_with_texture(
                frame,
                top_point,
                mid_point,
                mid_intersect_point,
                top_point_texture,
                mid_point_texture,
                mid_uv,
                texture,
            );
            let ghost f1 = *frame;
            fill_flat_top_triangle_with_texture(
                frame,
                bottom_point,
                mid_point,
                mid_intersect_point,
                bottom_point_texture,
                mid_point_texture,
                mid_uv,
                texture,
            );
            proof {
                lemma_depth_respected_chain(f0, f1, *frame);
                assert forall|i: int| 0 <= i < frame.color@.len() implies #[trigger] pix(*frame, i)
                    == textured_triangle(
                    pix(f0, i),
                    i % w,
                    i / w,
                    sort_textured(p0, p1, p2, texture_uv0, texture_uv1, texture_uv2),
                    texture,
                ) by {
                    assert(pix(f1, i) == flat_textured(pix(f0, i), i % w, i / w, top_point, mid_point, mid_intersect_point, top_point_texture, mid_point_texture, mid_uv, texture, false));
                }
            }
        }
    }
}

/// Writes a fragment at pixel `p` if it lies in the frame and passes the depth
/// test.
pub fn write_fragment(frame: &mut FrameBuffer, p: IntVec2, depth: Fixed, color: u32)
    requires
        old(frame).wf(),
    ensures
        final(frame).wf(),
        depth_tested(*old(frame), *final(frame), p, Some((depth, color))),
        depth_respected(*old(frame), *final(frame)),
{
    let width = frame.width as i64;
    let height = frame.height as i64;
    let len = frame.color.len();
    if (p.x as i64) < width && p.x >= 0 && p.y >= 0 && (p.y as i64) < height {
        proof {
            lemma_index_in_frame(width as int, height as int, p.x as int, p.y as int);
            assert(p.y * width <= p.y * width + p.x < len);
        }
        let index = p.y as usize * frame.width as usize + p.x as usize;
        if depth.bits < frame.depth[index].bits {
            frame.depth.set(index, depth);
            frame.color.set(index, color);
        }
        proof {
            let r = depth_step((old(frame).depth@[index as int], old(frame).color@[index as int]), (depth, color));
            assert(frame.depth@ =~= old(frame).depth@.update(index as int, r.0));
            assert(frame.color@ =~= old(frame).color@.update(index as int, r.1));
        }
    }
    proof {
        lemma_depth_tested_respects(*old(frame), *frame, p, Some((depth, color)));
    }
}

/// The line from `a` to `b`, at their truncated pixel positions.
pub open spec fn line_of(a: Vec2, b: Vec2) -> LineSpec {
    LineSpec { x0: pixel_of(a.x) as int, y0: pixel_of(a.y) as int, x1: pixel_of(b.x) as int, y1: pixel_of(b.y) as int }
}

/// `render_line` from `a` to `b` paints pixel `i` of a `width x height` frame.
pub open spec fn on_line(width: int, height: int, a: Vec2, b: Vec2, i: int) -> bool {
    let l = line_of(a, b);
    line_hits_before(l, width, height, line_steps(l.x0, l.y0, l.x1, l.y1) + 1, i)
}

/// Pixel `i` lies on one of the three edges of a projected triangle.
pub open spec fn on_edges(width: int, height: int, p0: Vec2, p1: Vec2, p2: Vec2, i: int) -> bool {
    on_line(width, height, p0, p1, i) || on_line(width, height, p1, p2, i) || on_line(width, height, p0, p2, i)
}

/// Pixel `i` lies in the 4x4 marker of `p`.
pub open spec fn on_marker(width: int, p: Vec2, i: int) -> bool {
    in_box(pixel_of(p.x) as int, pixel_of(p.y) as int, 4, 4, i % width, i / width)
}

pub open spec fn on_markers(width: int, p0: Vec2, p1: Vec2, p2: Vec2, i: int) -> bool {
    on_marker(width, p0, i) || on_marker(width, p1, i) || on_marker(width, p2, i)
}

fn line_between(frame: &mut FrameBuffer, a: Vec2, b: Vec2, color: u32)
    requires
        old(frame).wf(),
    ensures
        final(frame).wf(),
        same_depth(*old(frame), *final(frame)),
        forall|i: int|
            0 <= i < final(frame).color@.len() ==> #[trigger] final(frame).color@[i] == if on_line(
                old(frame).width as int,
                old(frame).height as int,
                a,
                b,
                i,
            ) {
                color
            } else {
                old(frame).color@[i]
            },
{
    render_line(frame, fixed_to_pixel(a.x), fixed_to_pixel(a.y), fixed_to_pixel(b.x), fixed_to_pixel(b.y), color);
}

/// Draws the three edges of a projected triangle.
pub fn render_edges(frame: &mut FrameBuffer, p0: Vec2, p1: Vec2, p2: Vec2, line_color: u32)
    requires
        old(frame).wf(),
    ensures
        final(frame).wf(),
        same_depth(*old(frame), *final(frame)),
        forall|i: int|
            0 <= i < final(frame).color@.len() ==> #[trigger] final(frame).color@[i] == if on_edges(
                old(frame).width as int,
                old(frame).height as int,
                p0,
                p1,
                p2,
                i,
            ) {
                line_color
            } else {
                old(frame).color@[i]
            },
{
    let ghost f0 = frame.color@;
    line_between(frame, p0, p1, line_color);
    let ghost f1 = frame.color@;
    line_between(frame, p1, p2, line_color);
    let ghost f2 = frame.color@;
    line_between(frame, p0, p2, line_color);
    proof {
        let w = old(frame).width as int;
        let h = old(frame).height as int;
        assert forall|i: int| 0 <= i < frame.color@.len() implies #[trigger] frame.color@[i]
            == if on_edges(w, h, p0, p1, p2, i) { line_color } else { f0[i] } by {
            assert(f1[i] == if on_line(w, h, p0, p1, i) { line_color } else { f0[i] });
            assert(f2[i] == if on_line(w, h, p1, p2, i) { line_color } else { f1[i] });
        }
    }
}

/// The color of vertex markers.
pub const VERTEX_COLOR: u32 = 0xFFFF0000;

fn vertex_marker(frame: &mut FrameBuffer, p: Vec2)
    requires
        old(frame).wf(),
    ensures
        final(frame).wf(),
        same_depth(*old(frame), *final(frame)),
        forall|i: int|
            0 <= i < final(frame).color@.len() ==> #[trigger] final(frame).color@[i] == if on_marker(
                old(frame).width as int,
                p,
                i,
            ) {
                VERTEX_COLOR
            } else {
                old(frame).color@[i]
            },
{
    render_box(frame, fixed_to_pixel(p.x), fixed_to_pixel(p.y), 4, 4, VERTEX_COLOR);
}

/// Marks the three corners of a projected triangle with 4x4 boxes.
pub fn render_verticies(frame: &mut FrameBuffer, p0: Vec2, p1: Vec2, p2: Vec2)
    requires
        old(frame).wf(),
    ensures
        final(frame).wf(),
        same_depth(*old(frame), *final(frame)),
        forall|i: int|
            0 <= i < final(frame).color@.len() ==> #[trigger] final(frame).color@[i] == if on_markers(
                old(frame).width as int,
                p0,
                p1,
                p2,
                i,
            ) {
                VERTEX_COLOR
            } else {
                old(frame).color@[i]
            },
{
    let ghost f0 = frame.color@;
    vertex_marker(frame, p0);
    let ghost f1 = frame.color@;
    vertex_marker(frame, p1);
    let ghost f2 = frame.color@;
    vertex_marker(frame, p2);
    proof {
        let w = old(frame).width as int;
        assert forall|i: int| 0 <= i < frame.color@.len() implies #[trigger] frame.color@[i]
            == if on_markers(w, p0, p1, p2, i) { VERTEX_COLOR } else { f0[i] } by {
            assert(f1[i] == if on_marker(w, p0, i) { VERTEX_COLOR } else { f0[i] });
            assert(f2[i] == if on_marker(w, p1, i) { VERTEX_COLOR } else { f1[i] });
        }
    }
}

/// The background grid: `color_center` on the two lines through the screen
/// center, `color_line` on every tenth row and every tenth column, and
/// `color_back` elsewhere.
pub open spec fn grid_color(
    x: int,
    y: int,
    mid_x: int,
    mid_y: int,
    color_center: u32,
    color_line: u32,
    color_back: u32,
) -> u32 {
    if y == mid_y || x == mid_x {
        color_center
    } else if x % 10 == 0 || y % 10 == 0 {
        color_line
    } else {
        color_back
    }
}

/// Paints the grid into `rows`, whole rows of a `width`-wide buffer starting at
/// row `first_row`. Disjoint runs of rows can be painted independently.
pub fn make_grid_rows(
    rows: &mut [u32],
    first_row: usize,
    width: usize,
    mid_x: usize,
    mid_y: usize,
    color_center: u32,
    color_line: u32,
    color_back: u32,
)
    requires
        width > 0,
        first_row as int + (old(rows)@.len() as int) / (width as int) <= usize::MAX,
    ensures
        final(rows)@.len() == old(rows)@.len(),
        forall|i: int|
            0 <= i < final(rows)@.len() ==> #[trigger] final(rows)@[i] == grid_color(
                i % (width as int),
                first_row + i / (width as int),
                mid_x as int,
                mid_y as int,
                color_center,
                color_line,
                color_back,
            ),
{
    let n = rows.len();
    let mut i: usize = 0;
    while i < n
        invariant
            width > 0,
            n == rows@.len(),
            n == old(rows)@.len(),
            first_row as int + (n as int) / (width as int) <= usize::MAX,
            i <= n,
            forall|j: int|
                0 <= j < i ==> #[trigger] rows@[j] == grid_color(
                    j % (width as int),
                    first_row + j / (width as int),
                    mid_x as int,
                    mid_y as int,
                    color_center,
                    color_line,
                    color_back,
                ),
        decreases n - i,
    {
        let x = i % width;
        proof {
            vstd::arithmetic::div_mod::lemma_div_is_ordered(i as int, n as int, width as int);
        }
        let y = first_row + i / width;
        let c = if y == mid_y || x == mid_x {
            color_center
        } else if x % 10 == 0 || y % 10 == 0 {
            color_line
        } else {
            color_back
        };
        rows[i] = c;
        i = i + 1;
    }
}

/// Paints the background grid over the whole color buffer, with its center
/// lines at half of `width` and `height`.
pub fn make_grid(
    frame: &mut FrameBuffer,
    color_center: u32,
    color_line: u32,
    color_back: u32,
    width: u32,
    height: u32,
)
    requires
        old(frame).wf(),
        old(frame).width > 0,
    ensures
        final(frame).wf(),
        same_depth(*old(frame), *final(frame)),
        forall|i: int|
            0 <= i < final(frame).color@.len() ==> #[trigger] final(frame).color@[i] == grid_color(
                i % (old(frame).width as int),
                i / (old(frame).width as int),
                (width / 2) as int,
                (height / 2) as int,
                color_center,
                color_line,
                color_back,
            ),
{
    let w = frame.width as usize;
    let mid_x = (width / 2) as usize;
    let mid_y = (height / 2) as usize;
    let n = frame.color.len();
    let mut i: usize = 0;
    while i < n
        invariant
            frame.wf(),
            same_depth(*old(frame), *frame),
            w == frame.width,
            w > 0,
            n == frame.color@.len(),
            i <= n,
            forall|j: int|
                0 <= j < i ==> #[trigger] frame.color@[j] == grid_color(
                    j % (w as int),
                    j / (w as int),
                    mid_x as int,
                    mid_y as int,
                    color_center,
                    color_line,
                    color_back,
                ),
        decreases n - i,
    {
        let x = i % w;
        let y = i / w;
        let c = if y == mid_y || x == mid_x {
            color_center
        } else if x % 10 == 0 || y % 10 == 0 {
            color_line
        } else {
            color_back
        };
        frame.color.set(i, c);
        i = i + 1;
    }
}

/// Resets every depth value to `1.0`, the far end.
pub fn clear_depth_buffer(frame: &mut FrameBuffer)
    requires
        old(frame).wf(),
    ensures
        final(frame).wf(),
        final(frame).color@ == old(frame).color@,
        final(frame).width == old(frame).width,
        final(frame).height == old(frame).height,
        forall|i: int| 0 <= i < final(frame).depth@.len() ==> (#[trigger] final(frame).depth@[i]).bits == 65536,
{
    let n = frame.depth.len();
    let mut i: usize = 0;
    while i < n
        invariant
            frame.wf(),
            frame.color@ == old(frame).color@,
            frame.width == old(frame).width,
            frame.height == old(frame).height,
            n == frame.depth@.len(),
            i <= n,
            forall|j: int| 0 <= j < i ==> (#[trigger] frame.depth@[j]).bits == 65536,
        decreases n - i,
    {
        frame.depth.set(i, Fixed::one());
        i = i + 1;
    }
}

proof fn lemma_flat_textured_one_row(
    cur: (Fixed, u32),
    x: int,
    y: int,
    p0: Vec4,
    p1: Vec4,
    p2: Vec4,
    uv0: TextureUV,
    uv1: TextureUV,
    uv2: TextureUV,
    texture: &Texture,
    rising: bool,
)
    requires
        p0.y == p1.y && p1.y == p2.y,
    ensures
        flat_textured(cur, x, y, p0, p1, p2, uv0, uv1, uv2, texture, rising) == cur,
{
    reveal(flat_textured);
    assert forall|u: int, v: int| #[trigger] cross_int(u, 0, v, 0) == 0 by {
        assert(u * 0 - 0 * v == 0) by (nonlinear_arith);
    }
}

proof fn lemma_flat_textured_same_base(
    cur: (Fixed, u32),
    x: int,
    y: int,
    p0: Vec4,
    p1: Vec4,
    p2: Vec4,
    uv0: TextureUV,
    uv1: TextureUV,
    uv2: TextureUV,
    texture: &Texture,
    rising: bool,
)
    requires
        p1.y == p2.y,
        p1.x == p2.x,
    ensures
        flat_textured(cur, x, y, p0, p1, p2, uv0, uv1, uv2, texture, rising) == cur,
        flat_textured(cur, x, y, p0, p2, p1, uv0, uv2, uv1, texture, rising) == cur,
{
    reveal(flat_textured);
    let a = pixel4(p0);
    let b = pixel4(p1);
    assert(cross_int(b.x - a.x, b.y - a.y, b.x - a.x, b.y - a.y) == 0) by (nonlinear_arith);
}

/// Every ordering of the three corners (each texture coordinate moving with
/// its corner) shades every pixel the same. Corners that share a row are
/// interchangeable: at the same column they make the triangle degenerate in
/// pixels, and a triangle on one row draws nothing.
pub proof fn lemma_textured_order_independent(
    a: (Vec4, TextureUV),
    b: (Vec4, TextureUV),
    c: (Vec4, TextureUV),
    cur: (Fixed, u32),
    x: int,
    y: int,
    texture: &Texture,
)
    ensures
        ({
            let s = sort_textured(a.0, b.0, c.0, a.1, b.1, c.1);
            &&& textured_triangle(cur, x, y, sort_textured(a.0, c.0, b.0, a.1, c.1, b.1), texture) == textured_triangle(cur, x, y, s, texture)
            &&& textured_triangle(cur, x, y, sort_textured(b.0, a.0, c.0, b.1, a.1, c.1), texture) == textured_triangle(cur, x, y, s, texture)
            &&& textured_triangle(cur, x, y, sort_textured(b.0, c.0, a.0, b.1, c.1, a.1), texture) == textured_triangle(cur, x, y, s, texture)
            &&& textured_triangle(cur, x, y, sort_textured(c.0, a.0, b.0, c.1, a.1, b.1), texture) == textured_triangle(cur, x, y, s, texture)
            &&& textured_triangle(cur, x, y, sort_textured(c.0, b.0, a.0, c.1, b.1, a.1), texture) == textured_triangle(cur, x, y, s, texture)
        }),
{
    let s = sort_textured(a.0, b.0, c.0, a.1, b.1, c.1);
    let (t, m, bo) = s;
    assert(t.0.y.bits <= m.0.y.bits <= bo.0.y.bits);
    if t.0.y == bo.0.y {
        assert forall|u: (Vec4, TextureUV), v: (Vec4, TextureUV), w: (Vec4, TextureUV)|
            u.0.y == v.0.y && v.0.y == w.0.y implies textured_triangle(cur, x, y, (u, v, w), texture) == cur by {
            lemma_flat_textured_one_row(cur, x, y, u.0, v.0, w.0, u.1, v.1, w.1, texture, false);
        }
    } else if m.0.y == bo.0.y {
        if m.0.x == bo.0.x {
            lemma_flat_textured_same_base(cur, x, y, t.0, m.0, bo.0, t.1, m.1, bo.1, texture, false);
        } else {
            lemma_textured_base_order_independent(cur, x, y, t.0, m.0, bo.0, t.1, m.1, bo.1, texture, false);
        }
    } else if t.0.y == m.0.y {
        if t.0.x == m.0.x {
            lemma_flat_textured_same_base(cur, x, y, bo.0, m.0, t.0, bo.1, m.1, t.1, texture, true);
        } else {
            lemma_textured_base_order_independent(cur, x, y, bo.0, m.0, t.0, bo.1, m.1, t.1, texture, true);
        }
    }
}

/// Swapping the two base corners of a flat fill changes nothing when they lie
/// on one row at different columns.
pub proof fn lemma_flat_base_order_independent(p0: IntVec2, p1: IntVec2, p2: IntVec2, x: int, y: int)
    requires
        p1.y == p2.y,
        p1.x != p2.x,
    ensures
        flat_bottom_covers(p0, p1, p2, x, y) == flat_bottom_covers(p0, p2, p1, x, y),
        flat_top_covers(p0, p1, p2, x, y) == flat_top_covers(p0, p2, p1, x, y),
{
}

/// Swapping the two base corners of a textured flat fill (with their texture
/// coordinates) changes nothing when they lie on one row at different columns.
pub proof fn lemma_textured_base_order_independent(
    cur: (Fixed, u32),
    x: int,
    y: int,
    p0: Vec4,
    p1: Vec4,
    p2: Vec4,
    uv0: TextureUV,
    uv1: TextureUV,
    uv2: TextureUV,
    texture: &Texture,
    rising: bool,
)
    requires
        p1.y == p2.y,
        p1.x != p2.x,
    ensures
        flat_textured(cur, x, y, p0, p1, p2, uv0, uv1, uv2, texture, rising) == flat_textured(
            cur,
            x,
            y,
            p0,
            p2,
            p1,
            uv0,
            uv2,
            uv1,
            texture,
            rising,
        ),
{
    reveal(flat_textured);
}

/// What a pixel holds after a sequence of draws that each offer it a fragment
/// (or none), depth-tested in order; this is how the fill contracts update a
/// covered pixel.
pub open spec fn shade_all(cur: (Fixed, u32), frags: Seq<Option<(Fixed, u32)>>) -> (Fixed, u32)
    decreases frags.len(),
{
    if frags.len() == 0 {
        cur
    } else {
        shade(shade_all(cur, frags.drop_last()), frags.last())
    }
}

/// Draws that each give a pixel a fragment leave it holding the depth test of
/// those fragments in order, so `lemma_depth_test_keeps_nearest` applies: the
/// nearest fragment (the first among equally near ones) wins.
pub proof fn lemma_draws_resolve_depth(cur: (Fixed, u32), frags: Seq<(Fixed, u32)>)
    ensures
        shade_all(cur, frags.map_values(|f: (Fixed, u32)| Some(f))) == depth_resolve(cur, frags),
    decreases frags.len(),
{
    if frags.len() > 0 {
        lemma_draws_resolve_depth(cur, frags.drop_last());
        assert(frags.map_values(|f: (Fixed, u32)| Some(f)).drop_last() =~= frags.drop_last().map_values(
            |f: (Fixed, u32)| Some(f),
        ));
    }
}

} // verus!
