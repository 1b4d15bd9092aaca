use software_renderer::fixed_point::Fixed;
use software_renderer::render::{
    clear_color_buffer, fill_triangle, fill_triangle_with_texture, make_grid, make_grid_rows,
    render_box, render_line, render_pixel, write_fragment,
};
use software_renderer::subpixel_rendering::{is_edge_top_left, subpixel_render_triangle, triangle_cross};
use software_renderer::types::{FrameBuffer, IntVec2, Texture, TextureUV};
use software_renderer::vector::{vector4_trunk, Vec4};

fn fx(v: f64) -> Fixed {
    Fixed::from_bits((v * 65536.0).round() as i64)
}

fn frame(width: u32, height: u32) -> FrameBuffer {
    let n = (width * height) as usize;
    FrameBuffer { color: vec![0; n], depth: vec![Fixed::one(); n], width, height }
}

fn at(f: &FrameBuffer, x: u32, y: u32) -> u32 {
    f.color[(y * f.width + x) as usize]
}

fn v4(x: f64, y: f64, w: f64) -> Vec4 {
    Vec4 { x: fx(x), y: fx(y), z: fx(0.0), w: fx(w) }
}

fn uv(u: f64, v: f64) -> TextureUV {
    TextureUV { u: fx(u), v: fx(v) }
}

fn solid_texture(color: u32) -> Texture {
    Texture { data: vec![color; 16], width: 4, height: 4 }
}

#[test]
fn pixel_outside_the_frame_is_ignored() {
    let mut f = frame(4, 3);
    render_pixel(&mut f, -1, 0, 7);
    render_pixel(&mut f, 4, 0, 7);
    render_pixel(&mut f, 0, 3, 7);
    assert!(f.color.iter().all(|&c| c == 0));
    render_pixel(&mut f, 3, 2, 7);
    assert_eq!(at(&f, 3, 2), 7);
}

#[test]
fn clear_fills_every_pixel() {
    let mut f = frame(5, 4);
    clear_color_buffer(&mut f, 0xFF112233);
    assert!(f.color.iter().all(|&c| c == 0xFF112233));
}

#[test]
fn box_is_cut_to_the_frame() {
    let mut f = frame(6, 6);
    render_box(&mut f, -2, 4, 4, 4, 9);
    for y in 0..6 {
        for x in 0..6 {
            let inside = x < 2 && y >= 4;
            assert_eq!(at(&f, x, y), if inside { 9 } else { 0 });
        }
    }
}

#[test]
fn line_covers_both_ends_of_a_diagonal() {
    let mut f = frame(10, 10);
    render_line(&mut f, 1, 1, 7, 4, 5);
    assert_eq!(at(&f, 1, 1), 5);
    assert_eq!(at(&f, 7, 4), 5);
    assert_eq!(f.color.iter().filter(|&&c| c == 5).count(), 7);
}

#[test]
fn single_point_line_paints_one_pixel() {
    let mut f = frame(4, 4);
    render_line(&mut f, 2, 2, 2, 2, 3);
    assert_eq!(f.color.iter().filter(|&&c| c == 3).count(), 1);
    assert_eq!(at(&f, 2, 2), 3);
}

#[test]
fn filled_triangle_covers_its_interior() {
    let mut f = frame(32, 32);
    let (a, b, c) = (IntVec2 { x: 2, y: 2 }, IntVec2 { x: 28, y: 10 }, IntVec2 { x: 8, y: 29 });
    fill_triangle(&mut f, a, b, c, 1);
    for y in 0..32i64 {
        for x in 0..32i64 {
            // strictly inside all three edges, by a margin of one pixel
            let e = |p: &IntVec2, q: &IntVec2| {
                ((q.x - p.x) as i64 * (y - p.y as i64) - (q.y - p.y) as i64 * (x - p.x as i64)) as f64
                    / (((q.x - p.x) as f64).powi(2) + ((q.y - p.y) as f64).powi(2)).sqrt()
            };
            let (e0, e1, e2) = (e(&a, &b), e(&b, &c), e(&c, &a));
            let inside = (e0 > 1.5 && e1 > 1.5 && e2 > 1.5) || (e0 < -1.5 && e1 < -1.5 && e2 < -1.5);
            if inside {
                assert_eq!(at(&f, x as u32, y as u32), 1, "gap at ({}, {})", x, y);
            }
        }
    }
    assert!(f.color[..(2 * 32) as usize].iter().all(|&c| c == 0));
}

#[test]
fn fill_does_not_depend_on_corner_order() {
    let pts = [IntVec2 { x: 3, y: 1 }, IntVec2 { x: 20, y: 9 }, IntVec2 { x: 7, y: 18 }];
    let orders = [[0, 1, 2], [0, 2, 1], [1, 0, 2], [1, 2, 0], [2, 0, 1], [2, 1, 0]];
    let mut first: Option<Vec<u32>> = None;
    for o in orders.iter() {
        let mut f = frame(24, 24);
        fill_triangle(&mut f, pts[o[0]], pts[o[1]], pts[o[2]], 4);
        match &first {
            None => first = Some(f.color.clone()),
            Some(c) => assert_eq!(&f.color, c),
        }
    }
}

#[test]
fn flat_top_triangle_is_filled() {
    let mut f = frame(16, 16);
    fill_triangle(&mut f, IntVec2 { x: 2, y: 3 }, IntVec2 { x: 12, y: 3 }, IntVec2 { x: 7, y: 12 }, 2);
    assert_eq!(at(&f, 7, 12), 2);
    assert_eq!(at(&f, 7, 6), 2);
    assert_eq!(at(&f, 7, 2), 0);
}

#[test]
fn nearest_fragment_wins_the_depth_test() {
    let mut f = frame(2, 2);
    let p = IntVec2 { x: 1, y: 1 };
    write_fragment(&mut f, p, fx(0.8), 1);
    write_fragment(&mut f, p, fx(0.3), 2);
    write_fragment(&mut f, p, fx(0.5), 3);
    write_fragment(&mut f, p, fx(0.3), 4);
    assert_eq!(at(&f, 1, 1), 2);
    assert_eq!(f.depth[3].bits, fx(0.3).bits);
}

#[test]
fn fragment_behind_the_far_plane_is_dropped() {
    let mut f = frame(2, 2);
    write_fragment(&mut f, IntVec2 { x: 0, y: 0 }, fx(1.0), 9);
    assert_eq!(at(&f, 0, 0), 0);
}

#[test]
fn textured_triangle_samples_the_texture() {
    let mut f = frame(16, 16);
    let t = solid_texture(0xFFABCDEF);
    fill_triangle_with_texture(
        &mut f,
        v4(1.0, 1.0, 1.0),
        v4(14.0, 3.0, 1.0),
        v4(4.0, 14.0, 1.0),
        uv(0.0, 0.0),
        uv(1.0, 0.0),
        uv(0.0, 1.0),
        &t,
    );
    assert_eq!(at(&f, 5, 5), 0xFFABCDEF);
    assert!(f.depth[(5 * 16 + 5) as usize].bits < 65536);
}

#[test]
fn closer_textured_triangle_hides_farther_one() {
    let mut f = frame(16, 16);
    let near = solid_texture(0xFF0000FF);
    let far = solid_texture(0xFFFF0000);
    let (a, b, c) = ((1.0, 1.0), (14.0, 2.0), (3.0, 14.0));
    // w = 2 is closer (depth 1 - 1/2) than w = 4 (depth 1 - 1/4)
    fill_triangle_with_texture(&mut f, v4(a.0, a.1, 2.0), v4(b.0, b.1, 2.0), v4(c.0, c.1, 2.0), uv(0.0, 0.0), uv(0.5, 0.0), uv(0.0, 0.5), &near);
    fill_triangle_with_texture(&mut f, v4(a.0, a.1, 4.0), v4(b.0, b.1, 4.0), v4(c.0, c.1, 4.0), uv(0.0, 0.0), uv(0.5, 0.0), uv(0.0, 0.5), &far);
    assert_eq!(at(&f, 5, 5), 0xFF0000FF);
}

#[test]
fn edge_functions_and_top_left_rule() {
    let a = v4(0.0, 0.0, 1.0);
    let b = v4(4.0, 0.0, 1.0);
    let c = v4(0.0, 4.0, 1.0);
    assert_eq!(triangle_cross(&a, &b, &c).bits, fx(16.0).bits);
    assert!(is_edge_top_left(&a, &b));
    assert!(!is_edge_top_left(&b, &a));
    assert!(is_edge_top_left(&c, &a));
    assert!(!is_edge_top_left(&a, &c));
}

#[test]
fn subpixel_triangle_stays_in_its_box() {
    let mut f = frame(16, 16);
    let t = solid_texture(0xFF808080);
    subpixel_render_triangle(
        &mut f,
        v4(2.0, 2.0, 1.0),
        v4(12.0, 2.0, 1.0),
        v4(2.0, 12.0, 1.0),
        &uv(0.0, 0.0),
        &uv(1.0, 0.0),
        &uv(0.0, 1.0),
        &t,
        fx(1.0),
    );
    assert_eq!(at(&f, 4, 4), 0xFF808080);
    for y in 0..16 {
        for x in 0..16 {
            if at(&f, x, y) != 0 {
                assert!((2..12).contains(&x) && (2..12).contains(&y));
            }
        }
    }
}

#[test]
fn grid_marks_center_lines_and_every_tenth_row_and_column() {
    let mut f = frame(30, 20);
    make_grid(&mut f, 3, 1, 2, 30, 20);
    assert_eq!(at(&f, 15, 3), 3);
    assert_eq!(at(&f, 3, 10), 3);
    assert_eq!(at(&f, 20, 0), 1);
    assert_eq!(at(&f, 0, 1), 1);
    assert_eq!(at(&f, 7, 10), 3);
    assert_eq!(at(&f, 20, 7), 1);
    assert_eq!(at(&f, 3, 4), 2);
    let mut rows = vec![0u32; 30 * 5];
    make_grid_rows(&mut rows, 10, 30, 15, 10, 3, 1, 2);
    assert_eq!(&rows[..], &f.color[300..450]);
}

#[test]
fn trunk_drops_the_fraction_of_x_and_y() {
    let v = vector4_trunk(Vec4 { x: fx(2.75), y: fx(-1.5), z: fx(0.25), w: fx(3.0) });
    assert_eq!((v.x.bits, v.y.bits, v.z.bits, v.w.bits), (fx(2.0).bits, fx(-1.0).bits, fx(0.25).bits, fx(3.0).bits));
}

#[test]
fn triangles_sharing_an_edge_never_draw_the_same_pixel() {
    let t = solid_texture(0xFF808080);
    let (a, b, c, d) = (v4(2.0, 2.0, 1.0), v4(14.0, 13.0, 1.0), v4(13.0, 3.0, 1.0), v4(3.0, 12.0, 1.0));
    let mut f1 = frame(16, 16);
    subpixel_render_triangle(&mut f1, a, c, b, &uv(0.0, 0.0), &uv(1.0, 0.0), &uv(1.0, 1.0), &t, fx(1.0));
    let mut f2 = frame(16, 16);
    subpixel_render_triangle(&mut f2, b, d, a, &uv(1.0, 1.0), &uv(0.0, 1.0), &uv(0.0, 0.0), &t, fx(1.0));
    let drawn1 = f1.color.iter().filter(|&&c| c != 0).count();
    let drawn2 = f2.color.iter().filter(|&&c| c != 0).count();
    assert!(drawn1 > 0 && drawn2 > 0);
    for i in 0..256 {
        assert!(!(f1.color[i] != 0 && f2.color[i] != 0), "pixel {} drawn twice", i);
    }
}

#[test]
fn triangle_on_one_row_draws_nothing() {
    for order in [[0usize, 1, 2], [1, 0, 2], [2, 1, 0]] {
        let pts = [IntVec2 { x: 0, y: 3 }, IntVec2 { x: 5, y: 3 }, IntVec2 { x: 10, y: 3 }];
        let mut f = frame(16, 8);
        fill_triangle(&mut f, pts[order[0]], pts[order[1]], pts[order[2]], 7);
        assert!(f.color.iter().all(|&c| c == 0));
    }
}

#[test]
fn fill_with_a_shared_row_does_not_depend_on_corner_order() {
    let pts = [IntVec2 { x: 2, y: 2 }, IntVec2 { x: 14, y: 2 }, IntVec2 { x: 6, y: 13 }];
    let orders = [[0, 1, 2], [0, 2, 1], [1, 0, 2], [1, 2, 0], [2, 0, 1], [2, 1, 0]];
    let mut first: Option<Vec<u32>> = None;
    for o in orders.iter() {
        let mut f = frame(16, 16);
        fill_triangle(&mut f, pts[o[0]], pts[o[1]], pts[o[2]], 4);
        match &first {
            None => first = Some(f.color.clone()),
            Some(c) => assert_eq!(&f.color, c),
        }
    }
}
