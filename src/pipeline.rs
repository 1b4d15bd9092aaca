//! One frame of the pipeline: transform, backface culling, clipping,
//! projection and rasterization of the entity, and the per-frame update.
use crate::clipping::clip_triangle;
use crate::fixed_point::Fixed;
use crate::clipping::{clip_all, fan, triangle_polygon};
use crate::fixed_point::fx_neg;
use crate::math::{centroid, lit, transformed};
use crate::matrix::{look_at, unit_y};
use crate::render::{grid_color, on_edges, on_markers, pix, sort_by_y, sort_textured, textured_triangle, triangle_covers, VERTEX_COLOR};
use crate::types::{Camera, Triangle, TextureUV};
use crate::vector::{pixel4, Vec4};
use crate::math::{
    add3, mul3, project,cross3, dot3, normalized3, perspective_project_point, rotate_entity, spun, sub3, triangle_avg, vector3_add, vector3_cross, vector3_dot, vector3_mul, vector3_normalize, vector3_sub, light_apply_intensity, transform_vertex};
use crate::fixed_point::fx_mul;
use crate::matrix::{fps_camera, get_fps_view_matrix, mul_vec4, Matrix4};
use crate::vector::vec4_of;
use crate::render::{
    clear_depth_buffer, fill_triangle, fill_triangle_with_texture, make_grid, on_line,
    render_edges, render_line, render_verticies, same_depth,
};
use crate::types::{fixed_to_pixel, vec3_zero, FrameBuffer, FrameTrig, IntVec2, Memory, Vec2, Vec3};
use vstd::prelude::*;

verus! {

/// The unit normal of the triangle `p0 p1 p2` (counter-clockwise winding):
/// `(p1 - p0) x (p2 - p0)`, normalized.
pub open spec fn face_normal(p0: Vec3, p1: Vec3, p2: Vec3) -> Vec3 {
    normalized3(cross3(sub3(p1, p0), sub3(p2, p0)))
}

/// A view-space triangle faces the camera at the origin: its normal does not
/// point away from the ray to the camera. A grazing triangle counts as facing.
pub open spec fn faces_camera(p0: Vec3, p1: Vec3, p2: Vec3) -> bool {
    dot3(face_normal(p0, p1, p2), sub3(vec3_zero(), p0)).bits >= 0
}

pub fn triangle_normal(p0: Vec3, p1: Vec3, p2: Vec3) -> (r: Vec3)
    ensures
        r == face_normal(p0, p1, p2),
{
    let vector_ab = vector3_sub(p1, p0);
    let vector_ac = vector3_sub(p2, p0);
    let mut normal = vector3_cross(vector_ab, vector_ac);
    vector3_normalize(&mut normal);
    normal
}

/// The backface test: `false` for a triangle that faces away from the camera.
pub fn is_front_facing(p0: Vec3, p1: Vec3, p2: Vec3) -> (r: bool)
    ensures
        r == faces_camera(p0, p1, p2),
{
    let normal = triangle_normal(p0, p1, p2);
    let camera_ray = vector3_sub(Vec3::default(), p0);
    vector3_dot(normal, camera_ray).bits >= 0
}

/// One tenth, the drawn length of a face normal.
pub const NORMAL_SCALE_BITS: i64 = 6554;

/// The color of drawn normals.
pub const NORMAL_COLOR: u32 = 0xFFFFFF00;

/// The color of the grid lines through the screen center.
pub const GRID_CENTER_COLOR: u32 = 0xFF8A94A3;

/// The color of every tenth grid row and column.
pub const GRID_LINE_COLOR: u32 = 0xFF505966;

/// The grid's background color.
pub const GRID_BACK_COLOR: u32 = 0xFF292B2E;

/// The color of drawn edges.
pub const EDGE_COLOR: u32 = 0xFF00FF00;

/// The screen end points of a drawn face normal: from the face's center to a
/// tenth of the normal beyond it, both projected.
pub open spec fn normal_line(
    normal: Vec3,
    normal_avg: Vec3,
    projection_matrix: Matrix4,
    width: u32,
    height: u32,
) -> (Vec2, Vec2) {
    let tenth = Fixed { bits: NORMAL_SCALE_BITS };
    let end = add3(normal_avg, mul3(normal, Vec3 { x: tenth, y: tenth, z: tenth }));
    let a = project(mul_vec4(projection_matrix, vec4_of(normal_avg)), height, width);
    let b = project(mul_vec4(projection_matrix, vec4_of(end)), height, width);
    (Vec2 { x: a.x, y: a.y }, Vec2 { x: b.x, y: b.y })
}

/// Draws a face normal as a short line from the face's center.
pub fn render_normals(
    frame: &mut FrameBuffer,
    normal: Vec3,
    normal_avg: Vec3,
    projection_matrix: Matrix4,
)
    requires
        old(frame).wf(),
    ensures
        final(frame).wf(),
        same_depth(*old(frame), *final(frame)),
        forall|i: int|
            0 <= i < final(frame).color@.len() ==> #[trigger] final(frame).color@[i] == if on_line(
                old(frame).width as int,
                old(frame).height as int,
                normal_line(normal, normal_avg, projection_matrix, old(frame).width, old(frame).height).0,
                normal_line(normal, normal_avg, projection_matrix, old(frame).width, old(frame).height).1,
                i,
            ) {
                NORMAL_COLOR
            } else {
                old(frame).color@[i]
            },
{
    let tenth = Fixed::from_bits(NORMAL_SCALE_BITS);
    let normal_end = vector3_add(normal_avg, vector3_mul(normal, Vec3 { x: tenth, y: tenth, z: tenth }));
    let start = perspective_project_point(normal_avg, projection_matrix, frame.height, frame.width);
    let end = perspective_project_point(normal_end, projection_matrix, frame.height, frame.width);
    render_line(
        frame,
        fixed_to_pixel(start.x),
        fixed_to_pixel(start.y),
        fixed_to_pixel(end.x),
        fixed_to_pixel(end.y),
        NORMAL_COLOR,
    );
}

/// What rendering leaves as it was: everything but the frame buffer and the
/// camera, and the frame's size.
pub open spec fn render_keeps(a: Memory, b: Memory) -> bool {
    &&& b.entity == a.entity
    &&& b.texture == a.texture
    &&& b.culling_settings == a.culling_settings
    &&& b.render_settings == a.render_settings
    &&& b.light == a.light
    &&& b.projection_matrix == a.projection_matrix
    &&& b.delta_time == a.delta_time
    &&& b.speed == a.speed
    &&& b.stop == a.stop
    &&& b.rotation_objects_type == a.rotation_objects_type
    &&& b.fov == a.fov
    &&& b.frame.width == a.frame.width
    &&& b.frame.height == a.frame.height
}

/// The flat color of a face under the light: the default color scaled by the
/// cosine between the normal and the reversed light direction.
pub open spec fn face_color(m: Memory, normal: Vec3) -> u32 {
    lit(m.render_settings.default_render_color, fx_neg(dot3(m.light, normal)))
}

/// What pixel `i` holds after one clipped view-space triangle (`points`, with
/// texture coordinates `uvs`) is drawn over `cur`: projected, then filled (flat
/// or textured), outlined, marked and given its normal, as the settings of `m`
/// ask. A triangle with fewer than three corners draws nothing.
#[verifier::opaque]
pub open spec fn clipped_pixel(
    cur: (Fixed, u32),
    i: int,
    m: Memory,
    points: Seq<Vec3>,
    uvs: Seq<TextureUV>,
    normal: Vec3,
    normal_avg: Vec3,
) -> (Fixed, u32) {
    if points.len() < 3 || uvs.len() < 3 {
        cur
    } else {
        let w = m.frame.width;
        let h = m.frame.height;
        let s = m.render_settings;
        let q0 = project(mul_vec4(m.projection_matrix, vec4_of(points[0])), h, w);
        let q1 = project(mul_vec4(m.projection_matrix, vec4_of(points[1])), h, w);
        let q2 = project(mul_vec4(m.projection_matrix, vec4_of(points[2])), h, w);
        let v0 = Vec2 { x: q0.x, y: q0.y };
        let v1 = Vec2 { x: q1.x, y: q1.y };
        let v2 = Vec2 { x: q2.x, y: q2.y };
        let nl = normal_line(normal, normal_avg, m.projection_matrix, w, h);
        let filled = fill_stage(cur, i, m, q0, q1, q2, uvs, normal);
        let edged = paint_if(filled, s.draw_edges && on_edges(w as int, h as int, v0, v1, v2, i), EDGE_COLOR);
        let marked = paint_if(edged, s.draw_vert && on_markers(w as int, v0, v1, v2, i), VERTEX_COLOR);
        paint_if(marked, s.show_normals && on_line(w as int, h as int, nl.0, nl.1, i), NORMAL_COLOR)
    }
}

/// `cur` with its color replaced by `color` where `c` holds.
pub open spec fn paint_if(cur: (Fixed, u32), c: bool, color: u32) -> (Fixed, u32) {
    if c { (cur.0, color) } else { cur }
}

/// Pixel `i` after the projected triangle `q0 q1 q2` is filled over `cur`, as
/// the settings of `m` ask: textured, in the face's lit color, or not at all.
pub open spec fn fill_stage(
    cur: (Fixed, u32),
    i: int,
    m: Memory,
    q0: Vec4,
    q1: Vec4,
    q2: Vec4,
    uvs: Seq<TextureUV>,
    normal: Vec3,
) -> (Fixed, u32) {
    let s = m.render_settings;
    let x = i % (m.frame.width as int);
    let y = i / (m.frame.width as int);
    if !s.fill_triangles {
        cur
    } else if s.use_textures {
        textured_triangle(cur, x, y, sort_textured(q0, q1, q2, uvs[0], uvs[1], uvs[2]), &m.texture)
    } else {
        paint_if(cur, triangle_covers(sort_by_y(pixel4(q0), pixel4(q1), pixel4(q2)), x, y), face_color(m, normal))
    }
}

/// Draws one clipped, projected triangle as the render settings ask.
fn draw_clipped(
    memory: &mut Memory,
    points: &Vec<Vec3>,
    uvs: &Vec<TextureUV>,
    normal: Vec3,
    normal_avg: Vec3,
)
    requires
        old(memory).wf(),
    ensures
        final(memory).wf(),
        final(memory).camera == old(memory).camera,
        render_keeps(*old(memory), *final(memory)),
        forall|i: int|
            0 <= i < final(memory).frame.color@.len() ==> #[trigger] pix(final(memory).frame, i)
                == clipped_pixel(pix(old(memory).frame, i), i, *old(memory), points@, uvs@, normal, normal_avg),
{
    proof {
        reveal(clipped_pixel);
    }
    if points.len() < 3 || uvs.len() < 3 {
        return;
    }
    let ghost m = *old(memory);
    let w = memory.frame.width;
    let h = memory.frame.height;
    let ghost wi = w as int;
    let ghost hi = h as int;
    let projected0 = perspective_project_point(points[0], memory.projection_matrix, h, w);
    let projected1 = perspective_project_point(points[1], memory.projection_matrix, h, w);
    let projected2 = perspective_project_point(points[2], memory.projection_matrix, h, w);
    let settings = memory.render_settings;
    let ghost f0 = memory.frame;
    if settings.fill_triangles {
        let light_dot = vector3_dot(memory.light, normal).neg();
        let color_by_light = light_apply_intensity(settings.default_render_color, light_dot);
        if settings.use_textures {
            fill_triangle_with_texture(
                &mut memory.frame,
                projected0,
                projected1,
                projected2,
                uvs[0],
                uvs[1],
                uvs[2],
                &memory.texture,
            );
        } else {
            fill_triangle(
                &mut memory.frame,
                IntVec2::from(projected0),
                IntVec2::from(projected1),
                IntVec2::from(projected2),
                color_by_light,
            );
        }
    }
    let ghost f1 = memory.frame;
    if settings.draw_edges {
        render_edges(
            &mut memory.frame,
            Vec2::from(projected0),
            Vec2::from(projected1),
            Vec2::from(projected2),
            EDGE_COLOR,
        );
    }
    let ghost f2 = memory.frame;
    if settings.draw_vert {
        render_verticies(
            &mut memory.frame,
            Vec2::from(projected0),
            Vec2::from(projected1),
            Vec2::from(projected2),
        );
    }
    let ghost f3 = memory.frame;
    if settings.show_normals {
        render_normals(&mut memory.frame, normal, normal_avg, memory.projection_matrix);
    }
    proof {
        assert forall|i: int| 0 <= i < memory.frame.color@.len() implies #[trigger] pix(memory.frame, i)
            == clipped_pixel(pix(f0, i), i, m, points@, uvs@, normal, normal_avg) by {
            let v0 = Vec2 { x: projected0.x, y: projected0.y };
            let v1 = Vec2 { x: projected1.x, y: projected1.y };
            let v2 = Vec2 { x: projected2.x, y: projected2.y };
            let nl = normal_line(normal, normal_avg, m.projection_matrix, w, h);
            assert(pix(f1, i) == fill_stage(pix(f0, i), i, m, projected0, projected1, projected2, uvs@, normal));
            assert(pix(f2, i) == paint_if(pix(f1, i), settings.draw_edges && on_edges(wi, hi, v0, v1, v2, i), EDGE_COLOR));
            assert(pix(f3, i) == paint_if(pix(f2, i), settings.draw_vert && on_markers(wi, v0, v1, v2, i), VERTEX_COLOR));
            assert(pix(memory.frame, i) == paint_if(pix(f3, i), settings.show_normals && on_line(wi, hi, nl.0, nl.1, i), NORMAL_COLOR));
        }
    }
}

/// The view matrix of a camera: looking from its position along its
/// direction, with `+y` up.
pub open spec fn view_of(camera: Camera) -> Matrix4 {
    look_at(camera.position, add3(camera.direction, camera.position), unit_y())
}

/// Pixel `i` after the first `j` triangles of a clipped fan are drawn over
/// `cur`.
pub open spec fn fan_pixel(
    cur: (Fixed, u32),
    i: int,
    m: Memory,
    tris: Seq<Seq<Vec3>>,
    uvs: Seq<Seq<TextureUV>>,
    normal: Vec3,
    normal_avg: Vec3,
    j: nat,
) -> (Fixed, u32)
    decreases j,
{
    if j == 0 {
        cur
    } else {
        clipped_pixel(
            fan_pixel(cur, i, m, tris, uvs, normal, normal_avg, (j - 1) as nat),
            i,
            m,
            tris[j - 1],
            uvs[j - 1],
            normal,
            normal_avg,
        )
    }
}

/// Pixel `i` after one mesh triangle is rendered over `cur`: a triangle that
/// names a missing vertex, or that faces away from the camera, draws nothing;
/// otherwise its view-space corners are clipped against the frustum and each
/// triangle of the resulting fan is drawn, with the face's normal and center.
pub open spec fn triangle_pixel(
    cur: (Fixed, u32),
    i: int,
    m: Memory,
    trig: FrameTrig,
    view: Matrix4,
    t: Triangle,
) -> (Fixed, u32) {
    let e = m.entity;
    let n = e.mesh.vertices@.len();
    if !(1 <= t.a <= n && 1 <= t.b <= n && 1 <= t.c <= n) {
        cur
    } else {
        let p0 = transformed(e.mesh.vertices@[t.a - 1], trig.entity, e.scale, e.translation, view);
        let p1 = transformed(e.mesh.vertices@[t.b - 1], trig.entity, e.scale, e.translation, view);
        let p2 = transformed(e.mesh.vertices@[t.c - 1], trig.entity, e.scale, e.translation, view);
        if !faces_camera(p0, p1, p2) {
            cur
        } else {
            let planes = m.culling_settings.planes@;
            let poly = clip_all(planes, triangle_polygon(p0, p1, p2, t.a_uv, t.b_uv, t.c_uv), planes.len());
            let tris = fan(poly.0);
            let uvs = fan(poly.1);
            let count = if tris.len() <= uvs.len() { tris.len() } else { uvs.len() };
            fan_pixel(cur, i, m, tris, uvs, face_normal(p0, p1, p2), centroid(p0, p1, p2), count)
        }
    }
}

/// Pixel `i` after the first `k` triangles of the mesh are rendered over `cur`.
pub open spec fn entity_pixel(
    cur: (Fixed, u32),
    i: int,
    m: Memory,
    trig: FrameTrig,
    view: Matrix4,
    k: nat,
) -> (Fixed, u32)
    decreases k,
{
    if k == 0 {
        cur
    } else {
        triangle_pixel(
            entity_pixel(cur, i, m, trig, view, (k - 1) as nat),
            i,
            m,
            trig,
            view,
            m.entity.mesh.triangles@[k - 1],
        )
    }
}

proof fn lemma_clipped_pixel_same(cur: (Fixed, u32), i: int, a: Memory, b: Memory, points: Seq<Vec3>, uvs: Seq<TextureUV>, normal: Vec3, normal_avg: Vec3)
    requires
        render_keeps(a, b),
    ensures
        clipped_pixel(cur, i, a, points, uvs, normal, normal_avg) == clipped_pixel(cur, i, b, points, uvs, normal, normal_avg),
{
    reveal(clipped_pixel);
}

/// Renders the entity: updates the camera and its view matrix, then for each
/// triangle transforms its corners to view space, drops it if it faces away,
/// clips it against the frustum planes, projects what remains and draws it.
/// A triangle that refers to a missing vertex is skipped.
#[verifier::rlimit(50)]
pub fn render_entity(memory: &mut Memory, trig: FrameTrig)
    requires
        old(memory).wf(),
    ensures
        final(memory).wf(),
        final(memory).camera == fps_camera(old(memory).camera, trig.pitch, trig.yaw),
        render_keeps(*old(memory), *final(memory)),
        forall|i: int|
            0 <= i < final(memory).frame.color@.len() ==> #[trigger] pix(final(memory).frame, i)
                == entity_pixel(
                pix(old(memory).frame, i),
                i,
                *old(memory),
                trig,
                view_of(final(memory).camera),
                old(memory).entity.mesh.triangles@.len(),
            ),
{
    let ghost m = *old(memory);
    let view_matrix = get_fps_view_matrix(&mut memory.camera, trig.pitch, trig.yaw);
    let ghost camera = memory.camera;
    let ghost view = view_of(camera);
    let n = memory.entity.mesh.triangles.len();
    let nv = memory.entity.mesh.vertices.len();
    let mut i: usize = 0;
    while i < n
        invariant
            memory.wf(),
            memory.camera == camera,
            camera == fps_camera(old(memory).camera, trig.pitch, trig.yaw),
            view_matrix == view,
            view == view_of(camera),
            m == *old(memory),
            render_keeps(m, *memory),
            n == memory.entity.mesh.triangles@.len(),
            nv == memory.entity.mesh.vertices@.len(),
            i <= n,
            forall|q: int|
                0 <= q < memory.frame.color@.len() ==> #[trigger] pix(memory.frame, q) == entity_pixel(
                    pix(m.frame, q),
                    q,
                    m,
                    trig,
                    view,
                    i as nat,
                ),
        decreases n - i,
    {
        let triangle = memory.entity.mesh.triangles[i];
        let ghost before = memory.frame;
        if triangle.a < 1 || triangle.b < 1 || triangle.c < 1 || triangle.a as usize > nv
            || triangle.b as usize > nv || triangle.c as usize > nv {
            i = i + 1;
            continue;
        }
        let entity = &memory.entity;
        let p0 = transform_vertex(
            entity.mesh.vertices[triangle.a as usize - 1],
            trig.entity,
            entity.scale,
            entity.translation,
            view_matrix,
        );
        let p1 = transform_vertex(
            entity.mesh.vertices[triangle.b as usize - 1],
            trig.entity,
            entity.scale,
            entity.translation,
            view_matrix,
        );
        let p2 = transform_vertex(
            entity.mesh.vertices[triangle.c as usize - 1],
            trig.entity,
            entity.scale,
            entity.translation,
            view_matrix,
        );
        if !is_front_facing(p0, p1, p2) {
            i = i + 1;
            continue;
        }
        let normal = triangle_normal(p0, p1, p2);
        let normal_avg = triangle_avg(p0, p1, p2);
        let (clipped_triangles, clipped_triangle_uvs) = clip_triangle(
            &memory.culling_settings.planes,
            p0,
            p1,
            p2,
            triangle.a_uv,
            triangle.b_uv,
            triangle.c_uv,
        );
        let ghost planes = m.culling_settings.planes@;
        let ghost poly = clip_all(planes, triangle_polygon(p0, p1, p2, triangle.a_uv, triangle.b_uv, triangle.c_uv), planes.len());
        let ghost tris = fan(poly.0);
        let ghost uvss = fan(poly.1);
        let mut j: usize = 0;
        while j < clipped_triangles.len() && j < clipped_triangle_uvs.len()
            invariant
                memory.wf(),
                memory.camera == camera,
                m == *old(memory),
                render_keeps(m, *memory),
                n == memory.entity.mesh.triangles@.len(),
                nv == memory.entity.mesh.vertices@.len(),
                i < n,
                clipped_triangles@.len() == tris.len(),
                clipped_triangle_uvs@.len() == uvss.len(),
                forall|k: int| 0 <= k < clipped_triangles@.len() ==> (#[trigger] clipped_triangles@[k])@ == tris[k],
                forall|k: int| 0 <= k < clipped_triangle_uvs@.len() ==> (#[trigger] clipped_triangle_uvs@[k])@ == uvss[k],
                j <= clipped_triangles@.len(),
                j <= clipped_triangle_uvs@.len(),
                forall|q: int|
                    0 <= q < memory.frame.color@.len() ==> #[trigger] pix(memory.frame, q) == fan_pixel(
                        pix(before, q),
                        q,
                        m,
                        tris,
                        uvss,
                        normal,
                        normal_avg,
                        j as nat,
                    ),
            decreases clipped_triangles@.len() - j,
        {
            let ghost mid = *memory;
            draw_clipped(memory, &clipped_triangles[j], &clipped_triangle_uvs[j], normal, normal_avg);
            proof {
                assert forall|q: int| 0 <= q < memory.frame.color@.len() implies #[trigger] pix(memory.frame, q)
                    == fan_pixel(pix(before, q), q, m, tris, uvss, normal, normal_avg, (j + 1) as nat) by {
                    lemma_clipped_pixel_same(pix(mid.frame, q), q, mid, m, tris[j as int], uvss[j as int], normal, normal_avg);
                }
            }
            j = j + 1;
        }
        proof {
            assert forall|q: int| 0 <= q < memory.frame.color@.len() implies #[trigger] pix(memory.frame, q)
                == entity_pixel(pix(m.frame, q), q, m, trig, view, (i + 1) as nat) by {
                assert(pix(before, q) == entity_pixel(pix(m.frame, q), q, m, trig, view, i as nat));
            }
        }
        i = i + 1;
    }
}

/// Draws one frame: the background grid, then the entity over it; the depth
/// buffer is reset for the next frame.
pub fn render(memory: &mut Memory, trig: FrameTrig)
    requires
        old(memory).wf(),
        old(memory).frame.width > 0,
    ensures
        final(memory).wf(),
        final(memory).camera == fps_camera(old(memory).camera, trig.pitch, trig.yaw),
        render_keeps(*old(memory), *final(memory)),
        forall|i: int|
            0 <= i < final(memory).frame.color@.len() ==> #[trigger] final(memory).frame.color@[i]
                == entity_pixel(
                (
                    old(memory).frame.depth@[i],
                    grid_color(
                        i % (old(memory).frame.width as int),
                        i / (old(memory).frame.width as int),
                        (old(memory).frame.width / 2) as int,
                        (old(memory).frame.height / 2) as int,
                        GRID_CENTER_COLOR,
                        GRID_LINE_COLOR,
                        GRID_BACK_COLOR,
                    ),
                ),
                i,
                Memory { frame: FrameBuffer { color: final(memory).frame.color, ..old(memory).frame }, ..*old(memory) },
                trig,
                view_of(final(memory).camera),
                old(memory).entity.mesh.triangles@.len(),
            ).1,
        forall|i: int|
            0 <= i < final(memory).frame.depth@.len() ==> (#[trigger] final(memory).frame.depth@[i]).bits
                == 65536,
{
    let w = memory.frame.width;
    let h = memory.frame.height;
    make_grid(&mut memory.frame, GRID_CENTER_COLOR, GRID_LINE_COLOR, GRID_BACK_COLOR, w, h);
    let ghost gridded = *memory;
    render_entity(memory, trig);
    let ghost drawn = memory.frame;
    clear_depth_buffer(&mut memory.frame);
    proof {
        assert forall|i: int| 0 <= i < memory.frame.color@.len() implies #[trigger] memory.frame.color@[i]
            == entity_pixel(
            (old(memory).frame.depth@[i], grid_color(i % (w as int), i / (w as int), (w / 2) as int, (h / 2) as int, GRID_CENTER_COLOR, GRID_LINE_COLOR, GRID_BACK_COLOR)),
            i,
            Memory { frame: FrameBuffer { color: memory.frame.color, ..old(memory).frame }, ..*old(memory) },
            trig,
            view_of(memory.camera),
            old(memory).entity.mesh.triangles@.len(),
        ).1 by {
            assert(pix(drawn, i) == entity_pixel(pix(gridded.frame, i), i, gridded, trig, view_of(memory.camera), old(memory).entity.mesh.triangles@.len()));
            assert(pix(gridded.frame, i) == (old(memory).frame.depth@[i], grid_color(i % (w as int), i / (w as int), (w / 2) as int, (h / 2) as int, GRID_CENTER_COLOR, GRID_LINE_COLOR, GRID_BACK_COLOR)));
            lemma_entity_pixel_same(pix(gridded.frame, i), i, gridded, Memory { frame: FrameBuffer { color: memory.frame.color, ..old(memory).frame }, ..*old(memory) }, trig, view_of(memory.camera), old(memory).entity.mesh.triangles@.len());
        }
    }
}

proof fn lemma_entity_pixel_same(cur: (Fixed, u32), i: int, a: Memory, b: Memory, trig: FrameTrig, view: Matrix4, k: nat)
    requires
        render_keeps(a, b),
        k <= a.entity.mesh.triangles@.len(),
    ensures
        entity_pixel(cur, i, a, trig, view, k) == entity_pixel(cur, i, b, trig, view, k),
    decreases k,
{
    if k > 0 {
        lemma_entity_pixel_same(cur, i, a, b, trig, view, (k - 1) as nat);
        let c = entity_pixel(cur, i, a, trig, view, (k - 1) as nat);
        let t = a.entity.mesh.triangles@[k - 1];
        lemma_triangle_pixel_same(c, i, a, b, trig, view, t);
    }
}

proof fn lemma_triangle_pixel_same(cur: (Fixed, u32), i: int, a: Memory, b: Memory, trig: FrameTrig, view: Matrix4, t: Triangle)
    requires
        render_keeps(a, b),
    ensures
        triangle_pixel(cur, i, a, trig, view, t) == triangle_pixel(cur, i, b, trig, view, t),
{
    let e = a.entity;
    let n = e.mesh.vertices@.len();
    if 1 <= t.a <= n && 1 <= t.b <= n && 1 <= t.c <= n {
        let p0 = transformed(e.mesh.vertices@[t.a - 1], trig.entity, e.scale, e.translation, view);
        let p1 = transformed(e.mesh.vertices@[t.b - 1], trig.entity, e.scale, e.translation, view);
        let p2 = transformed(e.mesh.vertices@[t.c - 1], trig.entity, e.scale, e.translation, view);
        if faces_camera(p0, p1, p2) {
            let planes = a.culling_settings.planes@;
            let poly = clip_all(planes, triangle_polygon(p0, p1, p2, t.a_uv, t.b_uv, t.c_uv), planes.len());
            let tris = fan(poly.0);
            let uvs = fan(poly.1);
            let count = if tris.len() <= uvs.len() { tris.len() } else { uvs.len() };
            lemma_fan_pixel_same(cur, i, a, b, tris, uvs, face_normal(p0, p1, p2), centroid(p0, p1, p2), count);
        }
    }
}

proof fn lemma_fan_pixel_same(cur: (Fixed, u32), i: int, a: Memory, b: Memory, tris: Seq<Seq<Vec3>>, uvs: Seq<Seq<TextureUV>>, normal: Vec3, normal_avg: Vec3, j: nat)
    requires
        render_keeps(a, b),
    ensures
        fan_pixel(cur, i, a, tris, uvs, normal, normal_avg, j) == fan_pixel(cur, i, b, tris, uvs, normal, normal_avg, j),
    decreases j,
{
    if j > 0 {
        lemma_fan_pixel_same(cur, i, a, b, tris, uvs, normal, normal_avg, (j - 1) as nat);
        lemma_clipped_pixel_same(fan_pixel(cur, i, a, tris, uvs, normal, normal_avg, (j - 1) as nat), i, a, b, tris[j - 1], uvs[j - 1], normal, normal_avg);
    }
}

/// Advances the entity's rotation for this frame.
pub fn update(memory: &mut Memory)
    ensures
        final(memory).entity.rotation == spun(
            old(memory).entity.rotation,
            old(memory).rotation_objects_type,
            fx_mul(old(memory).speed, old(memory).delta_time),
            old(memory).entity.mesh.vertices@.len(),
        ),
        final(memory).entity.mesh == old(memory).entity.mesh,
        final(memory).entity.scale == old(memory).entity.scale,
        final(memory).entity.translation == old(memory).entity.translation,
        final(memory).speed == old(memory).speed,
        final(memory).delta_time == old(memory).delta_time,
        final(memory).stop == old(memory).stop,
        final(memory).light == old(memory).light,
        final(memory).fov == old(memory).fov,
        final(memory).rotation_objects_type == old(memory).rotation_objects_type,
        final(memory).camera == old(memory).camera,
        final(memory).frame == old(memory).frame,
        final(memory).texture == old(memory).texture,
        final(memory).culling_settings == old(memory).culling_settings,
        final(memory).projection_matrix == old(memory).projection_matrix,
        final(memory).render_settings == old(memory).render_settings,
{
    let axis = memory.rotation_objects_type;
    let speed = memory.speed;
    let delta_time = memory.delta_time;
    rotate_entity(&mut memory.entity, axis, speed, delta_time);
}

} // verus!
