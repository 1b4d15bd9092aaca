use software_renderer::clipping::{clip_polygon, clip_triangle};
use software_renderer::fixed_point::Fixed;
use software_renderer::game_state::{generate_box, generate_culling_planes, init_game_memory, ViewAngles};
use software_renderer::input::{process_input, InputAction, InputEvent};
use software_renderer::math::{rotate_entity, transform_vertex, triangle_avg};
use software_renderer::matrix::get_fps_view_matrix;
use software_renderer::pipeline::{is_front_facing, render, update};
use software_renderer::types::{Triangle, Camera, EulerTrig, FrameTrig, Plane, SinCos, Texture, TextureUV, Vec2, Vec3};

fn fx(v: f64) -> Fixed {
    Fixed::from_bits((v * 65536.0).round() as i64)
}

fn v3(x: f64, y: f64, z: f64) -> Vec3 {
    Vec3 { x: fx(x), y: fx(y), z: fx(z) }
}

fn uv(u: f64, v: f64) -> TextureUV {
    TextureUV { u: fx(u), v: fx(v) }
}

fn trig(a: f64) -> SinCos {
    SinCos { sin: fx(a.sin()), cos: fx(a.cos()) }
}

fn frustum() -> Vec<Plane> {
    let fov_y = std::f64::consts::PI / 3.0;
    let fov_x = 2.0 * ((fov_y / 2.0).tan() * 1280.0 / 720.0).atan();
    generate_culling_planes(trig(fov_x / 2.0), trig(fov_y / 2.0), fx(0.01), fx(100.0))
}

fn view() -> ViewAngles {
    let fov_y = std::f64::consts::PI / 3.0;
    let fov_x = 2.0 * ((fov_y / 2.0).tan() * 1280.0 / 720.0).atan();
    ViewAngles {
        fov: Vec2 { x: fx(fov_x), y: fx(fov_y) },
        half_fov_x: trig(fov_x / 2.0),
        half_fov_y: trig(fov_y / 2.0),
        fov_scaling: fx(1.0 / (fov_y / 2.0).tan()),
    }
}

fn no_rotation() -> EulerTrig {
    EulerTrig { x: trig(0.0), y: trig(0.0), z: trig(0.0) }
}

#[test]
fn triangle_inside_the_frustum_is_kept_whole() {
    let planes = frustum();
    let (a, b, c) = (v3(-1.0, -1.0, 10.0), v3(1.0, -1.0, 10.0), v3(0.0, 1.0, 10.0));
    let (tris, uvs) = clip_triangle(&planes, a, b, c, uv(0.0, 0.0), uv(1.0, 0.0), uv(0.5, 1.0));
    assert_eq!(tris.len(), 1);
    assert_eq!(tris[0], vec![a, b, c]);
    assert_eq!(uvs[0], vec![uv(0.0, 0.0), uv(1.0, 0.0), uv(0.5, 1.0)]);
}

#[test]
fn triangle_behind_the_camera_is_clipped_away() {
    let planes = frustum();
    let (tris, uvs) = clip_triangle(
        &planes,
        v3(-1.0, -1.0, -3.0),
        v3(1.0, -1.0, -3.0),
        v3(0.0, 1.0, -3.0),
        uv(0.0, 0.0),
        uv(1.0, 0.0),
        uv(0.5, 1.0),
    );
    assert!(tris.is_empty() && uvs.is_empty());
}

#[test]
fn triangle_crossing_the_near_plane_becomes_two() {
    let planes = frustum();
    let (tris, uvs) = clip_triangle(
        &planes,
        v3(0.0, 0.0, 0.005),
        v3(0.5, 0.0, 4.0),
        v3(-0.5, 0.2, 4.0),
        uv(0.0, 0.0),
        uv(1.0, 0.0),
        uv(0.0, 1.0),
    );
    assert_eq!(tris.len(), 2);
    assert_eq!(uvs.len(), 2);
    for t in tris.iter() {
        for p in t.iter() {
            assert!(p.z.bits >= fx(0.01).bits - 8);
        }
    }
}

#[test]
fn clipping_against_one_plane_gives_a_quad() {
    let near = Plane { position: v3(0.0, 0.0, 1.0), normal_direction: v3(0.0, 0.0, 1.0) };
    let pts = vec![v3(0.0, 0.0, 0.0), v3(1.0, 0.0, 3.0), v3(-1.0, 0.0, 3.0)];
    let uvs = vec![uv(0.0, 0.0), uv(1.0, 0.0), uv(0.0, 1.0)];
    let (out, out_uv) = clip_polygon(&near, &pts, &uvs);
    assert_eq!(out.len(), 4);
    assert_eq!(out_uv.len(), 4);
    // the crossing on the edge from the last vertex back to the first
    assert!((out[0].z.bits - fx(1.0).bits).abs() <= 2);
    assert!((out[0].x.bits - fx(-1.0 / 3.0).bits).abs() <= 2);
    // then the crossing on the edge leaving the first vertex
    assert!((out[1].z.bits - fx(1.0).bits).abs() <= 2);
    assert!((out[1].x.bits - fx(1.0 / 3.0).bits).abs() <= 2);
    assert_eq!(out[2], pts[1]);
    assert_eq!(out[3], pts[2]);
}

#[test]
fn cube_seen_head_on_shows_only_its_front_face() {
    let entity = generate_box();
    assert_eq!(entity.mesh.vertices.len(), 8);
    assert_eq!(entity.mesh.triangles.len(), 12);
    let mut camera = Camera { position: v3(0.0, 0.0, -5.0), rotation: v3(0.0, 0.0, 0.0), velocity: v3(0.0, 0.0, 0.0), direction: v3(0.0, 0.0, 0.0) };
    let view = get_fps_view_matrix(&mut camera, trig(0.0), trig(0.0));
    assert_eq!(camera.direction, v3(0.0, 0.0, 1.0));
    let mut visible = 0;
    for t in entity.mesh.triangles.iter() {
        let p = |i: i32| {
            transform_vertex(entity.mesh.vertices[(i - 1) as usize], no_rotation(), entity.scale, entity.translation, view)
        };
        if is_front_facing(p(t.a), p(t.b), p(t.c)) {
            visible += 1;
        }
    }
    assert_eq!(visible, 2);
    assert_eq!(12 - visible, 10);
}

#[test]
fn cube_transform_moves_it_in_front_of_the_camera() {
    let entity = generate_box();
    let mut camera = Camera { position: v3(0.0, 0.0, -5.0), rotation: v3(0.0, 0.0, 0.0), velocity: v3(0.0, 0.0, 0.0), direction: v3(0.0, 0.0, 0.0) };
    let view = get_fps_view_matrix(&mut camera, trig(0.0), trig(0.0));
    let p = transform_vertex(entity.mesh.vertices[0], no_rotation(), entity.scale, entity.translation, view);
    assert_eq!(p, v3(-1.0, -1.0, 9.0));
    let c = triangle_avg(v3(0.0, 0.0, 0.0), v3(3.0, 0.0, 0.0), v3(0.0, 3.0, 6.0));
    assert_eq!(c, v3(1.0, 1.0, 2.0));
}

#[test]
fn rendering_the_cube_fills_the_screen_center() {
    let texture = Texture { data: vec![0xFF336699; 4], width: 2, height: 2 };
    let mut memory = init_game_memory(1280, 720, view(), texture);
    let trig_frame = FrameTrig { entity: no_rotation(), pitch: trig(0.0), yaw: trig(0.0) };
    render(&mut memory, trig_frame);
    let center = memory.frame.color[(360 * 1280 + 640) as usize];
    assert_ne!(center, 0xFF505966);
    assert_ne!(center, 0xFF292B2E);
    assert!(memory.frame.depth.iter().all(|d| d.bits == 65536));
}

#[test]
fn rendering_with_texture_writes_texels() {
    let texture = Texture { data: vec![0xFF336699; 4], width: 2, height: 2 };
    let mut memory = init_game_memory(320, 200, view(), texture);
    memory.render_settings.use_textures = true;
    memory.render_settings.draw_edges = false;
    memory.render_settings.draw_vert = false;
    let trig_frame = FrameTrig { entity: no_rotation(), pitch: trig(0.0), yaw: trig(0.0) };
    render(&mut memory, trig_frame);
    assert_eq!(memory.frame.color[(110 * 320 + 165) as usize], 0xFF336699);
}

#[test]
fn update_spins_the_selected_axis_once_per_vertex() {
    let texture = Texture { data: vec![0; 1], width: 1, height: 1 };
    let mut memory = init_game_memory(8, 8, view(), texture);
    memory.rotation_objects_type = 1;
    memory.speed = fx(0.5);
    memory.delta_time = fx(0.25);
    update(&mut memory);
    assert_eq!(memory.entity.rotation.y.bits, fx(8.0 * 0.125).bits);
    assert_eq!(memory.entity.rotation.x.bits, 0);
    let mut e = generate_box();
    rotate_entity(&mut e, 3, fx(1.0), fx(1.0));
    assert_eq!(e.rotation, v3(0.0, 0.0, 0.0));
}

#[test]
fn input_events_change_state_and_report_actions() {
    let texture = Texture { data: vec![0; 1], width: 1, height: 1 };
    let mut memory = init_game_memory(8, 8, view(), texture);
    assert_eq!(process_input(&mut memory, InputEvent::Quit), InputAction::Quit);
    assert_eq!(process_input(&mut memory, InputEvent::OpenFiles), InputAction::OpenFilePicker);
    assert_eq!(process_input(&mut memory, InputEvent::SelectAxisZ), InputAction::Continue);
    assert_eq!(memory.rotation_objects_type, 2);
    process_input(&mut memory, InputEvent::ToggleFill);
    assert!(!memory.render_settings.fill_triangles);
    process_input(&mut memory, InputEvent::MoveUp);
    assert_eq!(memory.camera.position.y.bits, 3277);
    process_input(&mut memory, InputEvent::MouseMotion { xrel: 10, yrel: -20 });
    assert_eq!(memory.camera.rotation.y.bits, 660);
    assert_eq!(memory.camera.rotation.x.bits, -1320);
    process_input(&mut memory, InputEvent::TogglePause);
    assert!(memory.stop);
}

#[test]
fn triangle_with_missing_vertex_is_dropped_and_the_rest_render() {
    let texture = Texture { data: vec![0xFF336699; 4], width: 2, height: 2 };
    let trig_frame = FrameTrig { entity: no_rotation(), pitch: trig(0.0), yaw: trig(0.0) };
    let mut plain = init_game_memory(320, 200, view(), texture);
    render(&mut plain, trig_frame);
    let texture = Texture { data: vec![0xFF336699; 4], width: 2, height: 2 };
    let mut broken = init_game_memory(320, 200, view(), texture);
    let t = broken.entity.mesh.triangles[0];
    broken.entity.mesh.triangles.insert(0, Triangle { a: 0, ..t });
    broken.entity.mesh.triangles.push(Triangle { c: 99, ..t });
    render(&mut broken, trig_frame);
    assert_eq!(plain.frame.color, broken.frame.color);
    assert_ne!(plain.frame.color[(110 * 320 + 165) as usize], 0xFF292B2E);
}
