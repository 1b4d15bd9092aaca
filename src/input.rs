//! Input handling as decisions: an input event changes the renderer's state
//! and says what the surrounding program should do next.
use crate::fixed_point::{fx_add, fx_int, fx_mul, fx_sub, Fixed};
use crate::math::{add3, scale3, sub3, vector3_add, vector3_mul_float, vector3_sub};
use crate::types::{Camera, Memory, RenderSettings, Vec3};
use vstd::prelude::*;

verus! {

/// Distance moved forward or back per key press, `0.09`.
pub const MOVE_STEP_BITS: i64 = 5898;

/// Distance strafed or lifted per key press, `0.05`.
pub const STRAFE_STEP_BITS: i64 = 3277;

/// Yaw turned per key press, `0.01` radians.
pub const TURN_STEP_BITS: i64 = 655;

/// Spin speed change per key press, `0.00001`.
pub const SPIN_STEP_BITS: i64 = 1;

/// Radians of camera rotation per pixel of mouse motion, `0.001`.
pub const MOUSE_SENSITIVITY_BITS: i64 = 66;

/// An input event, as the surrounding program reports it.
#[derive(Clone, Copy, Debug, PartialEq, Eq, Structural)]
pub enum InputEvent {
    /// The window was closed or escape was pressed.
    Quit,
    /// Spin the entity about x, y or z.
    SelectAxisX,
    SelectAxisY,
    SelectAxisZ,
    MoveForward,
    MoveBackward,
    StrafeLeft,
    StrafeRight,
    MoveUp,
    MoveDown,
    TurnLeft,
    TurnRight,
    StopSpin,
    SpinFaster,
    SpinSlower,
    TogglePause,
    ToggleFill,
    ToggleVertices,
    ToggleEdges,
    ToggleNormals,
    ToggleTextures,
    ToggleLighting,
    /// The mouse moved by `(xrel, yrel)` pixels.
    MouseMotion { xrel: i32, yrel: i32 },
    /// The user asked to load another model and texture.
    OpenFiles,
    /// Any other event.
    Other,
}

/// What the surrounding program does after an event.
#[derive(Clone, Copy, Debug, PartialEq, Eq, Structural)]
pub enum InputAction {
    Continue,
    Quit,
    /// Show file pickers and load the chosen model and texture.
    OpenFilePicker,
}

pub open spec fn step(bits: i64) -> Fixed {
    Fixed { bits }
}

pub open spec fn with_camera(m: Memory, c: Camera) -> Memory {
    Memory { camera: c, ..m }
}

pub open spec fn with_settings(m: Memory, s: RenderSettings) -> Memory {
    Memory { render_settings: s, ..m }
}

/// The state after an event.
pub open spec fn after_event(m: Memory, event: InputEvent) -> Memory {
    let c = m.camera;
    let s = m.render_settings;
    match event {
        InputEvent::SelectAxisX => Memory { rotation_objects_type: 0, ..m },
        InputEvent::SelectAxisY => Memory { rotation_objects_type: 1, ..m },
        InputEvent::SelectAxisZ => Memory { rotation_objects_type: 2, ..m },
        InputEvent::MoveForward => with_camera(
            m,
            Camera { position: add3(c.position, scale3(c.direction, step(MOVE_STEP_BITS))), ..c },
        ),
        InputEvent::MoveBackward => with_camera(
            m,
            Camera { position: sub3(c.position, scale3(c.direction, step(MOVE_STEP_BITS))), ..c },
        ),
        InputEvent::StrafeLeft => with_camera(
            m,
            Camera { velocity: Vec3 { x: fx_sub(c.velocity.x, step(STRAFE_STEP_BITS)), ..c.velocity }, ..c },
        ),
        InputEvent::StrafeRight => with_camera(
            m,
            Camera { velocity: Vec3 { x: fx_add(c.velocity.x, step(STRAFE_STEP_BITS)), ..c.velocity }, ..c },
        ),
        InputEvent::MoveUp => with_camera(
            m,
            Camera { position: Vec3 { y: fx_add(c.position.y, step(STRAFE_STEP_BITS)), ..c.position }, ..c },
        ),
        InputEvent::MoveDown => with_camera(
            m,
            Camera { position: Vec3 { y: fx_sub(c.position.y, step(STRAFE_STEP_BITS)), ..c.position }, ..c },
        ),
        InputEvent::TurnLeft => with_camera(
            m,
            Camera { rotation: Vec3 { y: fx_sub(c.rotation.y, step(TURN_STEP_BITS)), ..c.rotation }, ..c },
        ),
        InputEvent::TurnRight => with_camera(
            m,
            Camera { rotation: Vec3 { y: fx_add(c.rotation.y, step(TURN_STEP_BITS)), ..c.rotation }, ..c },
        ),
        InputEvent::StopSpin => Memory { speed: step(0), ..m },
        InputEvent::SpinFaster => Memory { speed: fx_add(m.speed, step(SPIN_STEP_BITS)), ..m },
        InputEvent::SpinSlower => Memory { speed: fx_sub(m.speed, step(SPIN_STEP_BITS)), ..m },
        InputEvent::TogglePause => Memory { stop: !m.stop, ..m },
        InputEvent::ToggleFill => with_settings(m, RenderSettings { fill_triangles: !s.fill_triangles, ..s }),
        InputEvent::ToggleVertices => with_settings(m, RenderSettings { draw_vert: !s.draw_vert, ..s }),
        InputEvent::ToggleEdges => with_settings(m, RenderSettings { draw_edges: !s.draw_edges, ..s }),
        InputEvent::ToggleNormals => with_settings(m, RenderSettings { show_normals: !s.show_normals, ..s }),
        InputEvent::ToggleTextures => with_settings(m, RenderSettings { use_textures: !s.use_textures, ..s }),
        InputEvent::ToggleLighting => with_settings(m, RenderSettings { use_lighting: !s.use_lighting, ..s }),
        InputEvent::MouseMotion { xrel, yrel } => with_camera(
            m,
            Camera {
                rotation: Vec3 {
                    x: fx_add(c.rotation.x, fx_mul(fx_int(yrel as int), step(MOUSE_SENSITIVITY_BITS))),
                    y: fx_add(c.rotation.y, fx_mul(fx_int(xrel as int), step(MOUSE_SENSITIVITY_BITS))),
                    ..c.rotation
                },
                ..c
            },
        ),
        _ => m,
    }
}

pub open spec fn action_of(event: InputEvent) -> InputAction {
    match event {
        InputEvent::Quit => InputAction::Quit,
        InputEvent::OpenFiles => InputAction::OpenFilePicker,
        _ => InputAction::Continue,
    }
}

/// Applies one input event to the state and says what to do next.
pub fn process_input(memory: &mut Memory, event: InputEvent) -> (r: InputAction)
    ensures
        *final(memory) == after_event(*old(memory), event),
        r == action_of(event),
{
    let move_step = Fixed::from_bits(MOVE_STEP_BITS);
    let strafe_step = Fixed::from_bits(STRAFE_STEP_BITS);
    let turn_step = Fixed::from_bits(TURN_STEP_BITS);
    let spin_step = Fixed::from_bits(SPIN_STEP_BITS);
    match event {
        InputEvent::Quit => InputAction::Quit,
        InputEvent::SelectAxisX => {
            memory.rotation_objects_type = 0;
            InputAction::Continue
        },
        InputEvent::SelectAxisY => {
            memory.rotation_objects_type = 1;
            InputAction::Continue
        },
        InputEvent::SelectAxisZ => {
            memory.rotation_objects_type = 2;
            InputAction::Continue
        },
        InputEvent::MoveForward => {
            let velocity = vector3_mul_float(memory.camera.direction, move_step);
            memory.camera.position = vector3_add(memory.camera.position, velocity);
            InputAction::Continue
        },
        InputEvent::MoveBackward => {
            let velocity = vector3_mul_float(memory.camera.direction, move_step);
            memory.camera.position = vector3_sub(memory.camera.position, velocity);
            InputAction::Continue
        },
        InputEvent::StrafeLeft => {
            memory.camera.velocity.x = memory.camera.velocity.x.minus(strafe_step);
            InputAction::Continue
        },
        InputEvent::StrafeRight => {
            memory.camera.velocity.x = memory.camera.velocity.x.plus(strafe_step);
            InputAction::Continue
        },
        InputEvent::MoveUp => {
            memory.camera.position.y = memory.camera.position.y.plus(strafe_step);
            InputAction::Continue
        },
        InputEvent::MoveDown => {
            memory.camera.position.y = memory.camera.position.y.minus(strafe_step);
            InputAction::Continue
        },
        InputEvent::TurnLeft => {
            memory.camera.rotation.y = memory.camera.rotation.y.minus(turn_step);
            InputAction::Continue
        },
        InputEvent::TurnRight => {
            memory.camera.rotation.y = memory.camera.rotation.y.plus(turn_step);
            InputAction::Continue
        },
        InputEvent::StopSpin => {
            memory.speed = Fixed::zero();
            InputAction::Continue
        },
        InputEvent::SpinFaster => {
            memory.speed = memory.speed.plus(spin_step);
            InputAction::Continue
        },
        InputEvent::SpinSlower => {
            memory.speed = memory.speed.minus(spin_step);
            InputAction::Continue
        },
        InputEvent::TogglePause => {
            memory.stop = !memory.stop;
            InputAction::Continue
        },
        InputEvent::ToggleFill => {
            memory.render_settings.fill_triangles = !memory.render_settings.fill_triangles;
            InputAction::Continue
        },
        InputEvent::ToggleVertices => {
            memory.render_settings.draw_vert = !memory.render_settings.draw_vert;
            InputAction::Continue
        },
        InputEvent::ToggleEdges => {
            memory.render_settings.draw_edges = !memory.render_settings.draw_edges;
            InputAction::Continue
        },
        InputEvent::ToggleNormals => {
            memory.render_settings.show_normals = !memory.render_settings.show_normals;
            InputAction::Continue
        },
        InputEvent::ToggleTextures => {
            memory.render_settings.use_textures = !memory.render_settings.use_textures;
            InputAction::Continue
        },
        InputEvent::ToggleLighting => {
            memory.render_settings.use_lighting = !memory.render_settings.use_lighting;
            InputAction::Continue
        },
        InputEvent::MouseMotion { xrel, yrel } => {
            let sensitivity = Fixed::from_bits(MOUSE_SENSITIVITY_BITS);
            memory.camera.rotation.x = memory.camera.rotation.x.plus(
                Fixed::from_int(yrel as i64).times(sensitivity),
            );
            memory.camera.rotation.y = memory.camera.rotation.y.plus(
                Fixed::from_int(xrel as i64).times(sensitivity),
            );
            InputAction::Continue
        },
        InputEvent::OpenFiles => InputAction::OpenFilePicker,
        InputEvent::Other => InputAction::Continue,
    }
}

} // verus!
