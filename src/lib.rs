//! A software 3D rendering pipeline: transforms, frustum clipping, projection
//! and rasterization into a CPU-side frame buffer, in fixed-point arithmetic.
pub mod fixed_point;
pub mod types;
pub mod vector;
pub mod matrix;
pub mod math;
pub mod clipping;
pub mod render;
pub mod subpixel_rendering;
pub mod pipeline;
pub mod game_state;
pub mod input;
pub mod obj;
