//! The data model: points, texture coordinates, meshes, the camera, planes and
//! the frame buffer.
use crate::fixed_point::{fx_trunc, Fixed, ONE_BITS};
use crate::matrix::Matrix4;
use vstd::prelude::*;

verus! {

/// Clamps a mathematical integer into the range of `i32`.
pub open spec fn clamp_i32(x: int) -> int {
    if x < i32::MIN {
        i32::MIN as int
    } else if x > i32::MAX {
        i32::MAX as int
    } else {
        x
    }
}

/// The pixel coordinate of a fixed-point value: truncated toward zero, saturated.
pub open spec fn pixel_of(a: Fixed) -> i32 {
    clamp_i32(fx_trunc(a)) as i32
}

/// Truncates toward zero into an `i32`.
pub fn fixed_to_pixel(a: Fixed) -> (r: i32)
    ensures
        r == pixel_of(a),
{
    let t = a.trunc();
    if t < i32::MIN as i64 {
        i32::MIN
    } else if t > i32::MAX as i64 {
        i32::MAX
    } else {
        t as i32
    }
}

#[derive(Clone, Copy, Debug, PartialEq, Eq, Structural)]
pub struct Vec2 {
    pub x: Fixed,
    pub y: Fixed,
}

/// An integer screen-space pixel coordinate.
#[derive(Clone, Copy, Debug, PartialEq, Eq, Structural)]
pub struct IntVec2 {
    pub x: i32,
    pub y: i32,
}

#[derive(Clone, Copy, Debug, PartialEq, Eq, Structural)]
pub struct IntVec3 {
    pub x: i32,
    pub y: i32,
    pub z: i32,
}

#[derive(Clone, Copy, Debug, PartialEq, Eq, Structural)]
pub struct Vec3 {
    pub x: Fixed,
    pub y: Fixed,
    pub z: Fixed,
}

impl Default for Vec2 {
    fn default() -> (r: Self)
        ensures
            r.x.bits == 0 && r.y.bits == 0,
    {
        Vec2 { x: Fixed::zero(), y: Fixed::zero() }
    }
}

impl Default for Vec3 {
    fn default() -> (r: Self)
        ensures
            r == vec3_zero(),
    {
        Vec3 { x: Fixed::zero(), y: Fixed::zero(), z: Fixed::zero() }
    }
}

pub open spec fn vec3_zero() -> Vec3 {
    Vec3 { x: Fixed { bits: 0 }, y: Fixed { bits: 0 }, z: Fixed { bits: 0 } }
}

pub open spec fn vec3_ones() -> Vec3 {
    Vec3 { x: Fixed { bits: ONE_BITS }, y: Fixed { bits: ONE_BITS }, z: Fixed { bits: ONE_BITS } }
}

/// The unit scale `(1, 1, 1)`.
pub fn get_vec3_identity() -> (r: Vec3)
    ensures
        r == vec3_ones(),
{
    Vec3 { x: Fixed::one(), y: Fixed::one(), z: Fixed::one() }
}

impl From<Vec2> for IntVec2 {
    fn from(v: Vec2) -> (r: IntVec2) {
        IntVec2 { x: fixed_to_pixel(v.x), y: fixed_to_pixel(v.y) }
    }
}

impl vstd::std_specs::convert::FromSpecImpl<Vec2> for IntVec2 {
    open spec fn obeys_from_spec() -> bool {
        true
    }

    open spec fn from_spec(v: Vec2) -> IntVec2 {
        IntVec2 { x: pixel_of(v.x), y: pixel_of(v.y) }
    }
}

/// A row-major texture of packed ARGB pixels.
pub struct Texture {
    pub data: Vec<u32>,
    pub width: u32,
    pub height: u32,
}

impl Texture {
    pub open spec fn wf(&self) -> bool {
        &&& self.width > 0
        &&& self.height > 0
        &&& self.data@.len() == self.width * self.height
        &&& self.width * self.height <= u32::MAX
    }
}

/// One RGBA pixel packed as ARGB, alpha in the high byte.
pub open spec fn argb(r: u8, g: u8, b: u8, a: u8) -> u32 {
    ((a as u32) << 24u32) | ((r as u32) << 16u32) | ((g as u32) << 8u32) | (b as u32)
}

impl Texture {
    /// A texture from row-major RGBA bytes, packed as ARGB; `None` when the size
    /// is zero, too large for `u32` pixel counts, or does not match the bytes.
    pub fn from_rgba(width: u32, height: u32, rgba: &Vec<u8>) -> (r: Option<Texture>)
        ensures
            r is Some <==> (width > 0 && height > 0 && width * height <= u32::MAX && rgba@.len()
                == 4 * width * height),
            r matches Some(t) ==> {
                &&& t.wf()
                &&& t.width == width
                &&& t.height == height
                &&& forall|i: int|
                    0 <= i < t.data@.len() ==> #[trigger] t.data@[i] == argb(
                        rgba@[4 * i],
                        rgba@[4 * i + 1],
                        rgba@[4 * i + 2],
                        rgba@[4 * i + 3],
                    )
            },
    {
        if width == 0 || height == 0 {
            return None;
        }
        assert(width * height <= 0xFFFF_FFFF * 0xFFFF_FFFF) by (nonlinear_arith)
            requires
                width <= 0xFFFF_FFFF,
                height <= 0xFFFF_FFFF,
        ;
        let count = width as u64 * height as u64;
        if count > u32::MAX as u64 || rgba.len() as u64 != 4 * count {
            proof {
                assert(4 * width * height == 4 * (width * height)) by (nonlinear_arith);
            }
            return None;
        }
        proof {
            assert(4 * width * height == 4 * (width * height)) by (nonlinear_arith);
        }
        let n = count as usize;
        let len = rgba.len();
        let mut data: Vec<u32> = Vec::new();
        let mut i: usize = 0;
        while i < n
            invariant
                n == width * height,
                rgba@.len() == 4 * n,
                len == rgba@.len(),
                n <= u32::MAX,
                i <= n,
                data@.len() == i,
                forall|j: int|
                    0 <= j < i ==> #[trigger] data@[j] == argb(
                        rgba@[4 * j],
                        rgba@[4 * j + 1],
                        rgba@[4 * j + 2],
                        rgba@[4 * j + 3],
                    ),
            decreases n - i,
        {
            let r = rgba[4 * i];
            let g = rgba[4 * i + 1];
            let b = rgba[4 * i + 2];
            let a = rgba[4 * i + 3];
            data.push(((a as u32) << 24u32) | ((r as u32) << 16u32) | ((g as u32) << 8u32) | (b as u32));
            i = i + 1;
        }
        Some(Texture { data, width, height })
    }
}

/// First-person camera state.
#[derive(Clone, Copy, Debug)]
pub struct Camera {
    pub position: Vec3,
    /// Pitch (x) and yaw (y), in radians.
    pub rotation: Vec3,
    /// Displacement accumulated since the last view update.
    pub velocity: Vec3,
    /// Unit look direction, derived from `rotation`.
    pub direction: Vec3,
}

/// A plane through `position`; points on the side `normal_direction` points to
/// are inside.
#[derive(Clone, Copy, Debug, PartialEq, Eq, Structural)]
pub struct Plane {
    pub position: Vec3,
    pub normal_direction: Vec3,
}

/// The view frustum used for clipping.
pub struct CullinSettings {
    pub planes: Vec<Plane>,
    pub z_near: Fixed,
    pub z_far: Fixed,
}

#[derive(Clone, Copy, Debug, PartialEq, Eq, Structural)]
pub struct TextureUV {
    pub u: Fixed,
    pub v: Fixed,
}

impl Default for TextureUV {
    fn default() -> (r: Self)
        ensures
            r.u.bits == 0 && r.v.bits == 0,
    {
        TextureUV { u: Fixed::zero(), v: Fixed::zero() }
    }
}

impl From<TextureUV> for Vec2 {
    fn from(v: TextureUV) -> (r: Vec2) {
        Vec2 { x: v.u, y: v.v }
    }
}

impl vstd::std_specs::convert::FromSpecImpl<TextureUV> for Vec2 {
    open spec fn obeys_from_spec() -> bool {
        true
    }

    open spec fn from_spec(v: TextureUV) -> Vec2 {
        Vec2 { x: v.u, y: v.v }
    }
}

impl From<Vec2> for TextureUV {
    fn from(v: Vec2) -> (r: TextureUV) {
        TextureUV { u: v.x, v: v.y }
    }
}

impl vstd::std_specs::convert::FromSpecImpl<Vec2> for TextureUV {
    open spec fn obeys_from_spec() -> bool {
        true
    }

    open spec fn from_spec(v: Vec2) -> TextureUV {
        TextureUV { u: v.x, v: v.y }
    }
}

/// One triangle of a mesh: 1-based vertex indices and a texture coordinate per
/// corner.
#[derive(Clone, Copy, Debug, PartialEq, Eq, Structural)]
pub struct Triangle {
    pub a: i32,
    pub b: i32,
    pub c: i32,
    pub a_uv: TextureUV,
    pub b_uv: TextureUV,
    pub c_uv: TextureUV,
}

pub struct Mesh {
    pub vertices: Vec<Vec3>,
    pub triangles: Vec<Triangle>,
}

impl Mesh {
    /// Every triangle refers to vertices that exist.
    pub open spec fn wf(&self) -> bool {
        forall|i: int|
            0 <= i < self.triangles@.len() ==> {
                let t = #[trigger] self.triangles@[i];
                &&& 1 <= t.a <= self.vertices@.len()
                &&& 1 <= t.b <= self.vertices@.len()
                &&& 1 <= t.c <= self.vertices@.len()
            }
    }
}

/// A mesh with its own scale, rotation (Euler angles in radians) and translation.
pub struct Entity {
    pub mesh: Mesh,
    pub rotation: Vec3,
    pub scale: Vec3,
    pub translation: Vec3,
}

pub struct Polygon {
    pub verticies: Vec<Vec3>,
}

/// Sine and cosine of one angle.
#[derive(Clone, Copy, Debug, PartialEq, Eq, Structural)]
pub struct SinCos {
    pub sin: Fixed,
    pub cos: Fixed,
}

/// Sines and cosines of the three Euler angles of a rotation.
#[derive(Clone, Copy, Debug, PartialEq, Eq, Structural)]
pub struct EulerTrig {
    pub x: SinCos,
    pub y: SinCos,
    pub z: SinCos,
}

/// The color buffer and the depth buffer of one frame, row-major.
pub struct FrameBuffer {
    pub color: Vec<u32>,
    /// One value per pixel; lower is closer, `1.0` is far.
    pub depth: Vec<Fixed>,
    pub width: u32,
    pub height: u32,
}

impl FrameBuffer {
    pub open spec fn wf(&self) -> bool {
        &&& self.color@.len() == self.width * self.height
        &&& self.depth@.len() == self.width * self.height
        &&& self.width <= i32::MAX
        &&& self.height <= i32::MAX
    }
}

/// Which parts of the scene a frame draws.
#[derive(Clone, Copy, Debug, PartialEq, Eq, Structural)]
pub struct RenderSettings {
    pub show_normals: bool,
    pub fill_triangles: bool,
    pub draw_vert: bool,
    pub draw_edges: bool,
    pub use_textures: bool,
    pub use_lighting: bool,
    pub default_render_color: u32,
}

/// The whole state of the renderer, passed explicitly to update and render.
pub struct Memory {
    /// Milliseconds since the previous frame.
    pub delta_time: Fixed,
    pub frame: FrameBuffer,
    pub entity: Entity,
    pub camera: Camera,
    /// The axis that entity rotation accumulates on: 0 for x, 1 for y, 2 for z.
    pub rotation_objects_type: u32,
    pub speed: Fixed,
    pub stop: bool,
    pub render_settings: RenderSettings,
    /// Horizontal (x) and vertical (y) field of view, in radians.
    pub fov: Vec2,
    pub light: Vec3,
    pub texture: Texture,
    pub culling_settings: CullinSettings,
    pub projection_matrix: Matrix4,
}

impl Memory {
    pub open spec fn wf(&self) -> bool {
        &&& self.frame.wf()
        &&& self.texture.wf()
        &&& self.culling_settings.planes@.len() <= 16
    }
}

/// Sines and cosines of the angles that one frame needs: the entity's rotation
/// and the camera's pitch and yaw.
#[derive(Clone, Copy, Debug, PartialEq, Eq, Structural)]
pub struct FrameTrig {
    pub entity: EulerTrig,
    pub pitch: SinCos,
    pub yaw: SinCos,
}

} // verus!
