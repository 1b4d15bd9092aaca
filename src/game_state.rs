//! Scene setup: the view frustum, the cube fixture and the initial state.
use crate::fixed_point::{fx_div, fx_int, fx_neg, Fixed};
use crate::matrix::{get_projection_matrix, projection4};
use crate::types::{
    get_vec3_identity, vec3_ones, vec3_zero, Camera, CullinSettings, Entity, FrameBuffer, Memory,
    Mesh, Plane, RenderSettings, SinCos, Texture, TextureUV, Triangle, Vec2, Vec3,
};
use vstd::prelude::*;

verus! {

/// The near clipping distance, `0.01`.
pub const Z_NEAR_BITS: i64 = 655;

/// The far clipping distance, `100`.
pub const Z_FAR_BITS: i64 = 6553600;

/// The color of untextured faces.
pub const DEFAULT_RENDER_COLOR: u32 = 0xFF184787;

pub open spec fn fixed_zero() -> Fixed {
    Fixed { bits: 0 }
}

pub open spec fn origin_plane(normal: Vec3) -> Plane {
    Plane { position: vec3_zero(), normal_direction: normal }
}

/// The six frustum planes, in the order left, right, top, bottom, near, far:
/// the side planes pass through the eye, tilted by half the horizontal and
/// vertical fields of view; near and far are perpendicular to `z`.
pub open spec fn frustum_planes(half_fov_x: SinCos, half_fov_y: SinCos, z_near: Fixed, z_far: Fixed) -> Seq<Plane> {
    let z = fixed_zero();
    seq![
        origin_plane(Vec3 { x: half_fov_x.cos, y: z, z: half_fov_x.sin }),
        origin_plane(Vec3 { x: fx_neg(half_fov_x.cos), y: z, z: half_fov_x.sin }),
        origin_plane(Vec3 { x: z, y: fx_neg(half_fov_y.cos), z: half_fov_y.sin }),
        origin_plane(Vec3 { x: z, y: half_fov_y.cos, z: half_fov_y.sin }),
        Plane {
            position: Vec3 { x: z, y: z, z: z_near },
            normal_direction: Vec3 { x: z, y: z, z: Fixed { bits: 65536 } },
        },
        Plane {
            position: Vec3 { x: z, y: z, z: z_far },
            normal_direction: Vec3 { x: z, y: z, z: Fixed { bits: -65536i64 } },
        },
    ]
}

/// Builds the frustum planes from the sines and cosines of half the horizontal
/// and half the vertical field of view.
pub fn generate_culling_planes(half_fov_x: SinCos, half_fov_y: SinCos, z_near: Fixed, z_far: Fixed) -> (r: Vec<Plane>)
    ensures
        r@ == frustum_planes(half_fov_x, half_fov_y, z_near, z_far),
{
    let z = Fixed::zero();
    let origin = Vec3::default();
    let mut planes: Vec<Plane> = Vec::new();
    planes.push(Plane { position: origin, normal_direction: Vec3 { x: half_fov_x.cos, y: z, z: half_fov_x.sin } });
    planes.push(Plane { position: origin, normal_direction: Vec3 { x: half_fov_x.cos.neg(), y: z, z: half_fov_x.sin } });
    planes.push(Plane { position: origin, normal_direction: Vec3 { x: z, y: half_fov_y.cos.neg(), z: half_fov_y.sin } });
    planes.push(Plane { position: origin, normal_direction: Vec3 { x: z, y: half_fov_y.cos, z: half_fov_y.sin } });
    planes.push(Plane {
        position: Vec3 { x: z, y: z, z: z_near },
        normal_direction: Vec3 { x: z, y: z, z: Fixed::one() },
    });
    planes.push(Plane {
        position: Vec3 { x: z, y: z, z: z_far },
        normal_direction: Vec3 { x: z, y: z, z: Fixed::one().neg() },
    });
    proof {
        assert(planes@ =~= frustum_planes(half_fov_x, half_fov_y, z_near, z_far));
    }
    planes
}

/// The corners of the cube from `(-1, -1, -1)` to `(1, 1, 1)`.
pub open spec fn cube_vertices() -> Seq<Vec3> {
    seq![
        Vec3 { x: Fixed { bits: -65536i64 }, y: Fixed { bits: -65536i64 }, z: Fixed { bits: -65536i64 } },
        Vec3 { x: Fixed { bits: -65536i64 }, y: Fixed { bits: 65536 }, z: Fixed { bits: -65536i64 } },
        Vec3 { x: Fixed { bits: 65536 }, y: Fixed { bits: 65536 }, z: Fixed { bits: -65536i64 } },
        Vec3 { x: Fixed { bits: 65536 }, y: Fixed { bits: -65536i64 }, z: Fixed { bits: -65536i64 } },
        Vec3 { x: Fixed { bits: 65536 }, y: Fixed { bits: 65536 }, z: Fixed { bits: 65536 } },
        Vec3 { x: Fixed { bits: 65536 }, y: Fixed { bits: -65536i64 }, z: Fixed { bits: 65536 } },
        Vec3 { x: Fixed { bits: -65536i64 }, y: Fixed { bits: 65536 }, z: Fixed { bits: 65536 } },
        Vec3 { x: Fixed { bits: -65536i64 }, y: Fixed { bits: -65536i64 }, z: Fixed { bits: 65536 } },
    ]
}

/// The cube's twelve triangles, two per face (front, right, back, left, top,
/// bottom), each face textured with the whole texture.
pub open spec fn cube_triangles() -> Seq<Triangle> {
    seq![
        Triangle { a: 1, b: 2, c: 3, a_uv: TextureUV { u: Fixed { bits: 0 }, v: Fixed { bits: 0 } }, b_uv: TextureUV { u: Fixed { bits: 0 }, v: Fixed { bits: 65536 } }, c_uv: TextureUV { u: Fixed { bits: 65536 }, v: Fixed { bits: 65536 } } },
        Triangle { a: 1, b: 3, c: 4, a_uv: TextureUV { u: Fixed { bits: 0 }, v: Fixed { bits: 0 } }, b_uv: TextureUV { u: Fixed { bits: 65536 }, v: Fixed { bits: 65536 } }, c_uv: TextureUV { u: Fixed { bits: 65536 }, v: Fixed { bits: 0 } } },
        Triangle { a: 4, b: 3, c: 5, a_uv: TextureUV { u: Fixed { bits: 0 }, v: Fixed { bits: 0 } }, b_uv: TextureUV { u: Fixed { bits: 0 }, v: Fixed { bits: 65536 } }, c_uv: TextureUV { u: Fixed { bits: 65536 }, v: Fixed { bits: 65536 } } },
        Triangle { a: 4, b: 5, c: 6, a_uv: TextureUV { u: Fixed { bits: 0 }, v: Fixed { bits: 0 } }, b_uv: TextureUV { u: Fixed { bits: 65536 }, v: Fixed { bits: 65536 } }, c_uv: TextureUV { u: Fixed { bits: 65536 }, v: Fixed { bits: 0 } } },
        Triangle { a: 6, b: 5, c: 7, a_uv: TextureUV { u: Fixed { bits: 0 }, v: Fixed { bits: 0 } }, b_uv: TextureUV { u: Fixed { bits: 0 }, v: Fixed { bits: 65536 } }, c_uv: TextureUV { u: Fixed { bits: 65536 }, v: Fixed { bits: 65536 } } },
        Triangle { a: 6, b: 7, c: 8, a_uv: TextureUV { u: Fixed { bits: 0 }, v: Fixed { bits: 0 } }, b_uv: TextureUV { u: Fixed { bits: 65536 }, v: Fixed { bits: 65536 } }, c_uv: TextureUV { u: Fixed { bits: 65536 }, v: Fixed { bits: 0 } } },
        Triangle { a: 8, b: 7, c: 2, a_uv: TextureUV { u: Fixed { bits: 0 }, v: Fixed { bits: 0 } }, b_uv: TextureUV { u: Fixed { bits: 0 }, v: Fixed { bits: 65536 } }, c_uv: TextureUV { u: Fixed { bits: 65536 }, v: Fixed { bits: 65536 } } },
        Triangle { a: 8, b: 2, c: 1, a_uv: TextureUV { u: Fixed { bits: 0 }, v: Fixed { bits: 0 } }, b_uv: TextureUV { u: Fixed { bits: 65536 }, v: Fixed { bits: 65536 } }, c_uv: TextureUV { u: Fixed { bits: 65536 }, v: Fixed { bits: 0 } } },
        Triangle { a: 2, b: 7, c: 5, a_uv: TextureUV { u: Fixed { bits: 0 }, v: Fixed { bits: 0 } }, b_uv: TextureUV { u: Fixed { bits: 0 }, v: Fixed { bits: 65536 } }, c_uv: TextureUV { u: Fixed { bits: 65536 }, v: Fixed { bits: 65536 } } },
        Triangle { a: 2, b: 5, c: 3, a_uv: TextureUV { u: Fixed { bits: 0 }, v: Fixed { bits: 0 } }, b_uv: TextureUV { u: Fixed { bits: 65536 }, v: Fixed { bits: 65536 } }, c_uv: TextureUV { u: Fixed { bits: 65536 }, v: Fixed { bits: 0 } } },
        Triangle { a: 6, b: 8, c: 1, a_uv: TextureUV { u: Fixed { bits: 0 }, v: Fixed { bits: 0 } }, b_uv: TextureUV { u: Fixed { bits: 0 }, v: Fixed { bits: 65536 } }, c_uv: TextureUV { u: Fixed { bits: 65536 }, v: Fixed { bits: 65536 } } },
        Triangle { a: 6, b: 1, c: 4, a_uv: TextureUV { u: Fixed { bits: 0 }, v: Fixed { bits: 0 } }, b_uv: TextureUV { u: Fixed { bits: 65536 }, v: Fixed { bits: 65536 } }, c_uv: TextureUV { u: Fixed { bits: 65536 }, v: Fixed { bits: 0 } } },
    ]
}

fn uv(u: i64, v: i64) -> (r: TextureUV)
    requires
        0 <= u <= 1,
        0 <= v <= 1,
    ensures
        r == (TextureUV { u: Fixed { bits: (u * 65536) as i64 }, v: Fixed { bits: (v * 65536) as i64 } }),
{
    TextureUV { u: Fixed::from_bits(u * 65536), v: Fixed::from_bits(v * 65536) }
}

/// The cube fixture: a unit-scale cube, unrotated, moved 5 along `z`.
pub fn generate_box() -> (r: Entity)
    ensures
        r.mesh.vertices@ == cube_vertices(),
        r.mesh.triangles@ == cube_triangles(),
        r.mesh.wf(),
        r.rotation == vec3_zero(),
        r.scale == vec3_ones(),
        r.translation == (Vec3 { x: fixed_zero(), y: fixed_zero(), z: Fixed { bits: 327680 } }),
{
    let mut vertices: Vec<Vec3> = Vec::new();
    vertices.push(Vec3 { x: Fixed::from_bits(-65536), y: Fixed::from_bits(-65536), z: Fixed::from_bits(-65536) });
    vertices.push(Vec3 { x: Fixed::from_bits(-65536), y: Fixed::from_bits(65536), z: Fixed::from_bits(-65536) });
    vertices.push(Vec3 { x: Fixed::from_bits(65536), y: Fixed::from_bits(65536), z: Fixed::from_bits(-65536) });
    vertices.push(Vec3 { x: Fixed::from_bits(65536), y: Fixed::from_bits(-65536), z: Fixed::from_bits(-65536) });
    vertices.push(Vec3 { x: Fixed::from_bits(65536), y: Fixed::from_bits(65536), z: Fixed::from_bits(65536) });
    vertices.push(Vec3 { x: Fixed::from_bits(65536), y: Fixed::from_bits(-65536), z: Fixed::from_bits(65536) });
    vertices.push(Vec3 { x: Fixed::from_bits(-65536), y: Fixed::from_bits(65536), z: Fixed::from_bits(65536) });
    vertices.push(Vec3 { x: Fixed::from_bits(-65536), y: Fixed::from_bits(-65536), z: Fixed::from_bits(65536) });
    let mut triangles: Vec<Triangle> = Vec::new();
    triangles.push(Triangle { a: 1, b: 2, c: 3, a_uv: uv(0, 0), b_uv: uv(0, 1), c_uv: uv(1, 1) });
    triangles.push(Triangle { a: 1, b: 3, c: 4, a_uv: uv(0, 0), b_uv: uv(1, 1), c_uv: uv(1, 0) });
    triangles.push(Triangle { a: 4, b: 3, c: 5, a_uv: uv(0, 0), b_uv: uv(0, 1), c_uv: uv(1, 1) });
    triangles.push(Triangle { a: 4, b: 5, c: 6, a_uv: uv(0, 0), b_uv: uv(1, 1), c_uv: uv(1, 0) });
    triangles.push(Triangle { a: 6, b: 5, c: 7, a_uv: uv(0, 0), b_uv: uv(0, 1), c_uv: uv(1, 1) });
    triangles.push(Triangle { a: 6, b: 7, c: 8, a_uv: uv(0, 0), b_uv: uv(1, 1), c_uv: uv(1, 0) });
    triangles.push(Triangle { a: 8, b: 7, c: 2, a_uv: uv(0, 0), b_uv: uv(0, 1), c_uv: uv(1, 1) });
    triangles.push(Triangle { a: 8, b: 2, c: 1, a_uv: uv(0, 0), b_uv: uv(1, 1), c_uv: uv(1, 0) });
    triangles.push(Triangle { a: 2, b: 7, c: 5, a_uv: uv(0, 0), b_uv: uv(0, 1), c_uv: uv(1, 1) });
    triangles.push(Triangle { a: 2, b: 5, c: 3, a_uv: uv(0, 0), b_uv: uv(1, 1), c_uv: uv(1, 0) });
    triangles.push(Triangle { a: 6, b: 8, c: 1, a_uv: uv(0, 0), b_uv: uv(0, 1), c_uv: uv(1, 1) });
    triangles.push(Triangle { a: 6, b: 1, c: 4, a_uv: uv(0, 0), b_uv: uv(1, 1), c_uv: uv(1, 0) });
    proof {
        assert(vertices@ =~= cube_vertices());
        assert(triangles@ =~= cube_triangles());
    }
    let mut translation = Vec3::default();
    translation.z = Fixed::from_bits(5 * 65536);
    Entity {
        mesh: Mesh { vertices, triangles },
        rotation: Vec3::default(),
        scale: get_vec3_identity(),
        translation,
    }
}

/// The field-of-view values the renderer is set up with, computed outside the
/// library from the angles.
#[derive(Clone, Copy, Debug, PartialEq, Eq, Structural)]
pub struct ViewAngles {
    /// Horizontal (x) and vertical (y) field of view, in radians.
    pub fov: Vec2,
    /// Sine and cosine of half the horizontal field of view.
    pub half_fov_x: SinCos,
    /// Sine and cosine of half the vertical field of view.
    pub half_fov_y: SinCos,
    /// `1 / tan(fov.y / 2)`.
    pub fov_scaling: Fixed,
}

pub open spec fn initial_settings() -> RenderSettings {
    RenderSettings {
        show_normals: false,
        fill_triangles: true,
        draw_vert: true,
        draw_edges: true,
        use_textures: false,
        use_lighting: false,
        default_render_color: DEFAULT_RENDER_COLOR,
    }
}

/// The starting state: a cleared `width x height` frame (depth at `1.0`), the
/// cube fixture, a camera at `(0, 0, -5)` looking along `+z`, light along `+z`,
/// no spin, and the frustum and projection for the given view.
pub fn init_game_memory(width: u32, height: u32, view: ViewAngles, texture: Texture) -> (r: Memory)
    requires
        width > 0,
        height > 0,
        width * height <= usize::MAX,
        width <= i32::MAX,
        height <= i32::MAX,
        texture.wf(),
    ensures
        r.wf(),
        r.frame.width == width,
        r.frame.height == height,
        forall|i: int| 0 <= i < r.frame.color@.len() ==> #[trigger] r.frame.color@[i] == 0,
        forall|i: int| 0 <= i < r.frame.depth@.len() ==> (#[trigger] r.frame.depth@[i]).bits == 65536,
        r.entity.mesh.vertices@ == cube_vertices(),
        r.entity.mesh.triangles@ == cube_triangles(),
        r.entity.rotation == vec3_zero(),
        r.entity.scale == vec3_ones(),
        r.entity.translation == (Vec3 { x: fixed_zero(), y: fixed_zero(), z: Fixed { bits: 327680 } }),
        r.camera.direction == vec3_zero(),
        r.camera.position == (Vec3 { x: fixed_zero(), y: fixed_zero(), z: fx_int(-5) }),
        r.camera.rotation == vec3_zero(),
        r.camera.velocity == vec3_zero(),
        r.render_settings == initial_settings(),
        r.rotation_objects_type == 0,
        r.speed.bits == 0,
        r.delta_time.bits == 0,
        !r.stop,
        r.fov == view.fov,
        r.light == (Vec3 { x: fixed_zero(), y: fixed_zero(), z: Fixed { bits: 65536 } }),
        r.texture == texture,
        r.culling_settings.planes@ == frustum_planes(
            view.half_fov_x,
            view.half_fov_y,
            Fixed { bits: Z_NEAR_BITS },
            Fixed { bits: Z_FAR_BITS },
        ),
        r.projection_matrix == projection4(
            view.fov_scaling,
            fx_div(fx_int(height as int), fx_int(width as int)),
            Fixed { bits: Z_NEAR_BITS },
            Fixed { bits: Z_FAR_BITS },
        ),
{
    let z_near = Fixed::from_bits(Z_NEAR_BITS);
    let z_far = Fixed::from_bits(Z_FAR_BITS);
    let n = width as usize * height as usize;
    let mut color: Vec<u32> = Vec::new();
    let mut depth: Vec<Fixed> = Vec::new();
    let mut i: usize = 0;
    while i < n
        invariant
            i <= n,
            color@.len() == i,
            depth@.len() == i,
            forall|j: int| 0 <= j < i ==> #[trigger] color@[j] == 0,
            forall|j: int| 0 <= j < i ==> (#[trigger] depth@[j]).bits == 65536,
        decreases n - i,
    {
        color.push(0);
        depth.push(Fixed::one());
        i = i + 1;
    }
    let aspect_ratio = Fixed::from_int(height as i64).div_by(Fixed::from_int(width as i64));
    let projection_matrix = get_projection_matrix(view.fov_scaling, aspect_ratio, z_near, z_far);
    let planes = generate_culling_planes(view.half_fov_x, view.half_fov_y, z_near, z_far);
    let zero = Fixed::zero();
    Memory {
        delta_time: zero,
        frame: FrameBuffer { color, depth, width, height },
        entity: generate_box(),
        camera: Camera {
            position: Vec3 { x: zero, y: zero, z: Fixed::from_int(-5) },
            rotation: Vec3::default(),
            velocity: Vec3::default(),
            direction: Vec3::default(),
        },
        rotation_objects_type: 0,
        speed: zero,
        stop: false,
        render_settings: RenderSettings {
            show_normals: false,
            fill_triangles: true,
            draw_vert: true,
            draw_edges: true,
            use_textures: false,
            use_lighting: false,
            default_render_color: DEFAULT_RENDER_COLOR,
        },
        fov: view.fov,
        light: Vec3 { x: zero, y: zero, z: Fixed::one() },
        texture,
        culling_settings: CullinSettings { planes, z_near, z_far },
        projection_matrix,
    }
}

} // verus!
