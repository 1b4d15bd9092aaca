//! Clipping a textured polygon against the planes of the view frustum, and
//! fan triangulation of what remains.
use crate::fixed_point::{fx_div, fx_mul, fx_sub, Fixed};
use crate::math::{
    add2, add3, dot3, scale2, scale3, sub2, sub3, vector2_add, vector2_mul_float, vector2_sub,
    vector3_add, vector3_dot, vector3_mul_float, vector3_sub,
};
use crate::types::{Plane, TextureUV, Vec2, Vec3};
use vstd::prelude::*;

verus! {

/// Signed distance of `p` from the plane, scaled by the normal's length;
/// positive on the inside.
pub open spec fn distance(plane: Plane, p: Vec3) -> Fixed {
    dot3(sub3(p, plane.position), plane.normal_direction)
}

/// Where an edge from a point at distance `prev_d` to one at distance `d`
/// crosses the plane, as a fraction of the edge.
pub open spec fn crossing_t(prev_d: Fixed, d: Fixed) -> Fixed {
    fx_div(prev_d, fx_sub(prev_d, d))
}

/// The two ends of an edge lie strictly on opposite sides.
pub open spec fn crosses(prev_d: Fixed, d: Fixed) -> bool {
    fx_mul(d, prev_d).bits < 0
}

pub open spec fn lerp3(a: Vec3, b: Vec3, t: Fixed) -> Vec3 {
    add3(a, scale3(sub3(b, a), t))
}

pub open spec fn lerp_uv(a: TextureUV, b: TextureUV, t: Fixed) -> TextureUV {
    let r = add2(Vec2 { x: a.u, y: a.v }, scale2(sub2(Vec2 { x: b.u, y: b.v }, Vec2 { x: a.u, y: a.v }), t));
    TextureUV { u: r.x, v: r.y }
}

/// The index of the vertex before vertex `i` in a closed polygon of `n` vertices.
pub open spec fn prev_index(i: int, n: int) -> int {
    if i == 0 { n - 1 } else { i - 1 }
}

/// What the edge ending at vertex `i` emits: the crossing point if the edge
/// crosses the plane, then vertex `i` itself if it is strictly inside.
pub open spec fn edge_points(plane: Plane, pts: Seq<Vec3>, i: int) -> Seq<Vec3> {
    let prev = pts[prev_index(i, pts.len() as int)];
    let cur = pts[i];
    let pd = distance(plane, prev);
    let d = distance(plane, cur);
    let crossing = if crosses(pd, d) { seq![lerp3(prev, cur, crossing_t(pd, d))] } else { seq![] };
    let inside = if d.bits > 0 { seq![cur] } else { seq![] };
    crossing + inside
}

/// The texture coordinates that go with `edge_points`.
pub open spec fn edge_uvs(plane: Plane, pts: Seq<Vec3>, uvs: Seq<TextureUV>, i: int) -> Seq<TextureUV> {
    let p = prev_index(i, pts.len() as int);
    let pd = distance(plane, pts[p]);
    let d = distance(plane, pts[i]);
    let crossing = if crosses(pd, d) { seq![lerp_uv(uvs[p], uvs[i], crossing_t(pd, d))] } else { seq![] };
    let inside = if d.bits > 0 { seq![uvs[i]] } else { seq![] };
    crossing + inside
}

/// The points emitted by the first `n` edges.
pub open spec fn clipped_points(plane: Plane, pts: Seq<Vec3>, n: nat) -> Seq<Vec3>
    decreases n,
{
    if n == 0 {
        seq![]
    } else {
        clipped_points(plane, pts, (n - 1) as nat) + edge_points(plane, pts, n - 1)
    }
}

pub open spec fn clipped_uvs(plane: Plane, pts: Seq<Vec3>, uvs: Seq<TextureUV>, n: nat) -> Seq<TextureUV>
    decreases n,
{
    if n == 0 {
        seq![]
    } else {
        clipped_uvs(plane, pts, uvs, (n - 1) as nat) + edge_uvs(plane, pts, uvs, n - 1)
    }
}

/// A polygon clipped against one plane.
pub open spec fn clip_one(plane: Plane, poly: (Seq<Vec3>, Seq<TextureUV>)) -> (Seq<Vec3>, Seq<TextureUV>) {
    (clipped_points(plane, poly.0, poly.0.len()), clipped_uvs(plane, poly.0, poly.1, poly.0.len()))
}

/// A polygon clipped against the first `k` planes in turn.
pub open spec fn clip_all(planes: Seq<Plane>, poly: (Seq<Vec3>, Seq<TextureUV>), k: nat) -> (Seq<Vec3>, Seq<TextureUV>)
    decreases k,
{
    if k == 0 {
        poly
    } else {
        clip_one(planes[k - 1], clip_all(planes, poly, (k - 1) as nat))
    }
}

proof fn lemma_edge_lengths(plane: Plane, pts: Seq<Vec3>, uvs: Seq<TextureUV>, i: int)
    ensures
        edge_points(plane, pts, i).len() == edge_uvs(plane, pts, uvs, i).len(),
        edge_points(plane, pts, i).len() <= 2,
{
}

proof fn lemma_clipped_lengths(plane: Plane, pts: Seq<Vec3>, uvs: Seq<TextureUV>, n: nat)
    ensures
        clipped_points(plane, pts, n).len() == clipped_uvs(plane, pts, uvs, n).len(),
        clipped_points(plane, pts, n).len() <= 2 * n,
    decreases n,
{
    if n > 0 {
        lemma_clipped_lengths(plane, pts, uvs, (n - 1) as nat);
        lemma_edge_lengths(plane, pts, uvs, n - 1);
    }
}

proof fn lemma_crossing_denominator(pd: Fixed, d: Fixed)
    requires
        crosses(pd, d),
    ensures
        fx_sub(pd, d).bits != 0,
        (pd.bits > 0 && d.bits < 0) || (pd.bits < 0 && d.bits > 0),
{
    if d.bits * pd.bits >= 0 {
        assert((d.bits * pd.bits) / 65536 >= 0);
    }
    if d.bits >= 0 && pd.bits >= 0 {
        assert(d.bits * pd.bits >= 0) by (nonlinear_arith)
            requires
                d.bits >= 0 && pd.bits >= 0,
        ;
    }
    if d.bits <= 0 && pd.bits <= 0 {
        assert(d.bits * pd.bits >= 0) by (nonlinear_arith)
            requires
                d.bits <= 0 && pd.bits <= 0,
        ;
    }
}

fn distance_to(plane: &Plane, p: Vec3) -> (r: Fixed)
    ensures
        r == distance(*plane, p),
{
    vector3_dot(vector3_sub(p, plane.position), plane.normal_direction)
}

/// Clips a closed polygon, with a texture coordinate per vertex, against one
/// plane, keeping the part strictly inside.
pub fn clip_polygon(plane: &Plane, polygon_points: &Vec<Vec3>, polygon_uvs: &Vec<TextureUV>) -> (r: (
    Vec<Vec3>,
    Vec<TextureUV>,
))
    requires
        polygon_points@.len() == polygon_uvs@.len(),
        polygon_points@.len() <= usize::MAX / 4,
    ensures
        r.0@ == clipped_points(*plane, polygon_points@, polygon_points@.len()),
        r.1@ == clipped_uvs(*plane, polygon_points@, polygon_uvs@, polygon_points@.len()),
        r.0@.len() == r.1@.len(),
        r.0@.len() <= 2 * polygon_points@.len(),
{
    let mut inside_points: Vec<Vec3> = Vec::new();
    let mut inside_uvs: Vec<TextureUV> = Vec::new();
    let n = polygon_points.len();
    if n == 0 {
        return (inside_points, inside_uvs);
    }
    let mut prev_point = polygon_points[n - 1];
    let mut prev_uv = polygon_uvs[n - 1];
    let mut previous_dot = distance_to(plane, prev_point);
    let mut i: usize = 0;
    while i < n
        invariant
            n == polygon_points@.len(),
            n == polygon_uvs@.len(),
            n > 0,
            i <= n,
            prev_point == polygon_points@[prev_index(i as int, n as int)],
            prev_uv == polygon_uvs@[prev_index(i as int, n as int)],
            previous_dot == distance(*plane, prev_point),
            inside_points@ == clipped_points(*plane, polygon_points@, i as nat),
            inside_uvs@ == clipped_uvs(*plane, polygon_points@, polygon_uvs@, i as nat),
        decreases n - i,
    {
        let point = polygon_points[i];
        let uv = polygon_uvs[i];
        let dot = distance_to(plane, point);
        let ghost before_p = inside_points@;
        let ghost before_u = inside_uvs@;
        if dot.times(previous_dot).bits < 0 {
            proof {
                lemma_crossing_denominator(previous_dot, dot);
            }
            let t = previous_dot.div_by(previous_dot.minus(dot));
            let intersect_point = vector3_add(
                prev_point,
                vector3_mul_float(vector3_sub(point, prev_point), t),
            );
            let intersect_uv = TextureUV::from(
                vector2_add(
                    Vec2::from(prev_uv),
                    vector2_mul_float(vector2_sub(Vec2::from(uv), Vec2::from(prev_uv)), t),
                ),
            );
            inside_points.push(intersect_point);
            inside_uvs.push(intersect_uv);
        }
        if dot.bits > 0 {
            inside_points.push(point);
            inside_uvs.push(uv);
        }
        proof {
            assert(inside_points@ =~= before_p + edge_points(*plane, polygon_points@, i as int));
            assert(inside_uvs@ =~= before_u + edge_uvs(*plane, polygon_points@, polygon_uvs@, i as int));
        }
        prev_point = point;
        prev_uv = uv;
        previous_dot = dot;
        i = i + 1;
    }
    proof {
        lemma_clipped_lengths(*plane, polygon_points@, polygon_uvs@, n as nat);
    }
    (inside_points, inside_uvs)
}

/// Fan triangulation from vertex 0: triangles `(0, i - 1, i)` for `i` in `2 .. n`.
pub open spec fn fan<T>(poly: Seq<T>) -> Seq<Seq<T>> {
    if poly.len() < 3 {
        seq![]
    } else {
        Seq::new((poly.len() - 2) as nat, |i: int| seq![poly[0], poly[i + 1], poly[i + 2]])
    }
}

/// The triangle `p0 p1 p2` with its texture coordinates, as a polygon.
pub open spec fn triangle_polygon(
    p0: Vec3,
    p1: Vec3,
    p2: Vec3,
    uv0: TextureUV,
    uv1: TextureUV,
    uv2: TextureUV,
) -> (Seq<Vec3>, Seq<TextureUV>) {
    (seq![p0, p1, p2], seq![uv0, uv1, uv2])
}

/// A bound on the size of a triangle clipped against `k` planes.
pub open spec fn size_bound(k: nat) -> nat
    decreases k,
{
    if k == 0 {
        3
    } else {
        2 * size_bound((k - 1) as nat)
    }
}

proof fn lemma_size_bound(k: nat)
    requires
        k <= 16,
    ensures
        size_bound(k) <= 196608,
    decreases 16 - k,
{
    if k < 16 {
        lemma_size_bound(k + 1);
    } else {
        reveal_with_fuel(size_bound, 17);
    }
}

fn fan_triangulate<T: Copy>(poly: &Vec<T>) -> (r: Vec<Vec<T>>)
    ensures
        r@.len() == fan(poly@).len(),
        forall|i: int| 0 <= i < r@.len() ==> (#[trigger] r@[i])@ == fan(poly@)[i],
{
    let mut triangles: Vec<Vec<T>> = Vec::new();
    if poly.len() < 3 {
        return triangles;
    }
    let mut i: usize = 2;
    while i < poly.len()
        invariant
            2 <= i <= poly@.len(),
            poly@.len() >= 3,
            triangles@.len() == i - 2,
            forall|j: int| 0 <= j < triangles@.len() ==> (#[trigger] triangles@[j])@ == fan(poly@)[j],
        decreases poly@.len() - i,
    {
        let mut triangle: Vec<T> = Vec::new();
        triangle.push(poly[0]);
        triangle.push(poly[i - 1]);
        triangle.push(poly[i]);
        proof {
            assert(triangle@ =~= fan(poly@)[i - 2]);
        }
        triangles.push(triangle);
        i = i + 1;
    }
    triangles
}

/// Clips a textured triangle against each plane in turn and fan-triangulates
/// the remaining polygon; the result is empty when fewer than three vertices
/// remain.
pub fn clip_triangle(
    planes: &Vec<Plane>,
    point0: Vec3,
    point1: Vec3,
    point2: Vec3,
    point0_uv: TextureUV,
    point1_uv: TextureUV,
    point2_uv: TextureUV,
) -> (r: (Vec<Vec<Vec3>>, Vec<Vec<TextureUV>>))
    requires
        planes@.len() <= 16,
    ensures
        ({
            let poly = clip_all(
                planes@,
                triangle_polygon(point0, point1, point2, point0_uv, point1_uv, point2_uv),
                planes@.len(),
            );
            &&& r.0@.len() == fan(poly.0).len()
            &&& r.1@.len() == fan(poly.1).len()
            &&& forall|i: int| 0 <= i < r.0@.len() ==> (#[trigger] r.0@[i])@ == fan(poly.0)[i]
            &&& forall|i: int| 0 <= i < r.1@.len() ==> (#[trigger] r.1@[i])@ == fan(poly.1)[i]
        }),
{
    let mut polygon_points: Vec<Vec3> = Vec::new();
    let mut polygon_uvs: Vec<TextureUV> = Vec::new();
    polygon_points.push(point0);
    polygon_points.push(point1);
    polygon_points.push(point2);
    polygon_uvs.push(point0_uv);
    polygon_uvs.push(point1_uv);
    polygon_uvs.push(point2_uv);
    let ghost start = triangle_polygon(point0, point1, point2, point0_uv, point1_uv, point2_uv);
    proof {
        assert(polygon_points@ =~= start.0);
        assert(polygon_uvs@ =~= start.1);
    }
    let mut k: usize = 0;
    while k < planes.len()
        invariant
            k <= planes@.len() <= 16,
            (polygon_points@, polygon_uvs@) == clip_all(planes@, start, k as nat),
            polygon_points@.len() == polygon_uvs@.len(),
            polygon_points@.len() <= size_bound(k as nat),
        decreases planes@.len() - k,
    {
        proof {
            lemma_size_bound(k as nat);
        }
        let (next_points, next_uvs) = clip_polygon(&planes[k], &polygon_points, &polygon_uvs);
        polygon_points = next_points;
        polygon_uvs = next_uvs;
        k = k + 1;
    }
    (fan_triangulate(&polygon_points), fan_triangulate(&polygon_uvs))
}

proof fn lemma_product_sign(a: Fixed, b: Fixed)
    ensures
        (a.bits >= 0 && b.bits >= 0) || (a.bits <= 0 && b.bits <= 0) ==> !crosses(a, b),
        (a.bits > 0 && b.bits < 0) || (a.bits < 0 && b.bits > 0) ==> crosses(a, b),
{
    if (a.bits >= 0 && b.bits >= 0) || (a.bits <= 0 && b.bits <= 0) {
        assert(b.bits * a.bits >= 0) by (nonlinear_arith)
            requires
                (a.bits >= 0 && b.bits >= 0) || (a.bits <= 0 && b.bits <= 0),
        ;
    }
    if (a.bits > 0 && b.bits < 0) || (a.bits < 0 && b.bits > 0) {
        assert(b.bits * a.bits <= -1) by (nonlinear_arith)
            requires
                (a.bits > 0 && b.bits < 0) || (a.bits < 0 && b.bits > 0),
        ;
    }
}

proof fn lemma_clip_keeps_inside(plane: Plane, pts: Seq<Vec3>, uvs: Seq<TextureUV>, n: nat)
    requires
        n <= pts.len(),
        uvs.len() == pts.len(),
        forall|i: int| 0 <= i < pts.len() ==> (#[trigger] distance(plane, pts[i])).bits > 0,
    ensures
        clipped_points(plane, pts, n) == pts.subrange(0, n as int),
        clipped_uvs(plane, pts, uvs, n) == uvs.subrange(0, n as int),
    decreases n,
{
    if n > 0 {
        lemma_clip_keeps_inside(plane, pts, uvs, (n - 1) as nat);
        let i = n - 1;
        let p = prev_index(i, pts.len() as int);
        lemma_product_sign(distance(plane, pts[i]), distance(plane, pts[p]));
        assert(edge_points(plane, pts, i) =~= seq![pts[i]]);
        assert(edge_uvs(plane, pts, uvs, i) =~= seq![uvs[i]]);
        assert(pts.subrange(0, n as int) =~= pts.subrange(0, i) + seq![pts[i]]);
        assert(uvs.subrange(0, n as int) =~= uvs.subrange(0, i) + seq![uvs[i]]);
    } else {
        assert(pts.subrange(0, 0) =~= seq![]);
        assert(uvs.subrange(0, 0) =~= seq![]);
    }
}

proof fn lemma_clip_drops_outside(plane: Plane, pts: Seq<Vec3>, uvs: Seq<TextureUV>, n: nat)
    requires
        n <= pts.len(),
        forall|i: int| 0 <= i < pts.len() ==> (#[trigger] distance(plane, pts[i])).bits <= 0,
    ensures
        clipped_points(plane, pts, n).len() == 0,
        clipped_uvs(plane, pts, uvs, n).len() == 0,
    decreases n,
{
    if n > 0 {
        lemma_clip_drops_outside(plane, pts, uvs, (n - 1) as nat);
        let i = n - 1;
        let p = prev_index(i, pts.len() as int);
        lemma_product_sign(distance(plane, pts[i]), distance(plane, pts[p]));
    }
}

/// A triangle strictly inside every plane comes through clipping unchanged:
/// the result is the one triangle itself, with its texture coordinates, and no
/// new vertex.
pub proof fn lemma_clip_inside_is_identity(
    planes: Seq<Plane>,
    p0: Vec3,
    p1: Vec3,
    p2: Vec3,
    uv0: TextureUV,
    uv1: TextureUV,
    uv2: TextureUV,
)
    requires
        forall|k: int|
            0 <= k < planes.len() ==> (#[trigger] distance(planes[k], p0)).bits > 0 && distance(
                planes[k],
                p1,
            ).bits > 0 && distance(planes[k], p2).bits > 0,
    ensures
        clip_all(planes, triangle_polygon(p0, p1, p2, uv0, uv1, uv2), planes.len())
            == triangle_polygon(p0, p1, p2, uv0, uv1, uv2),
        fan(triangle_polygon(p0, p1, p2, uv0, uv1, uv2).0) == seq![seq![p0, p1, p2]],
        fan(triangle_polygon(p0, p1, p2, uv0, uv1, uv2).1) == seq![seq![uv0, uv1, uv2]],
{
    let t = triangle_polygon(p0, p1, p2, uv0, uv1, uv2);
    lemma_clip_all_inside(planes, t, planes.len());
    assert(fan(t.0) =~= seq![seq![p0, p1, p2]]);
    assert(fan(t.1) =~= seq![seq![uv0, uv1, uv2]]);
}

proof fn lemma_clip_all_inside(planes: Seq<Plane>, t: (Seq<Vec3>, Seq<TextureUV>), k: nat)
    requires
        k <= planes.len(),
        t.0.len() == 3,
        t.1.len() == 3,
        forall|j: int|
            0 <= j < planes.len() ==> (#[trigger] distance(planes[j], t.0[0])).bits > 0 && distance(
                planes[j],
                t.0[1],
            ).bits > 0 && distance(planes[j], t.0[2]).bits > 0,
    ensures
        clip_all(planes, t, k) == t,
    decreases k,
{
    if k > 0 {
        lemma_clip_all_inside(planes, t, (k - 1) as nat);
        let plane = planes[k - 1];
        assert(distance(plane, t.0[0]).bits > 0);
        assert forall|i: int| 0 <= i < t.0.len() implies (#[trigger] distance(plane, t.0[i])).bits
            > 0 by {
            assert(i == 0 || i == 1 || i == 2);
        }
        lemma_clip_keeps_inside(plane, t.0, t.1, 3);
        assert(t.0.subrange(0, 3) =~= t.0);
        assert(t.1.subrange(0, 3) =~= t.1);
    }
}

proof fn lemma_clip_all_empty(planes: Seq<Plane>, t: (Seq<Vec3>, Seq<TextureUV>), from: nat, k: nat)
    requires
        from <= k <= planes.len(),
        clip_all(planes, t, from).0.len() == 0,
        clip_all(planes, t, from).1.len() == 0,
    ensures
        clip_all(planes, t, k).0.len() == 0,
        clip_all(planes, t, k).1.len() == 0,
    decreases k,
{
    if k > from {
        lemma_clip_all_empty(planes, t, from, (k - 1) as nat);
    }
}

/// A polygon that reaches some plane with every vertex on that plane's outer
/// side (or on the plane) is clipped away entirely: no triangle comes out.
pub proof fn lemma_clip_outside_is_empty(
    planes: Seq<Plane>,
    p0: Vec3,
    p1: Vec3,
    p2: Vec3,
    uv0: TextureUV,
    uv1: TextureUV,
    uv2: TextureUV,
    k: nat,
)
    requires
        k < planes.len(),
        forall|i: int|
            0 <= i < clip_all(planes, triangle_polygon(p0, p1, p2, uv0, uv1, uv2), k).0.len()
                ==> (#[trigger] distance(
                planes[k as int],
                clip_all(planes, triangle_polygon(p0, p1, p2, uv0, uv1, uv2), k).0[i],
            )).bits <= 0,
    ensures
        fan(clip_all(planes, triangle_polygon(p0, p1, p2, uv0, uv1, uv2), planes.len()).0).len()
            == 0,
        fan(clip_all(planes, triangle_polygon(p0, p1, p2, uv0, uv1, uv2), planes.len()).1).len()
            == 0,
{
    let t = triangle_polygon(p0, p1, p2, uv0, uv1, uv2);
    let before = clip_all(planes, t, k);
    lemma_clip_drops_outside(planes[k as int], before.0, before.1, before.0.len());
    lemma_clip_all_empty(planes, t, k + 1, planes.len());
}

/// A triangle with all three corners on the outer side of the first plane (or
/// on it) is clipped away entirely.
pub proof fn lemma_clip_outside_first_plane(
    planes: Seq<Plane>,
    p0: Vec3,
    p1: Vec3,
    p2: Vec3,
    uv0: TextureUV,
    uv1: TextureUV,
    uv2: TextureUV,
)
    requires
        planes.len() > 0,
        distance(planes[0], p0).bits <= 0,
        distance(planes[0], p1).bits <= 0,
        distance(planes[0], p2).bits <= 0,
    ensures
        fan(clip_all(planes, triangle_polygon(p0, p1, p2, uv0, uv1, uv2), planes.len()).0).len()
            == 0,
        fan(clip_all(planes, triangle_polygon(p0, p1, p2, uv0, uv1, uv2), planes.len()).1).len()
            == 0,
{
    let t = triangle_polygon(p0, p1, p2, uv0, uv1, uv2);
    assert forall|i: int| 0 <= i < clip_all(planes, t, 0).0.len() implies (#[trigger] distance(
        planes[0],
        clip_all(planes, t, 0).0[i],
    )).bits <= 0 by {
        assert(i == 0 || i == 1 || i == 2);
    }
    lemma_clip_outside_is_empty(planes, p0, p1, p2, uv0, uv1, uv2, 0);
}

/// A triangle with exactly one corner strictly outside a plane and the other
/// two strictly inside clips to a quadrilateral, which fans into two triangles.
pub proof fn lemma_clip_one_corner_gives_quad(
    plane: Plane,
    p0: Vec3,
    p1: Vec3,
    p2: Vec3,
    uv0: TextureUV,
    uv1: TextureUV,
    uv2: TextureUV,
)
    requires
        ({
            let d0 = distance(plane, p0).bits;
            let d1 = distance(plane, p1).bits;
            let d2 = distance(plane, p2).bits;
            ||| (d0 < 0 && d1 > 0 && d2 > 0)
            ||| (d0 > 0 && d1 < 0 && d2 > 0)
            ||| (d0 > 0 && d1 > 0 && d2 < 0)
        }),
    ensures
        clip_one(plane, triangle_polygon(p0, p1, p2, uv0, uv1, uv2)).0.len() == 4,
        clip_one(plane, triangle_polygon(p0, p1, p2, uv0, uv1, uv2)).1.len() == 4,
        fan(clip_one(plane, triangle_polygon(p0, p1, p2, uv0, uv1, uv2)).0).len() == 2,
        fan(clip_one(plane, triangle_polygon(p0, p1, p2, uv0, uv1, uv2)).1).len() == 2,
{
    let t = triangle_polygon(p0, p1, p2, uv0, uv1, uv2);
    let d0 = distance(plane, p0);
    let d1 = distance(plane, p1);
    let d2 = distance(plane, p2);
    lemma_product_sign(d0, d2);
    lemma_product_sign(d1, d0);
    lemma_product_sign(d2, d1);
    assert(t.0[0] == p0 && t.0[1] == p1 && t.0[2] == p2);
    assert(prev_index(0, 3) == 2 && prev_index(1, 3) == 0 && prev_index(2, 3) == 1);
    lemma_edge_lengths(plane, t.0, t.1, 0);
    lemma_edge_lengths(plane, t.0, t.1, 1);
    lemma_edge_lengths(plane, t.0, t.1, 2);
    lemma_clipped_lengths(plane, t.0, t.1, 3);
    assert(clipped_points(plane, t.0, 3).len() == edge_points(plane, t.0, 0).len() + edge_points(
        plane,
        t.0,
        1,
    ).len() + edge_points(plane, t.0, 2).len()) by {
        reveal_with_fuel(clipped_points, 4);
    }
}

/// A polygon strictly inside a plane comes back from clipping against it
/// unchanged, texture coordinates included.
pub proof fn lemma_clip_polygon_inside_unchanged(plane: Plane, pts: Seq<Vec3>, uvs: Seq<TextureUV>)
    requires
        uvs.len() == pts.len(),
        forall|i: int| 0 <= i < pts.len() ==> (#[trigger] distance(plane, pts[i])).bits > 0,
    ensures
        clip_one(plane, (pts, uvs)) == (pts, uvs),
{
    lemma_clip_keeps_inside(plane, pts, uvs, pts.len());
    assert(pts.subrange(0, pts.len() as int) =~= pts);
    assert(uvs.subrange(0, uvs.len() as int) =~= uvs);
}

/// A polygon with no vertex strictly inside a plane is clipped away entirely.
pub proof fn lemma_clip_polygon_outside_empty(plane: Plane, pts: Seq<Vec3>, uvs: Seq<TextureUV>)
    requires
        forall|i: int| 0 <= i < pts.len() ==> (#[trigger] distance(plane, pts[i])).bits <= 0,
    ensures
        clip_one(plane, (pts, uvs)).0.len() == 0,
        clip_one(plane, (pts, uvs)).1.len() == 0,
{
    lemma_clip_drops_outside(plane, pts, uvs, pts.len());
}

/// The crossing point of the edge from `a` to `b` with the plane.
pub open spec fn crossing(plane: Plane, a: Vec3, b: Vec3) -> Vec3 {
    lerp3(a, b, crossing_t(distance(plane, a), distance(plane, b)))
}

/// The quadrilateral left when one corner of a triangle lies strictly outside
/// a plane and the other two strictly inside: the two kept corners and the two
/// crossing points, in the triangle's cyclic order.
pub proof fn lemma_clip_one_corner_quad_points(plane: Plane, p0: Vec3, p1: Vec3, p2: Vec3, uv0: TextureUV, uv1: TextureUV, uv2: TextureUV)
    ensures
        ({
            let d0 = distance(plane, p0).bits;
            let d1 = distance(plane, p1).bits;
            let d2 = distance(plane, p2).bits;
            let q = clip_one(plane, triangle_polygon(p0, p1, p2, uv0, uv1, uv2)).0;
            &&& (d0 < 0 && d1 > 0 && d2 > 0) ==> q == seq![crossing(plane, p2, p0), crossing(plane, p0, p1), p1, p2]
            &&& (d0 > 0 && d1 < 0 && d2 > 0) ==> q == seq![p0, crossing(plane, p0, p1), crossing(plane, p1, p2), p2]
            &&& (d0 > 0 && d1 > 0 && d2 < 0) ==> q == seq![crossing(plane, p2, p0), p0, p1, crossing(plane, p1, p2)]
        }),
{
    let t = triangle_polygon(p0, p1, p2, uv0, uv1, uv2);
    let d0 = distance(plane, p0);
    let d1 = distance(plane, p1);
    let d2 = distance(plane, p2);
    lemma_product_sign(d0, d2);
    lemma_product_sign(d1, d0);
    lemma_product_sign(d2, d1);
    assert(t.0[0] == p0 && t.0[1] == p1 && t.0[2] == p2);
    assert(prev_index(0, 3) == 2 && prev_index(1, 3) == 0 && prev_index(2, 3) == 1);
    assert(clipped_points(plane, t.0, 3) == edge_points(plane, t.0, 0) + edge_points(plane, t.0, 1) + edge_points(plane, t.0, 2)) by {
        reveal_with_fuel(clipped_points, 4);
        assert(seq![] + edge_points(plane, t.0, 0) =~= edge_points(plane, t.0, 0));
    }
    let e0 = edge_points(plane, t.0, 0);
    let e1 = edge_points(plane, t.0, 1);
    let e2 = edge_points(plane, t.0, 2);
    if d0.bits < 0 && d1.bits > 0 && d2.bits > 0 {
        assert(e0 =~= seq![crossing(plane, p2, p0)]);
        assert(e1 =~= seq![crossing(plane, p0, p1), p1]);
        assert(e2 =~= seq![p2]);
        assert(e0 + e1 + e2 =~= seq![crossing(plane, p2, p0), crossing(plane, p0, p1), p1, p2]);
    }
    if d0.bits > 0 && d1.bits < 0 && d2.bits > 0 {
        assert(e0 =~= seq![p0]);
        assert(e1 =~= seq![crossing(plane, p0, p1)]);
        assert(e2 =~= seq![crossing(plane, p1, p2), p2]);
        assert(e0 + e1 + e2 =~= seq![p0, crossing(plane, p0, p1), crossing(plane, p1, p2), p2]);
    }
    if d0.bits > 0 && d1.bits > 0 && d2.bits < 0 {
        assert(e0 =~= seq![crossing(plane, p2, p0), p0]);
        assert(e1 =~= seq![p1]);
        assert(e2 =~= seq![crossing(plane, p1, p2)]);
        assert(e0 + e1 + e2 =~= seq![crossing(plane, p2, p0), p0, p1, crossing(plane, p1, p2)]);
    }
}

} // verus!
