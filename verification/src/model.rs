//! Triangles, models, and the ray intersection rule.
//!
//! The intersection test is the classic front-face-only plane/edge test, but
//! carried out in exact integer arithmetic: instead of dividing by the plane
//! denominator to obtain the hit point, every inside test is multiplied
//! through by the (positive) denominator, so each decision is the exact sign
//! of an integer and the executable code provably equals the mathematical
//! rule [`spec_intersect_triangle`].

use vstd::prelude::*;

use crate::fixed::{
    add3, bounded3, cross3, div_trunc_wide, dot3, lemma_cross_add_scale_right, lemma_cross_self,
    lemma_cross_scale_right, lemma_dot_add_scale_right, lemma_dot_cross_cancel,
    lemma_dot_scale_right, lemma_mul_bound, lemma_sdiv_bound, neg3, scale3, sdiv3, sub3, Vec3,
    COORD_BOUND, DIR_BOUND, SCALE,
};
use crate::storage::{Point3ID, VecStorage};

verus! {

/// Bound on a triangle-normal component computed from in-bound vertices.
pub const NORMAL_BOUND: i128 = 0x4_0000_0000;

/// Bound on the plane denominator and the scaled plane-distance numerator.
pub const PLANE_BOUND: i128 = 0x40_0000_0000_0000;

/// A ray: an origin and a direction (not required to be unit length), built
/// fresh per intersection test and never stored.
#[derive(Clone, Copy, Debug)]
pub struct Ray {
    pub start_position: Vec3,
    pub vector: Vec3,
}

impl Ray {
    pub fn new(start_position: Vec3, vector: Vec3) -> (r: Ray)
        ensures
            r == (Ray { start_position, vector }),
    {
        Ray { start_position, vector }
    }
}

/// Exactly three handles into one specific vertex store, in winding order.
#[derive(Clone, Copy, Debug, PartialEq, Eq)]
pub struct Triangle {
    points: [Point3ID; 3],
}

impl Triangle {
    pub fn new(points: [Point3ID; 3]) -> (t: Triangle)
        ensures
            forall|i: int| 0 <= i < 3 ==> t.spec_id(i) == points[i],
    {
        Triangle { points }
    }

    /// The handle of the `i`-th vertex.
    pub closed spec fn spec_id(self, i: int) -> Point3ID {
        self.points[i]
    }

    /// All three handles index into a store of `n` points.
    pub open spec fn valid(self, n: int) -> bool {
        &&& self.spec_id(0).0 < n
        &&& self.spec_id(1).0 < n
        &&& self.spec_id(2).0 < n
    }
}

/// The inside test for directed edge `a -> b`, scaled by the plane
/// denominator `denom`: the sign of `dot(n, cross(b - a, p - a))`, where
/// `p = orig + (snum / denom) * dir` is the ray's plane hit, after
/// multiplying through by `denom > 0` (which keeps the sign and stays exact).
pub open spec fn edge_test(
    n: (int, int, int),
    denom: int,
    snum: int,
    a: (int, int, int),
    b: (int, int, int),
    orig: (int, int, int),
    dir: (int, int, int),
) -> int {
    dot3(n, cross3(sub3(b, a), add3(scale3(denom, sub3(orig, a)), scale3(snum, dir))))
}

/// The front-face ray–triangle intersection rule. With vertices `v1, v2, v3`
/// (winding order), normal `n = (v2 - v1) x (v3 - v1)` and plane offset
/// `d = dot(n, v1)`, a ray from `orig` along `dir` hits exactly when:
/// the ray approaches the front face (`denom = dot(n, dir) > 0`; with exact
/// arithmetic the edge-on case is `denom == 0`, so no epsilon margin is
/// needed), the plane distance `t = (dot(n, orig) + d) / denom` is not
/// negative, and the plane hit `orig + t * dir` lies inside all three edges.
pub open spec fn spec_intersect_triangle(
    v1: (int, int, int),
    v2: (int, int, int),
    v3: (int, int, int),
    orig: (int, int, int),
    dir: (int, int, int),
) -> bool {
    let n = cross3(sub3(v2, v1), sub3(v3, v1));
    let denom = dot3(n, dir);
    let snum = dot3(n, orig) + dot3(n, v1);
    &&& denom > 0
    &&& snum >= 0
    &&& edge_test(n, denom, snum, v1, v2, orig, dir) >= 0
    &&& edge_test(n, denom, snum, v2, v3, orig, dir) >= 0
    &&& edge_test(n, denom, snum, v3, v1, orig, dir) >= 0
}

/// Evaluates one scaled inside test and reports whether the plane hit lies
/// inside the directed edge `a -> b`.
fn edge_sign(
    nx: i128,
    ny: i128,
    nz: i128,
    denom: i128,
    snum: i128,
    a: Vec3,
    b: Vec3,
    orig: Vec3,
    dir: Vec3,
) -> (inside: bool)
    requires
        bounded3((nx as int, ny as int, nz as int), NORMAL_BOUND as int),
        -PLANE_BOUND <= denom <= PLANE_BOUND,
        -PLANE_BOUND <= snum <= PLANE_BOUND,
        bounded3(a@, COORD_BOUND as int),
        bounded3(b@, COORD_BOUND as int),
        bounded3(orig@, COORD_BOUND as int),
        bounded3(dir@, DIR_BOUND as int),
    ensures
        inside == (edge_test(
            (nx as int, ny as int, nz as int),
            denom as int,
            snum as int,
            a@,
            b@,
            orig@,
            dir@,
        ) >= 0),
{
    let ex: i64 = b.x - a.x;
    let ey: i64 = b.y - a.y;
    let ez: i64 = b.z - a.z;
    let wx: i128 = orig.x as i128 - a.x as i128;
    let wy: i128 = orig.y as i128 - a.y as i128;
    let wz: i128 = orig.z as i128 - a.z as i128;
    proof {
        lemma_mul_bound(denom as int, wx as int, PLANE_BOUND as int, 0x1_0000);
        lemma_mul_bound(denom as int, wy as int, PLANE_BOUND as int, 0x1_0000);
        lemma_mul_bound(denom as int, wz as int, PLANE_BOUND as int, 0x1_0000);
        lemma_mul_bound(snum as int, dir@.0, PLANE_BOUND as int, DIR_BOUND as int);
        lemma_mul_bound(snum as int, dir@.1, PLANE_BOUND as int, DIR_BOUND as int);
        lemma_mul_bound(snum as int, dir@.2, PLANE_BOUND as int, DIR_BOUND as int);
    }
    let rx: i128 = denom * wx + snum * (dir.x as i128);
    let ry: i128 = denom * wy + snum * (dir.y as i128);
    let rz: i128 = denom * wz + snum * (dir.z as i128);
    proof {
        let rb: int = 0x100_0000_0000_0000_0000;
        lemma_mul_bound(ey as int, rz as int, 0x1_0000, rb);
        lemma_mul_bound(ez as int, ry as int, 0x1_0000, rb);
        lemma_mul_bound(ez as int, rx as int, 0x1_0000, rb);
        lemma_mul_bound(ex as int, rz as int, 0x1_0000, rb);
        lemma_mul_bound(ex as int, ry as int, 0x1_0000, rb);
        lemma_mul_bound(ey as int, rx as int, 0x1_0000, rb);
    }
    let cx: i128 = (ey as i128) * rz - (ez as i128) * ry;
    let cy: i128 = (ez as i128) * rx - (ex as i128) * rz;
    let cz: i128 = (ex as i128) * ry - (ey as i128) * rx;
    proof {
        let cb: int = 0x400_0000_0000_0000_0000_0000;
        lemma_mul_bound(nx as int, cx as int, NORMAL_BOUND as int, cb);
        lemma_mul_bound(ny as int, cy as int, NORMAL_BOUND as int, cb);
        lemma_mul_bound(nz as int, cz as int, NORMAL_BOUND as int, cb);
    }
    let t: i128 = nx * cx + ny * cy + nz * cz;
    proof {
        let gr = add3(scale3(denom as int, sub3(orig@, a@)), scale3(snum as int, dir@));
        assert(rx as int == gr.0 && ry as int == gr.1 && rz as int == gr.2);
        let gc = cross3(sub3(b@, a@), gr);
        assert(cx as int == gc.0 && cy as int == gc.1 && cz as int == gc.2);
        assert(t as int == dot3((nx as int, ny as int, nz as int), gc));
    }
    t >= 0
}

/// Tests one triangle of a store against a ray; exactly the mathematical rule
/// [`spec_intersect_triangle`] applied to the triangle's vertices.
pub fn intersect_triangle(triangle: &Triangle, storage: &VecStorage, ray: &Ray) -> (hit: bool)
    requires
        triangle.valid(storage@.len() as int),
        forall|i: int| 0 <= i < storage@.len() ==> bounded3(#[trigger] storage@[i]@, COORD_BOUND as int),
        bounded3(ray.start_position@, COORD_BOUND as int),
        bounded3(ray.vector@, DIR_BOUND as int),
    ensures
        hit == spec_intersect_triangle(
            storage@[triangle.spec_id(0).0 as int]@,
            storage@[triangle.spec_id(1).0 as int]@,
            storage@[triangle.spec_id(2).0 as int]@,
            ray.start_position@,
            ray.vector@,
        ),
{
    let v1: Vec3 = storage.get_unchecked(triangle.points[0]);
    let v2: Vec3 = storage.get_unchecked(triangle.points[1]);
    let v3: Vec3 = storage.get_unchecked(triangle.points[2]);
    proof {
        assert(bounded3(storage@[triangle.spec_id(0).0 as int]@, COORD_BOUND as int));
        assert(bounded3(storage@[triangle.spec_id(1).0 as int]@, COORD_BOUND as int));
        assert(bounded3(storage@[triangle.spec_id(2).0 as int]@, COORD_BOUND as int));
    }

    let e1x: i64 = v2.x - v1.x;
    let e1y: i64 = v2.y - v1.y;
    let e1z: i64 = v2.z - v1.z;
    let e2x: i64 = v3.x - v1.x;
    let e2y: i64 = v3.y - v1.y;
    let e2z: i64 = v3.z - v1.z;
    proof {
        lemma_mul_bound(e1y as int, e2z as int, 0x1_0000, 0x1_0000);
        lemma_mul_bound(e1z as int, e2y as int, 0x1_0000, 0x1_0000);
        lemma_mul_bound(e1z as int, e2x as int, 0x1_0000, 0x1_0000);
        lemma_mul_bound(e1x as int, e2z as int, 0x1_0000, 0x1_0000);
        lemma_mul_bound(e1x as int, e2y as int, 0x1_0000, 0x1_0000);
        lemma_mul_bound(e1y as int, e2x as int, 0x1_0000, 0x1_0000);
    }
    let nx: i128 = (e1y as i128) * (e2z as i128) - (e1z as i128) * (e2y as i128);
    let ny: i128 = (e1z as i128) * (e2x as i128) - (e1x as i128) * (e2z as i128);
    let nz: i128 = (e1x as i128) * (e2y as i128) - (e1y as i128) * (e2x as i128);
    proof {
        lemma_mul_bound(nx as int, ray.vector@.0, NORMAL_BOUND as int, DIR_BOUND as int);
        lemma_mul_bound(ny as int, ray.vector@.1, NORMAL_BOUND as int, DIR_BOUND as int);
        lemma_mul_bound(nz as int, ray.vector@.2, NORMAL_BOUND as int, DIR_BOUND as int);
    }
    let denom: i128 = nx * (ray.vector.x as i128) + ny * (ray.vector.y as i128) + nz * (
    ray.vector.z as i128);
    if denom <= 0 {
        return false;
    }
    proof {
        lemma_mul_bound(nx as int, ray.start_position@.0, NORMAL_BOUND as int, COORD_BOUND as int);
        lemma_mul_bound(ny as int, ray.start_position@.1, NORMAL_BOUND as int, COORD_BOUND as int);
        lemma_mul_bound(nz as int, ray.start_position@.2, NORMAL_BOUND as int, COORD_BOUND as int);
        lemma_mul_bound(nx as int, v1@.0, NORMAL_BOUND as int, COORD_BOUND as int);
        lemma_mul_bound(ny as int, v1@.1, NORMAL_BOUND as int, COORD_BOUND as int);
        lemma_mul_bound(nz as int, v1@.2, NORMAL_BOUND as int, COORD_BOUND as int);
    }
    let n_dot_orig: i128 = nx * (ray.start_position.x as i128) + ny * (ray.start_position.y
        as i128) + nz * (ray.start_position.z as i128);
    let d: i128 = nx * (v1.x as i128) + ny * (v1.y as i128) + nz * (v1.z as i128);
    let snum: i128 = n_dot_orig + d;
    if snum < 0 {
        return false;
    }
    if !edge_sign(nx, ny, nz, denom, snum, v1, v2, ray.start_position, ray.vector) {
        return false;
    }
    if !edge_sign(nx, ny, nz, denom, snum, v2, v3, ray.start_position, ray.vector) {
        return false;
    }
    if !edge_sign(nx, ny, nz, denom, snum, v3, v1, ray.start_position, ray.vector) {
        return false;
    }
    true
}

/// Componentwise sum of a sequence of points.
pub open spec fn sum3(s: Seq<Vec3>) -> (int, int, int)
    decreases s.len(),
{
    if s.len() == 0 {
        (0, 0, 0)
    } else {
        add3(sum3(s.drop_last()), s.last()@)
    }
}

/// The centroid of a non-empty point sequence: the componentwise average,
/// rounded toward zero.
pub open spec fn spec_centroid(s: Seq<Vec3>) -> (int, int, int)
    recommends
        s.len() > 0,
{
    sdiv3(sum3(s), s.len() as int)
}

/// A sum of bounded points is bounded by the count times the bound.
proof fn lemma_sum3_bounded(s: Seq<Vec3>, b: int)
    requires
        b >= 0,
        forall|i: int| 0 <= i < s.len() ==> bounded3(#[trigger] s[i]@, b),
    ensures
        bounded3(sum3(s), s.len() * b),
    decreases s.len(),
{
    if s.len() == 0 {
    } else {
        lemma_sum3_bounded(s.drop_last(), b);
        assert((s.len() - 1) * b + b == s.len() * b) by (nonlinear_arith) {}
    }
}

/// Averages a non-empty list of points; used once at model construction.
pub fn calculate_center(vertices: &Vec<Vec3>) -> (c: Vec3)
    requires
        vertices@.len() > 0,
        forall|i: int|
            0 <= i < vertices@.len() ==> bounded3(#[trigger] vertices@[i]@, COORD_BOUND as int),
    ensures
        c@ == spec_centroid(vertices@),
{
    let n: usize = vertices.len();
    let mut sx: i128 = 0;
    let mut sy: i128 = 0;
    let mut sz: i128 = 0;
    let mut j: usize = 0;
    while j < n
        invariant
            j <= n,
            n == vertices@.len(),
            forall|i: int|
                0 <= i < vertices@.len() ==> bounded3(#[trigger] vertices@[i]@, COORD_BOUND as int),
            (sx as int, sy as int, sz as int) == sum3(vertices@.take(j as int)),
            bounded3((sx as int, sy as int, sz as int), j as int * (COORD_BOUND as int)),
        decreases n - j,
    {
        let v: Vec3 = vertices[j];
        proof {
            assert(vertices@.take(j as int + 1).drop_last() =~= vertices@.take(j as int));
            assert(vertices@.take(j as int + 1).last() == vertices@[j as int]);
            assert((j as int + 1) * (COORD_BOUND as int) == j as int * (COORD_BOUND as int)
                + COORD_BOUND as int) by (nonlinear_arith) {}
            assert(j as int * (COORD_BOUND as int) <= 0xffff_ffff_ffff_ffff * 0x8000)
                by (nonlinear_arith)
                requires
                    0 <= j as int <= 0xffff_ffff_ffff_ffff,
            {
            }
        }
        sx = sx + (v.x as i128);
        sy = sy + (v.y as i128);
        sz = sz + (v.z as i128);
        j = j + 1;
    }
    proof {
        assert(vertices@.take(n as int) =~= vertices@);
        lemma_sum3_bounded(vertices@, COORD_BOUND as int);
        lemma_sdiv_bound(sx as int, n as int, COORD_BOUND as int);
        lemma_sdiv_bound(sy as int, n as int, COORD_BOUND as int);
        lemma_sdiv_bound(sz as int, n as int, COORD_BOUND as int);
    }
    let cx: i128 = div_trunc_wide(sx, n as i128);
    let cy: i128 = div_trunc_wide(sy, n as i128);
    let cz: i128 = div_trunc_wide(sz, n as i128);
    Vec3 { x: cx as i64, y: cy as i64, z: cz as i64 }
}

/// Whether the ray from `orig` along `dir` hits triangle `t` of the point
/// pool `points`.
pub open spec fn spec_tri_hit(
    points: Seq<Vec3>,
    t: Triangle,
    orig: (int, int, int),
    dir: (int, int, int),
) -> bool
    recommends
        t.valid(points.len() as int),
{
    spec_intersect_triangle(
        points[t.spec_id(0).0 as int]@,
        points[t.spec_id(1).0 as int]@,
        points[t.spec_id(2).0 as int]@,
        orig,
        dir,
    )
}

/// Whether some triangle of the model is hit by the ray from `orig` along
/// `dir`.
pub open spec fn spec_model_hit(m: RawModel, orig: (int, int, int), dir: (int, int, int)) -> bool {
    exists|i: int|
        0 <= i < m.tris().len() && spec_tri_hit(m.points(), #[trigger] m.tris()[i], orig, dir)
}

/// Whether some triangle of the model is hit by the ray.
pub open spec fn spec_model_intersect(m: RawModel, ray: Ray) -> bool {
    spec_model_hit(m, ray.start_position@, ray.vector@)
}

/// One vertex store, the triangles indexing into it, and attributes derived
/// once at construction (they are not recomputed when points are later
/// mutated).
#[derive(Debug)]
pub struct RawModel {
    storage: VecStorage,
    triangles: Vec<Triangle>,
    center: Vec3,
    forward: Vec3,
}

impl RawModel {
    /// The stored points, in storage order.
    pub closed spec fn points(self) -> Seq<Vec3> {
        self.storage@
    }

    /// The triangles, in their test order.
    pub closed spec fn tris(self) -> Seq<Triangle> {
        self.triangles@
    }

    /// The centroid computed from the vertex set at construction.
    pub closed spec fn spec_center(self) -> Vec3 {
        self.center
    }

    /// The forward vector fixed at construction.
    pub closed spec fn spec_forward(self) -> Vec3 {
        self.forward
    }

    /// Every triangle's handles index into the store.
    pub open spec fn valid(self) -> bool {
        forall|i: int|
            0 <= i < self.tris().len() ==> (#[trigger] self.tris()[i]).valid(
                self.points().len() as int,
            )
    }

    /// Every stored point is within the coordinate bound of the ray tests.
    pub open spec fn bounded(self) -> bool {
        forall|i: int|
            0 <= i < self.points().len() ==> bounded3(
                #[trigger] self.points()[i]@,
                COORD_BOUND as int,
            )
    }

    /// Builds a model from its initial vertex list and triangle topology.
    /// Malformed scene data (an empty vertex list, a handle past the vertex
    /// count, an out-of-bound coordinate) is rejected here once, ahead of
    /// time, so the intersection hot path needs no per-ray checks.
    pub fn new(vertices: Vec<Vec3>, triangles: Vec<Triangle>) -> (m: RawModel)
        requires
            vertices@.len() > 0,
            forall|i: int|
                0 <= i < vertices@.len() ==> bounded3(#[trigger] vertices@[i]@, COORD_BOUND as int),
            forall|i: int|
                0 <= i < triangles@.len() ==> (#[trigger] triangles@[i]).valid(
                    vertices@.len() as int,
                ),
        ensures
            m.points() == vertices@,
            m.tris() == triangles@,
            m.spec_center()@ == spec_centroid(vertices@),
            m.spec_forward() == (Vec3 { x: 0, y: 0, z: SCALE }),
            m.valid(),
            m.bounded(),
    {
        let forward = Vec3 { x: 0, y: 0, z: SCALE };
        let center = calculate_center(&vertices);
        RawModel { storage: VecStorage::from_vec(vertices), triangles, center, forward }
    }

    /// The centroid derived at construction (stale after point mutation).
    pub fn center(&self) -> (c: Vec3)
        ensures
            c == self.spec_center(),
    {
        self.center
    }

    /// The forward vector derived at construction.
    pub fn forward(&self) -> (f: Vec3)
        ensures
            f == self.spec_forward(),
    {
        self.forward
    }

    /// Runtime check that the model may be handed to the ray tests: all
    /// handles valid and all points in bound (unverified callers use this
    /// before calling [`Self::intersect`] or the renderer).
    pub fn is_render_ready(&self) -> (ok: bool)
        ensures
            ok == (self.valid() && self.bounded()),
    {
        let np: usize = self.storage.len();
        let nt: usize = self.triangles.len();
        let mut i: usize = 0;
        while i < nt
            invariant
                i <= nt,
                nt == self.tris().len(),
                np == self.points().len(),
                forall|j: int|
                    0 <= j < i ==> (#[trigger] self.tris()[j]).valid(self.points().len() as int),
            decreases nt - i,
        {
            let t: Triangle = self.triangles[i];
            if !(t.points[0].0 < np && t.points[1].0 < np && t.points[2].0 < np) {
                proof {
                    assert(!self.tris()[i as int].valid(self.points().len() as int));
                }
                return false;
            }
            i = i + 1;
        }
        let mut k: usize = 0;
        while k < np
            invariant
                k <= np,
                np == self.points().len(),
                self.valid(),
                forall|j: int|
                    0 <= j < k ==> bounded3(#[trigger] self.points()[j]@, COORD_BOUND as int),
            decreases np - k,
        {
            let p: Vec3 = self.storage.get_unchecked(Point3ID(k));
            if !(-COORD_BOUND <= p.x && p.x <= COORD_BOUND && -COORD_BOUND <= p.y && p.y
                <= COORD_BOUND && -COORD_BOUND <= p.z && p.z <= COORD_BOUND) {
                proof {
                    assert(!bounded3(self.points()[k as int]@, COORD_BOUND as int));
                }
                return false;
            }
            k = k + 1;
        }
        true
    }

    /// Tests triangles in storage order and reports the first hit: exactly
    /// whether some triangle of the model intersects the ray.
    pub fn intersect(&self, ray: &Ray) -> (hit: bool)
        requires
            self.valid(),
            self.bounded(),
            bounded3(ray.start_position@, COORD_BOUND as int),
            bounded3(ray.vector@, DIR_BOUND as int),
        ensures
            hit == spec_model_intersect(*self, *ray),
    {
        let n: usize = self.triangles.len();
        let mut i: usize = 0;
        while i < n
            invariant
                i <= n,
                n == self.tris().len(),
                self.valid(),
                self.bounded(),
                bounded3(ray.start_position@, COORD_BOUND as int),
                bounded3(ray.vector@, DIR_BOUND as int),
                forall|j: int|
                    0 <= j < i ==> !spec_tri_hit(
                        self.points(),
                        #[trigger] self.tris()[j],
                        ray.start_position@,
                        ray.vector@,
                    ),
            decreases n - i,
        {
            let t: Triangle = self.triangles[i];
            if intersect_triangle(&t, &self.storage, ray) {
                proof {
                    assert(spec_tri_hit(
                        self.points(),
                        self.tris()[i as int],
                        ray.start_position@,
                        ray.vector@,
                    ));
                }
                return true;
            }
            i = i + 1;
        }
        false
    }

    /// Applies `f` to every stored point in place (animation between frames);
    /// the topology and the construction-time attributes are left untouched,
    /// so the centroid may go stale by design.
    pub fn update_all<F: Fn(Vec3) -> Vec3>(&mut self, f: F)
        requires
            forall|p: Vec3| #[trigger] call_requires(f, (p,)),
        ensures
            final(self).points().len() == old(self).points().len(),
            forall|i: int|
                0 <= i < old(self).points().len() ==> call_ensures(
                    f,
                    (old(self).points()[i],),
                    #[trigger] final(self).points()[i],
                ),
            final(self).tris() == old(self).tris(),
            final(self).spec_center() == old(self).spec_center(),
            final(self).spec_forward() == old(self).spec_forward(),
            old(self).valid() ==> final(self).valid(),
    {
        self.storage.update_all(f);
    }
}

/// One-sided test: a ray whose direction is orthogonal to the triangle's
/// normal (edge-on), or approaches its back face, never intersects.
pub proof fn lemma_orthogonal_ray_misses(
    v1: (int, int, int),
    v2: (int, int, int),
    v3: (int, int, int),
    orig: (int, int, int),
    dir: (int, int, int),
)
    requires
        dot3(cross3(sub3(v2, v1), sub3(v3, v1)), dir) <= 0,
    ensures
        !spec_intersect_triangle(v1, v2, v3, orig, dir),
{
}

/// A hitting ray reversed (pointing away from the triangle) does not hit.
pub proof fn lemma_reversed_ray_misses(
    v1: (int, int, int),
    v2: (int, int, int),
    v3: (int, int, int),
    orig: (int, int, int),
    dir: (int, int, int),
)
    requires
        spec_intersect_triangle(v1, v2, v3, orig, dir),
    ensures
        !spec_intersect_triangle(v1, v2, v3, orig, neg3(dir)),
{
    let n = cross3(sub3(v2, v1), sub3(v3, v1));
    assert(dot3(n, neg3(dir)) == -dot3(n, dir)) by (nonlinear_arith) {}
    lemma_orthogonal_ray_misses(v1, v2, v3, orig, neg3(dir));
}


/// Scaffold for the centroid-ray edge tests: if the pure-edge part `u` of the
/// (tripled) vector from the edge start to the ray origin satisfies
/// `dot(n, cross(e, u)) == q`, the scaled inside test is positive.
proof fn lemma_scaled_edge_positive(
    n: (int, int, int),
    q: int,
    s: int,
    e: (int, int, int),
    w: (int, int, int),
    u: (int, int, int),
    k: int,
)
    requires
        q == dot3(n, n),
        q > 0,
        dot3(n, cross3(e, u)) == q,
        scale3(3, w) == add3(u, scale3(-k, n)),
    ensures
        dot3(n, cross3(e, add3(scale3(q, w), scale3(s, n)))) > 0,
{
    lemma_cross_add_scale_right(e, u, n, -k);
    lemma_cross_scale_right(e, 3, w);
    lemma_dot_scale_right(n, 3, cross3(e, w));
    lemma_dot_add_scale_right(n, cross3(e, u), cross3(e, n), -k);
    lemma_dot_cross_cancel(n, e);
    let x = dot3(n, cross3(e, w));
    assert(3 * x == q);
    assert(x > 0);
    lemma_cross_add_scale_right(e, scale3(q, w), n, s);
    lemma_cross_scale_right(e, q, w);
    lemma_dot_add_scale_right(n, cross3(e, scale3(q, w)), cross3(e, n), s);
    lemma_dot_scale_right(n, q, cross3(e, w));
    assert(dot3(n, cross3(e, add3(scale3(q, w), scale3(s, n)))) == q * x);
    assert(q * x > 0) by (nonlinear_arith)
        requires
            q > 0,
            x > 0,
    {
    }
}

/// Front-face hit: a ray along the triangle's own normal whose line passes
/// through the centroid intersects the triangle, for every non-degenerate
/// triangle, provided the plane-distance numerator of the front-face rule is
/// not negative at the chosen origin (that numerator depends on the
/// triangle's absolute position, so origins far enough before the plane are
/// rejected by the rule and are excluded here). The origin is given exactly:
/// three times the origin equals the vertex sum minus `k` normals.
pub proof fn lemma_centroid_normal_ray_hits(
    v1: (int, int, int),
    v2: (int, int, int),
    v3: (int, int, int),
    orig: (int, int, int),
    k: int,
)
    requires
        cross3(sub3(v2, v1), sub3(v3, v1)) != ((0int, 0int, 0int)),
        scale3(3, orig) == sub3(
            add3(add3(v1, v2), v3),
            scale3(k, cross3(sub3(v2, v1), sub3(v3, v1))),
        ),
        dot3(cross3(sub3(v2, v1), sub3(v3, v1)), orig) + dot3(
            cross3(sub3(v2, v1), sub3(v3, v1)),
            v1,
        ) >= 0,
    ensures
        spec_intersect_triangle(v1, v2, v3, orig, cross3(sub3(v2, v1), sub3(v3, v1))),
{
    let e1 = sub3(v2, v1);
    let e2 = sub3(v3, v1);
    let n = cross3(e1, e2);
    let q = dot3(n, n);
    let s = dot3(n, orig) + dot3(n, v1);
    let n0 = n.0;
    let n1 = n.1;
    let n2 = n.2;
    assert(q > 0) by (nonlinear_arith)
        requires
            !(n0 == 0 && n1 == 0 && n2 == 0),
            q == n0 * n0 + n1 * n1 + n2 * n2,
    {
    }
    assert((-k) * n0 == -(k * n0)) by (nonlinear_arith) {}
    assert((-k) * n1 == -(k * n1)) by (nonlinear_arith) {}
    assert((-k) * n2 == -(k * n2)) by (nonlinear_arith) {}
    // Edge v1 -> v2: the tripled origin offset is e1 + e2 (minus k normals).
    lemma_cross_add_scale_right(e1, e1, e2, 1);
    lemma_cross_self(e1);
    assert(add3(e1, scale3(1, e2)) == add3(e1, e2));
    assert(cross3(e1, add3(e1, e2)) == n);
    lemma_dot_cross_cancel(n, e1);
    assert(dot3(n, cross3(e1, add3(e1, e2))) == q);
    lemma_scaled_edge_positive(n, q, s, e1, sub3(orig, v1), add3(e1, e2), k);
    // Edge v2 -> v3: the edge is e2 - e1 and the tripled offset e2 - 2 e1.
    let u2 = sub3(e2, scale3(2, e1));
    let a0 = e1.0;
    let a1 = e1.1;
    let a2 = e1.2;
    let b0 = e2.0;
    let b1 = e2.1;
    let b2 = e2.2;
    assert((b1 - a1) * (b2 - 2 * a2) - (b2 - a2) * (b1 - 2 * a1) == a1 * b2 - a2 * b1)
        by (nonlinear_arith) {}
    assert((b2 - a2) * (b0 - 2 * a0) - (b0 - a0) * (b2 - 2 * a2) == a2 * b0 - a0 * b2)
        by (nonlinear_arith) {}
    assert((b0 - a0) * (b1 - 2 * a1) - (b1 - a1) * (b0 - 2 * a0) == a0 * b1 - a1 * b0)
        by (nonlinear_arith) {}
    assert(cross3(sub3(v3, v2), u2) == n);
    lemma_scaled_edge_positive(n, q, s, sub3(v3, v2), sub3(orig, v2), u2, k);
    // Edge v3 -> v1: the edge is -e2 and the tripled offset e1 - 2 e2.
    let u3 = sub3(e1, scale3(2, e2));
    assert((-b1) * (a2 - 2 * b2) - (-b2) * (a1 - 2 * b1) == a1 * b2 - a2 * b1)
        by (nonlinear_arith) {}
    assert((-b2) * (a0 - 2 * b0) - (-b0) * (a2 - 2 * b2) == a2 * b0 - a0 * b2)
        by (nonlinear_arith) {}
    assert((-b0) * (a1 - 2 * b1) - (-b1) * (a0 - 2 * b0) == a0 * b1 - a1 * b0)
        by (nonlinear_arith) {}
    assert(cross3(sub3(v1, v3), u3) == n);
    lemma_scaled_edge_positive(n, q, s, sub3(v1, v3), sub3(orig, v3), u3, k);
}

} // verus!
