//! Surfaces and ray-surface intersection.
//!
//! The one concrete surface is the sphere; the closed `Surface` sum keeps
//! room for more variants. Intersection solves the ray-sphere quadratic in
//! fixed point and reports the nearest root inside the queried interval.

use vstd::prelude::*;
use crate::fixed::{
    fx_mul, fx_div, iabs, is_sqrt, sqrt_of, mul_fx, div_fx, sqrt_fx,
    lemma_fx_mul_bound, lemma_fx_div_bound,
};
use crate::vec3::{Vec3, in_range, dot_spec, t_of, dot_t};
use crate::ray::Ray;
use crate::material::{Material, material_wf};
use crate::ConfigError;

verus! {

/// Largest coordinate magnitude of scene geometry, ray origins and hit
/// points: 1024 units.
pub const WORLD_LIM: i64 = 0x400_0000;

/// Largest component magnitude of a ray direction: 256 units.
pub const DIR_LIM: i64 = 0x100_0000;

/// Largest magnitude of the ends of a queried ray interval.
pub const T_LIM: i64 = 0x4000_0000;

/// A ray that intersection queries accept: origin inside the world bounds,
/// direction bounded and with nonzero fixed-point squared length.
pub open spec fn ray_ok(r: Ray) -> bool {
    &&& in_range(r.origin, WORLD_LIM as int)
    &&& in_range(r.direction, DIR_LIM as int)
    &&& dot_spec(r.direction, r.direction) >= 1
}

/// One intersection: parameter, hit point, outward unit normal, and the
/// material of the surface that was hit.
#[derive(Clone, Copy, Debug, PartialEq, Eq, Structural)]
pub struct HitRecord {
    pub t: i64,
    pub point: Vec3,
    pub normal: Vec3,
    pub material: Material,
}

/// What intersection promises of every record it returns: the point lies in
/// the world bounds, the normal is unit length up to rounding (components at
/// most 2, squared length at least one half), and the material is
/// well-formed.
pub open spec fn hit_record_ok(h: HitRecord) -> bool {
    &&& in_range(h.point, WORLD_LIM as int)
    &&& in_range(h.normal, 131072)
    &&& dot_spec(h.normal, h.normal) >= 32768
    &&& material_wf(h.material)
}

/// A sphere: center, radius and surface material.
#[derive(Clone, Copy, Debug, PartialEq, Eq, Structural)]
pub struct Sphere {
    pub center: Vec3,
    pub radius: i64,
    pub material: Material,
}

/// Well-formed sphere: positive radius, geometry inside the world bounds,
/// well-formed material.
pub open spec fn sphere_wf(s: Sphere) -> bool {
    &&& in_range(s.center, WORLD_LIM as int)
    &&& 1 <= s.radius <= WORLD_LIM
    &&& material_wf(s.material)
}

impl Sphere {
    /// A validated sphere: rejects non-positive or oversized radii,
    /// centers outside the world bounds, and malformed materials.
    pub fn new(center: Vec3, radius: i64, material: Material) -> (r: Result<Sphere, ConfigError>)
        ensures
            (r is Ok <==> (in_range(center, WORLD_LIM as int) && 1 <= radius <= WORLD_LIM
                && material_wf(material))),
            (match r {
                Ok(s) => s.center == center && s.radius == radius && s.material == material
                    && sphere_wf(s),
                Err(e) => e == ConfigError::InvalidSphere,
            }),
    {
        if !in_bounds(&center, 0x400_0000) {
            return Err(ConfigError::InvalidSphere);
        }
        if !(1 <= radius && radius <= 0x400_0000) {
            return Err(ConfigError::InvalidSphere);
        }
        let ok = match material {
            Material::Lambertian { albedo } => color_in_bounds(&albedo),
            Material::Metal { albedo, fuzz } => color_in_bounds(&albedo) && 0 <= fuzz && fuzz
                <= 65536,
            Material::Dielectric { ref_idx } => 16384 <= ref_idx && ref_idx <= 262144,
        };
        if !ok {
            return Err(ConfigError::InvalidSphere);
        }
        Ok(Sphere { center, radius, material })
    }
}

/// True exactly when every channel lies in [0, 1].
fn color_in_bounds(c: &Vec3) -> (b: bool)
    ensures
        b == crate::material::color_ok(*c),
{
    0 <= c.x && c.x <= 65536 && 0 <= c.y && c.y <= 65536 && 0 <= c.z && c.z <= 65536
}

/// The closed family of surfaces.
#[derive(Clone, Copy, Debug, PartialEq, Eq, Structural)]
pub enum Surface {
    Sphere(Sphere),
}

pub open spec fn surface_wf(s: Surface) -> bool {
    match s {
        Surface::Sphere(sp) => sphere_wf(sp),
    }
}

/// The material of a surface.
pub open spec fn surface_material(s: Surface) -> Material {
    match s {
        Surface::Sphere(sp) => sp.material,
    }
}

/// Every surface of the scene is well-formed.
pub open spec fn scene_wf(w: Seq<Surface>) -> bool {
    forall|i: int| 0 <= i < w.len() ==> #[trigger] surface_wf(w[i])
}

/// Ray origin relative to the sphere center.
pub open spec fn oc_t(s: Sphere, r: Ray) -> (int, int, int) {
    (r.origin.x - s.center.x, r.origin.y - s.center.y, r.origin.z - s.center.z)
}

/// Leading coefficient of the ray-sphere quadratic: |direction|^2.
pub open spec fn sphere_qa(r: Ray) -> int {
    dot_spec(r.direction, r.direction)
}

/// Half middle coefficient of the quadratic: dot(origin - center, direction).
pub open spec fn sphere_qb(s: Sphere, r: Ray) -> int {
    dot_t(oc_t(s, r), t_of(r.direction))
}

/// Constant coefficient of the quadratic: |origin - center|^2 - radius^2.
pub open spec fn sphere_qc(s: Sphere, r: Ray) -> int {
    dot_t(oc_t(s, r), oc_t(s, r)) - fx_mul(s.radius as int, s.radius as int)
}

/// Discriminant of the quadratic, b^2 - a*c.
pub open spec fn sphere_discr(s: Sphere, r: Ray) -> int {
    fx_mul(sphere_qb(s, r), sphere_qb(s, r)) - fx_mul(sphere_qa(r), sphere_qc(s, r))
}

/// The nearer root, (-b - sqrt(discriminant)) / a.
pub open spec fn sphere_root1(s: Sphere, r: Ray) -> int {
    fx_div(-sphere_qb(s, r) - sqrt_of(sphere_discr(s, r) * 65536), sphere_qa(r))
}

/// The farther root, (-b + sqrt(discriminant)) / a.
pub open spec fn sphere_root2(s: Sphere, r: Ray) -> int {
    fx_div(-sphere_qb(s, r) + sqrt_of(sphere_discr(s, r) * 65536), sphere_qa(r))
}

/// The point the ray reaches at parameter t.
pub open spec fn root_point(r: Ray, t: int) -> (int, int, int) {
    (
        r.origin.x + fx_mul(r.direction.x as int, t),
        r.origin.y + fx_mul(r.direction.y as int, t),
        r.origin.z + fx_mul(r.direction.z as int, t),
    )
}

/// The outward normal at that point: (point - center) / radius.
pub open spec fn root_normal(s: Sphere, r: Ray, t: int) -> (int, int, int) {
    let p = root_point(r, t);
    (
        fx_div(p.0 - s.center.x, s.radius as int),
        fx_div(p.1 - s.center.y, s.radius as int),
        fx_div(p.2 - s.center.z, s.radius as int),
    )
}

/// A root is reportable when its hit point stays in the world bounds and
/// its normal is unit length up to rounding. Geometrically sound hits
/// always pass; the checks reject only degenerate rounding cases.
pub open spec fn root_ok(s: Sphere, r: Ray, t: int) -> bool {
    let p = root_point(r, t);
    let n = root_normal(s, r, t);
    &&& iabs(p.0) <= WORLD_LIM as int
    &&& iabs(p.1) <= WORLD_LIM as int
    &&& iabs(p.2) <= WORLD_LIM as int
    &&& iabs(n.0) <= 131072
    &&& iabs(n.1) <= 131072
    &&& iabs(n.2) <= 131072
    &&& dot_t(n, n) >= 32768
}

/// The parameter the intersection test reports for a sphere, if any: the
/// first root in ascending order that lies strictly inside (t_min, t_max),
/// provided it is reportable.
pub open spec fn sphere_hit_t(s: Sphere, r: Ray, t_min: int, t_max: int) -> Option<int> {
    if sphere_discr(s, r) < 0 {
        None
    } else if t_min < sphere_root1(s, r) && sphere_root1(s, r) < t_max {
        if root_ok(s, r, sphere_root1(s, r)) {
            Some(sphere_root1(s, r))
        } else {
            None
        }
    } else if t_min < sphere_root2(s, r) && sphere_root2(s, r) < t_max {
        if root_ok(s, r, sphere_root2(s, r)) {
            Some(sphere_root2(s, r))
        } else {
            None
        }
    } else {
        None
    }
}

/// The parameter reported for any surface.
pub open spec fn surface_hit_t(s: Surface, r: Ray, t_min: int, t_max: int) -> Option<int> {
    match s {
        Surface::Sphere(sp) => sphere_hit_t(sp, r, t_min, t_max),
    }
}

/// The record a sphere hit carries: point and normal computed from the
/// parameter by the fixed-point formulas, and the sphere's material.
pub open spec fn sphere_record_matches(sp: Sphere, r: Ray, h: HitRecord) -> bool {
    &&& t_of(h.point) == root_point(r, h.t as int)
    &&& t_of(h.normal) == root_normal(sp, r, h.t as int)
    &&& h.material == sp.material
}

/// What scanning the scene from index i onward reports, carrying the
/// closest parameter seen so far and the best (surface index, parameter)
/// pair: the nearest visible surface along the ray.
pub open spec fn scene_hit_from(
    w: Seq<Surface>,
    r: Ray,
    t_min: int,
    closest: int,
    i: int,
    acc: Option<(int, int)>,
) -> Option<(int, int)>
    decreases w.len() - i,
{
    if i < 0 || i >= w.len() {
        acc
    } else {
        match surface_hit_t(w[i], r, t_min, closest) {
            Some(t) => scene_hit_from(w, r, t_min, t, i + 1, Some((i, t))),
            None => scene_hit_from(w, r, t_min, closest, i + 1, acc),
        }
    }
}

/// A ray whose discriminant is negative misses the sphere: its closest
/// approach to the center exceeds the radius, and no interval reports a
/// hit.
pub proof fn lemma_negative_discriminant_misses(s: Sphere, r: Ray, t_min: int, t_max: int)
    requires
        sphere_discr(s, r) < 0,
    ensures
        sphere_hit_t(s, r, t_min, t_max) is None,
{
}

/// A ray aimed exactly at a sphere's center from outside it always passes
/// the discriminant test, and the nearer root lies within the first unit
/// of travel along the direction (which spans the distance to the center).
pub proof fn lemma_aimed_ray_hits(s: Sphere, r: Ray)
    requires
        r.direction.x == s.center.x - r.origin.x,
        r.direction.y == s.center.y - r.origin.y,
        r.direction.z == s.center.z - r.origin.z,
        sphere_qa(r) >= 1,
        sphere_qc(s, r) > 0,
    ensures
        sphere_discr(s, r) >= 0,
        0 <= sphere_root1(s, r) <= 65536,
{
    let dx = r.direction.x as int;
    let dy = r.direction.y as int;
    let dz = r.direction.z as int;
    let a = sphere_qa(r);
    let b = sphere_qb(s, r);
    let c = sphere_qc(s, r);
    crate::fixed::lemma_fx_mul_neg(dx, dx);
    crate::fixed::lemma_fx_mul_neg(dx, -dx);
    crate::fixed::lemma_fx_mul_neg(dy, dy);
    crate::fixed::lemma_fx_mul_neg(dy, -dy);
    crate::fixed::lemma_fx_mul_neg(dz, dz);
    crate::fixed::lemma_fx_mul_neg(dz, -dz);
    assert(b == -a);
    assert(dot_t(oc_t(s, r), oc_t(s, r)) == a);
    crate::fixed::lemma_fx_mul_neg(a, a);
    crate::fixed::lemma_fx_mul_neg(a, -a);
    assert(fx_mul(b, b) == fx_mul(a, a));
    crate::fixed::lemma_fx_mul_mono(a, c, a);
    crate::fixed::lemma_fx_mul_nonneg(a, c);
    assert(sphere_discr(s, r) >= 0);
    let discr = sphere_discr(s, r);
    crate::fixed::lemma_isqrt_exists(discr * 65536);
    let sq = sqrt_of(discr * 65536);
    assert(fx_mul(a, a) * 65536 <= a * a) by (nonlinear_arith)
        requires
            1 <= a,
    ;
    assert(sq <= a) by (nonlinear_arith)
        requires
            is_sqrt(sq, discr * 65536),
            discr * 65536 <= a * a,
            1 <= a,
    ;
    assert(-b - sq == a - sq);
    assert(0 <= fx_div(a - sq, a) <= 65536) by (nonlinear_arith)
        requires
            0 <= sq <= a,
            1 <= a,
    ;
}

/// True of v exactly when every component's magnitude is at most m.
fn in_bounds(v: &Vec3, m: i64) -> (b: bool)
    requires
        m >= 0,
    ensures
        b == in_range(*v, m as int),
{
    -m <= v.x && v.x <= m && -m <= v.y && v.y <= m && -m <= v.z && v.z <= m
}

/// Build the hit record for an in-range root, or reject a degenerate one.
fn check_root(s: &Sphere, r: &Ray, t: i64) -> (res: Option<HitRecord>)
    requires
        sphere_wf(*s),
        ray_ok(*r),
        iabs(t as int) <= T_LIM as int,
    ensures
        match res {
            Some(h) => {
                &&& h.t == t
                &&& root_ok(*s, *r, t as int)
                &&& sphere_record_matches(*s, *r, h)
                &&& hit_record_ok(h)
            },
            None => !root_ok(*s, *r, t as int),
        },
{
    let p = r.point_at(t);
    if !in_bounds(&p, 0x400_0000) {
        return None;
    }
    let nv = p.minus(s.center).divided(s.radius);
    if !in_bounds(&nv, 131072) {
        return None;
    }
    let nd = nv.dot(nv);
    if nd < 32768 {
        return None;
    }
    Some(HitRecord { t, point: p, normal: nv, material: s.material })
}

/// Intersect a ray with a sphere over the open interval (t_min, t_max),
/// reporting the nearest reportable root.
pub fn hit_sphere(s: &Sphere, r: &Ray, t_min: i64, t_max: i64) -> (res: Option<HitRecord>)
    requires
        sphere_wf(*s),
        ray_ok(*r),
        -T_LIM <= t_min <= t_max <= T_LIM,
    ensures
        match res {
            Some(h) => {
                &&& sphere_hit_t(*s, *r, t_min as int, t_max as int) == Some(h.t as int)
                &&& t_min < h.t < t_max
                &&& sphere_record_matches(*s, *r, h)
                &&& hit_record_ok(h)
            },
            None => sphere_hit_t(*s, *r, t_min as int, t_max as int) is None,
        },
{
    let ocv = r.origin.minus(s.center);
    let a = r.direction.dot(r.direction);
    let b = ocv.dot(r.direction);
    proof {
        lemma_fx_mul_bound(r.direction.x as int, r.direction.x as int, 0x100_0000, 0x100_0000);
        lemma_fx_mul_bound(r.direction.y as int, r.direction.y as int, 0x100_0000, 0x100_0000);
        lemma_fx_mul_bound(r.direction.z as int, r.direction.z as int, 0x100_0000, 0x100_0000);
        lemma_fx_mul_bound(ocv.x as int, r.direction.x as int, 0x800_0000, 0x100_0000);
        lemma_fx_mul_bound(ocv.y as int, r.direction.y as int, 0x800_0000, 0x100_0000);
        lemma_fx_mul_bound(ocv.z as int, r.direction.z as int, 0x800_0000, 0x100_0000);
        lemma_fx_mul_bound(ocv.x as int, ocv.x as int, 0x800_0000, 0x800_0000);
        lemma_fx_mul_bound(ocv.y as int, ocv.y as int, 0x800_0000, 0x800_0000);
        lemma_fx_mul_bound(ocv.z as int, ocv.z as int, 0x800_0000, 0x800_0000);
        lemma_fx_mul_bound(s.radius as int, s.radius as int, 0x400_0000, 0x400_0000);
    }
    let rr = mul_fx(s.radius, s.radius);
    let c_coef = ocv.dot(ocv) - rr;
    proof {
        lemma_fx_mul_bound(b as int, b as int, 103079215104, 103079215104);
        lemma_fx_mul_bound(a as int, c_coef as int, 12884901888, 893353197568);
    }
    let discr = mul_fx(b, b) - mul_fx(a, c_coef);
    if discr < 0 {
        return None;
    }
    let sq = sqrt_fx(discr);
    proof {
        lemma_fx_div_bound(-b - sq, a as int, 1202590842880);
        lemma_fx_div_bound(-b + sq, a as int, 1202590842880);
    }
    let t1 = div_fx(-b - sq, a);
    if t_min < t1 && t1 < t_max {
        return check_root(s, r, t1);
    }
    let t2 = div_fx(-b + sq, a);
    if t_min < t2 && t2 < t_max {
        return check_root(s, r, t2);
    }
    None
}

impl Surface {
    /// Intersect a ray with this surface over the open interval
    /// (t_min, t_max).
    pub fn hit(&self, r: &Ray, t_min: i64, t_max: i64) -> (res: Option<HitRecord>)
        requires
            surface_wf(*self),
            ray_ok(*r),
            -T_LIM <= t_min <= t_max <= T_LIM,
        ensures
            match res {
                Some(h) => {
                    &&& surface_hit_t(*self, *r, t_min as int, t_max as int) == Some(h.t as int)
                    &&& t_min < h.t < t_max
                    &&& (match *self {
                        Surface::Sphere(sp) => sphere_record_matches(sp, *r, h),
                    })
                    &&& hit_record_ok(h)
                },
                None => surface_hit_t(*self, *r, t_min as int, t_max as int) is None,
            },
    {
        match self {
            Surface::Sphere(sp) => hit_sphere(sp, r, t_min, t_max),
        }
    }
}

/// Intersect a ray with every surface of the scene, reporting the nearest
/// hit inside (t_min, t_max).
pub fn hit_scene(world: &Vec<Surface>, r: &Ray, t_min: i64, t_max: i64) -> (res: Option<HitRecord>)
    requires
        scene_wf(world@),
        ray_ok(*r),
        -T_LIM <= t_min <= t_max <= T_LIM,
    ensures
        match res {
            Some(h) => {
                &&& hit_record_ok(h)
                &&& t_min < h.t < t_max
                &&& exists|i: int|
                    #![auto]
                    0 <= i < world@.len() && scene_hit_from(
                        world@,
                        *r,
                        t_min as int,
                        t_max as int,
                        0,
                        None,
                    ) == Some((i, h.t as int)) && (match world@[i] {
                        Surface::Sphere(sp) => sphere_record_matches(sp, *r, h),
                    })
            },
            None => scene_hit_from(world@, *r, t_min as int, t_max as int, 0, None) is None,
        },
{
    let mut best: Option<HitRecord> = None;
    let ghost mut bi: int = 0;
    let mut closest: i64 = t_max;
    let mut idx: usize = 0;
    while idx < world.len()
        invariant
            0 <= idx <= world@.len(),
            scene_wf(world@),
            ray_ok(*r),
            -T_LIM <= t_min <= t_max <= T_LIM,
            t_min <= closest <= t_max,
            (match best {
                Some(h) => {
                    &&& closest == h.t
                    &&& t_min < h.t < t_max
                    &&& hit_record_ok(h)
                    &&& 0 <= bi < idx
                    &&& (match world@[bi] {
                        Surface::Sphere(sp) => sphere_record_matches(sp, *r, h),
                    })
                },
                None => closest == t_max,
            }),
            scene_hit_from(world@, *r, t_min as int, t_max as int, 0, None) == scene_hit_from(
                world@,
                *r,
                t_min as int,
                closest as int,
                idx as int,
                (match best {
                    Some(h) => Some((bi, h.t as int)),
                    None => None,
                }),
            ),
        decreases world@.len() - idx,
    {
        let su = world[idx];
        proof {
            assert(surface_wf(world@[idx as int]));
        }
        let h = su.hit(r, t_min, closest);
        match h {
            Some(rec) => {
                best = Some(rec);
                proof {
                    bi = idx as int;
                }
                closest = rec.t;
            },
            None => {
            },
        }
        idx = idx + 1;
    }
    best
}

} // verus!
