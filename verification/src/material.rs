//! Material scattering: diffuse, glossy specular and refractive behavior.
//!
//! Each material maps an incoming ray and a hit record to an attenuation
//! color and, unless the ray is absorbed, a continuation ray. The spec
//! functions below mirror the fixed-point arithmetic exactly; a direction
//! whose fixed-point squared length would round to zero is replaced by the
//! surface normal, so continuation rays always carry a usable direction.

use vstd::prelude::*;
use crate::fixed::{
    fx_mul, fx_div, sqrt_of, mul_fx, div_fx, sqrt_fx, clamp_unit, is_sqrt,
    lemma_fx_mul_bound, lemma_fx_div_bound2, lemma_fx_mul_zero, lemma_fx_mul_neg,
};
use crate::vec3::{Vec3, in_range, dot_spec, t_of, dot_t, neg_t, u3};
use crate::ray::Ray;
use crate::rng::Rng;
use crate::hittable::{HitRecord, hit_record_ok, ray_ok, DIR_LIM};

verus! {

/// The closed family of materials.
#[derive(Clone, Copy, Debug, PartialEq, Eq, Structural)]
pub enum Material {
    Lambertian { albedo: Vec3 },
    Metal { albedo: Vec3, fuzz: i64 },
    Dielectric { ref_idx: i64 },
}

/// Each channel lies in [0, 1] in fixed point.
pub open spec fn color_ok(c: Vec3) -> bool {
    &&& 0 <= c.x <= 65536
    &&& 0 <= c.y <= 65536
    &&& 0 <= c.z <= 65536
}

/// Well-formed material: albedo channels in [0, 1], fuzz in [0, 1],
/// refractive index in [1/4, 4] (fixed point; covers physical media and
/// keeps every scattering product within machine bounds).
pub open spec fn material_wf(m: Material) -> bool {
    match m {
        Material::Lambertian { albedo } => color_ok(albedo),
        Material::Metal { albedo, fuzz } => color_ok(albedo) && 0 <= fuzz <= 65536,
        Material::Dielectric { ref_idx } => 16384 <= ref_idx <= 262144,
    }
}

/// An attenuation color and the continuation ray.
#[derive(Clone, Copy, Debug, PartialEq, Eq, Structural)]
pub struct ScatterResult {
    pub attenuation: Vec3,
    pub ray: Ray,
}

/// The mirror reflection of u about n: u - n * (2 * dot(u, n)).
pub open spec fn mirror_t(u: (int, int, int), n: (int, int, int)) -> (int, int, int) {
    let f = 2 * dot_t(u, n);
    (u.0 - fx_mul(n.0, f), u.1 - fx_mul(n.1, f), u.2 - fx_mul(n.2, f))
}

/// The discriminant of Snell's refraction formula for unit direction u,
/// outward normal n and index ratio.
pub open spec fn refract_discr_t(u: (int, int, int), n: (int, int, int), ratio: int) -> int {
    let dt = dot_t(u, n);
    65536 - fx_mul(fx_mul(ratio, ratio), 65536 - fx_mul(dt, dt))
}

/// The refracted direction, meaningful when the discriminant is positive:
/// (u - n * dot(u, n)) * ratio - n * sqrt(discriminant).
pub open spec fn refract_t(u: (int, int, int), n: (int, int, int), ratio: int) -> (int, int, int) {
    let dt = dot_t(u, n);
    let sq = sqrt_of(refract_discr_t(u, n, ratio) * 65536);
    (
        fx_mul(u.0 - fx_mul(n.0, dt), ratio) - fx_mul(n.0, sq),
        fx_mul(u.1 - fx_mul(n.1, dt), ratio) - fx_mul(n.1, sq),
        fx_mul(u.2 - fx_mul(n.2, dt), ratio) - fx_mul(n.2, sq),
    )
}

/// Exact value of Schlick's reflectance approximation: with
/// r0 = ((n-1)/(n+1))^2, the value r0 + (1 - r0) * (1 - cosine)^5.
pub open spec fn schlick_spec(cosine: int, ref_idx: int) -> int {
    let r0 = fx_div(ref_idx - 65536, ref_idx + 65536);
    let r0s = fx_mul(r0, r0);
    let x = 65536 - cosine;
    let x2 = fx_mul(x, x);
    let x5 = fx_mul(fx_mul(x2, x2), x);
    r0s + fx_mul(65536 - r0s, x5)
}

/// What a dielectric continuation direction may be: the mirror reflection
/// of the unit incoming direction about the normal, or the refraction
/// through the side-adjusted normal. The outward normal itself stands in
/// only when the candidate the draw selected is rounding-degenerate (its
/// fixed-point squared length is zero); in particular, under total
/// internal reflection the direction is the reflection unless the
/// reflection itself degenerates.
pub open spec fn dielectric_dir_ok(dir: Vec3, d: Vec3, n: Vec3, ref_idx: int) -> bool {
    let u = u3(d);
    let nt = t_of(n);
    let exiting = dot_t(u, nt) > 0;
    let outward = if exiting { neg_t(nt) } else { nt };
    let ratio = if exiting { ref_idx } else { fx_div(65536, ref_idx) };
    ||| t_of(dir) == mirror_t(u, nt)
    ||| (refract_discr_t(u, outward, ratio) > 0 && t_of(dir) == refract_t(u, outward, ratio))
    ||| ((dot_t(mirror_t(u, nt), mirror_t(u, nt)) < 1 || (refract_discr_t(u, outward, ratio) > 0
        && dot_t(refract_t(u, outward, ratio), refract_t(u, outward, ratio)) < 1)) && t_of(dir)
        == outward)
}

/// What scattering promises of its result, per material. Every
/// continuation ray starts at the hit point with a bounded direction of
/// nonzero fixed-point squared length, and valid attenuation channels. A
/// diffuse or refractive material always continues, with the attenuation
/// and direction laws of its variant; a perfect mirror (fuzz zero) must
/// continue whenever its deterministic reflection points outward and is
/// not rounding-degenerate, and any metal continuation leaves the surface
/// along the fuzz-perturbed mirror direction.
pub open spec fn scatter_ok(m: Material, r_in: Ray, rec: HitRecord, r: Option<ScatterResult>) -> bool {
    &&& (match r {
        Some(s) => {
            &&& s.ray.origin == rec.point
            &&& in_range(s.ray.direction, DIR_LIM as int)
            &&& dot_spec(s.ray.direction, s.ray.direction) >= 1
            &&& color_ok(s.attenuation)
        },
        None => true,
    })
    &&& (match m {
        Material::Lambertian { albedo } => (match r {
            Some(s) => {
                &&& s.attenuation == albedo
                &&& ((exists|p: Vec3|
                    dot_spec(p, p) < 65536 && in_range(p, 65536) && s.ray.direction.x
                        == rec.normal.x + p.x && s.ray.direction.y == rec.normal.y + p.y
                        && s.ray.direction.z == rec.normal.z + p.z) || s.ray.direction
                    == rec.normal)
            },
            None => false,
        }),
        Material::Metal { albedo, fuzz } => {
            &&& (match r {
                Some(s) => {
                    &&& s.attenuation == albedo
                    &&& dot_spec(s.ray.direction, rec.normal) > 0
                    &&& (fuzz == 0 ==> t_of(s.ray.direction) == mirror_t(
                        u3(r_in.direction),
                        t_of(rec.normal),
                    ))
                },
                None => true,
            })
            &&& ((fuzz == 0 && dot_t(
                mirror_t(u3(r_in.direction), t_of(rec.normal)),
                t_of(rec.normal),
            ) > 0 && dot_t(
                mirror_t(u3(r_in.direction), t_of(rec.normal)),
                mirror_t(u3(r_in.direction), t_of(rec.normal)),
            ) >= 1) ==> r is Some)
        },
        Material::Dielectric { ref_idx } => (match r {
            Some(s) => {
                &&& s.attenuation.x == 65536
                &&& s.attenuation.y == 65536
                &&& s.attenuation.z == 65536
                &&& dielectric_dir_ok(s.ray.direction, r_in.direction, rec.normal, ref_idx as int)
            },
            None => false,
        }),
    })
}

/// A point drawn from the unit ball by bounded rejection sampling; if every
/// try is rejected the center is returned.
pub fn random_in_unit_sphere(rng: &mut Rng) -> (r: Vec3)
    ensures
        dot_spec(r, r) < 65536,
        in_range(r, 65536),
{
    let mut i: u32 = 0;
    while i < 64
        invariant
            i <= 64,
        decreases 64 - i,
    {
        let a = rng.next_unit();
        let b = rng.next_unit();
        let c = rng.next_unit();
        let p = Vec3::new(2 * a - 65536, 2 * b - 65536, 2 * c - 65536);
        if p.dot(p) < 65536 {
            return p;
        }
        i = i + 1;
    }
    proof {
        lemma_fx_mul_zero(0);
    }
    Vec3::new(0, 0, 0)
}

/// The mirror reflection of v about n. Meant for unit-length-up-to-rounding
/// inputs, whose components are bounded by 2.
pub fn reflect(v: Vec3, n: Vec3) -> (r: Vec3)
    requires
        in_range(v, 131072),
        in_range(n, 131072),
    ensures
        t_of(r) == mirror_t(t_of(v), t_of(n)),
        in_range(r, 0x40_0000),
{
    let d = v.dot(n);
    proof {
        lemma_fx_mul_bound(v.x as int, n.x as int, 131072, 131072);
        lemma_fx_mul_bound(v.y as int, n.y as int, 131072, 131072);
        lemma_fx_mul_bound(v.z as int, n.z as int, 131072, 131072);
    }
    let f = 2 * d;
    proof {
        lemma_fx_mul_bound(n.x as int, f as int, 131072, 1572864);
        lemma_fx_mul_bound(n.y as int, f as int, 131072, 1572864);
        lemma_fx_mul_bound(n.z as int, f as int, 131072, 1572864);
    }
    v.minus(n.scaled(f))
}

/// The refracted direction through outward normal n with the given index
/// ratio, or None under total internal reflection. Meant for unit-length
/// inputs and a ratio in [1/4, 4].
pub fn refract(uv: Vec3, n: Vec3, ratio: i64) -> (r: Option<Vec3>)
    requires
        in_range(uv, 131072),
        in_range(n, 131072),
        16384 <= ratio <= 262144,
    ensures
        match r {
            Some(v) => {
                &&& refract_discr_t(t_of(uv), t_of(n), ratio as int) > 0
                &&& t_of(v) == refract_t(t_of(uv), t_of(n), ratio as int)
                &&& in_range(v, 0x100_0000)
            },
            None => refract_discr_t(t_of(uv), t_of(n), ratio as int) <= 0,
        },
{
    let dt = uv.dot(n);
    proof {
        lemma_fx_mul_bound(uv.x as int, n.x as int, 131072, 131072);
        lemma_fx_mul_bound(uv.y as int, n.y as int, 131072, 131072);
        lemma_fx_mul_bound(uv.z as int, n.z as int, 131072, 131072);
        lemma_fx_mul_bound(dt as int, dt as int, 786432, 786432);
        lemma_fx_mul_bound(ratio as int, ratio as int, 262144, 262144);
    }
    let rr = mul_fx(ratio, ratio);
    let inner = 65536 - mul_fx(dt, dt);
    proof {
        lemma_fx_mul_bound(rr as int, inner as int, 1048576, 9502720);
    }
    let discr = 65536 - mul_fx(rr, inner);
    if discr > 0 {
        let sq = sqrt_fx(discr);
        proof {
            assert(sq <= 3200000) by (nonlinear_arith)
                requires
                    is_sqrt(sq as int, discr * 65536),
                    0 < discr <= 152174592,
            ;
            lemma_fx_mul_bound(n.x as int, dt as int, 131072, 786432);
            lemma_fx_mul_bound(n.y as int, dt as int, 131072, 786432);
            lemma_fx_mul_bound(n.z as int, dt as int, 131072, 786432);
        }
        let a = uv.minus(n.scaled(dt));
        proof {
            lemma_fx_mul_bound(a.x as int, ratio as int, 1703936, 262144);
            lemma_fx_mul_bound(a.y as int, ratio as int, 1703936, 262144);
            lemma_fx_mul_bound(a.z as int, ratio as int, 1703936, 262144);
            lemma_fx_mul_bound(n.x as int, sq as int, 131072, 3200000);
            lemma_fx_mul_bound(n.y as int, sq as int, 131072, 3200000);
            lemma_fx_mul_bound(n.z as int, sq as int, 131072, 3200000);
        }
        let b = a.scaled(ratio);
        let c = n.scaled(sq);
        Some(b.minus(c))
    } else {
        None
    }
}

/// Schlick's approximation of Fresnel reflectance, for a cosine already
/// clamped to [0, 1].
pub fn schlick(cosine: i64, ref_idx: i64) -> (r: i64)
    requires
        0 <= cosine <= 65536,
        16384 <= ref_idx <= 262144,
    ensures
        r == schlick_spec(cosine as int, ref_idx as int),
{
    proof {
        lemma_fx_div_bound2(ref_idx - 65536, ref_idx + 65536, 196608, 81920);
    }
    let r0 = div_fx(ref_idx - 65536, ref_idx + 65536);
    proof {
        lemma_fx_mul_bound(r0 as int, r0 as int, 157286, 157286);
    }
    let r0s = mul_fx(r0, r0);
    let x = 65536 - cosine;
    proof {
        lemma_fx_mul_bound(x as int, x as int, 65536, 65536);
    }
    let x2 = mul_fx(x, x);
    proof {
        lemma_fx_mul_bound(x2 as int, x2 as int, 65536, 65536);
    }
    let x4 = mul_fx(x2, x2);
    proof {
        lemma_fx_mul_bound(x4 as int, x as int, 65536, 65536);
    }
    let x5 = mul_fx(x4, x);
    proof {
        lemma_fx_mul_bound(65536 - r0s as int, x5 as int, 443023, 65536);
    }
    r0s + mul_fx(65536 - r0s, x5)
}

/// At normal incidence Schlick's approximation equals the closed-form
/// Fresnel reflectance ((n - 1)/(n + 1))^2.
pub proof fn lemma_schlick_normal_incidence(ref_idx: int)
    ensures
        schlick_spec(65536, ref_idx) == fx_mul(
            fx_div(ref_idx - 65536, ref_idx + 65536),
            fx_div(ref_idx - 65536, ref_idx + 65536),
        ),
{
    let r0 = fx_div(ref_idx - 65536, ref_idx + 65536);
    let r0s = fx_mul(r0, r0);
    lemma_fx_mul_zero(0);
    lemma_fx_mul_zero(65536 - r0s);
}

fn scatter_lambertian(albedo: Vec3, rec: &HitRecord, rng: &mut Rng) -> (r: ScatterResult)
    requires
        hit_record_ok(*rec),
        color_ok(albedo),
    ensures
        r.attenuation == albedo,
        r.ray.origin == rec.point,
        in_range(r.ray.direction, DIR_LIM as int),
        dot_spec(r.ray.direction, r.ray.direction) >= 1,
        ((exists|p: Vec3|
            dot_spec(p, p) < 65536 && in_range(p, 65536) && r.ray.direction.x == rec.normal.x
                + p.x && r.ray.direction.y == rec.normal.y + p.y && r.ray.direction.z
                == rec.normal.z + p.z) || r.ray.direction == rec.normal),
{
    let p = random_in_unit_sphere(rng);
    let dir = rec.normal.plus(p);
    if dir.dot(dir) >= 1 {
        proof {
            assert(exists|q: Vec3|
                dot_spec(q, q) < 65536 && in_range(q, 65536) && dir.x == rec.normal.x + q.x
                    && dir.y == rec.normal.y + q.y && dir.z == rec.normal.z + q.z) by {
                assert(dot_spec(p, p) < 65536 && in_range(p, 65536) && dir.x == rec.normal.x + p.x
                    && dir.y == rec.normal.y + p.y && dir.z == rec.normal.z + p.z);
            }
        }
        ScatterResult { attenuation: albedo, ray: Ray { origin: rec.point, direction: dir } }
    } else {
        ScatterResult { attenuation: albedo, ray: Ray { origin: rec.point, direction: rec.normal } }
    }
}

fn scatter_metal(albedo: Vec3, fuzz: i64, r_in: &Ray, rec: &HitRecord, rng: &mut Rng) -> (r:
    Option<ScatterResult>)
    requires
        ray_ok(*r_in),
        hit_record_ok(*rec),
        color_ok(albedo),
        0 <= fuzz <= 65536,
    ensures
        match r {
            Some(s) => {
                &&& s.attenuation == albedo
                &&& s.ray.origin == rec.point
                &&& in_range(s.ray.direction, DIR_LIM as int)
                &&& dot_spec(s.ray.direction, s.ray.direction) >= 1
                &&& dot_spec(s.ray.direction, rec.normal) > 0
                &&& (fuzz == 0 ==> t_of(s.ray.direction) == mirror_t(
                    u3(r_in.direction),
                    t_of(rec.normal),
                ))
            },
            None => true,
        },
        ((fuzz == 0 && dot_t(mirror_t(u3(r_in.direction), t_of(rec.normal)), t_of(rec.normal)) > 0
            && dot_t(
            mirror_t(u3(r_in.direction), t_of(rec.normal)),
            mirror_t(u3(r_in.direction), t_of(rec.normal)),
        ) >= 1) ==> r is Some),
{
    let uv = r_in.direction.unit();
    let refl = reflect(uv, rec.normal);
    let p = random_in_unit_sphere(rng);
    proof {
        lemma_fx_mul_bound(p.x as int, fuzz as int, 65536, 65536);
        lemma_fx_mul_bound(p.y as int, fuzz as int, 65536, 65536);
        lemma_fx_mul_bound(p.z as int, fuzz as int, 65536, 65536);
    }
    let fp = p.scaled(fuzz);
    let dir = refl.plus(fp);
    proof {
        if fuzz == 0 {
            lemma_fx_mul_zero(p.x as int);
            lemma_fx_mul_zero(p.y as int);
            lemma_fx_mul_zero(p.z as int);
            assert(t_of(dir) == mirror_t(u3(r_in.direction), t_of(rec.normal)));
        }
    }
    if dir.dot(rec.normal) > 0 && dir.dot(dir) >= 1 {
        Some(ScatterResult { attenuation: albedo, ray: Ray { origin: rec.point, direction: dir } })
    } else {
        None
    }
}

fn scatter_dielectric(ref_idx: i64, r_in: &Ray, rec: &HitRecord, rng: &mut Rng) -> (r:
    ScatterResult)
    requires
        ray_ok(*r_in),
        hit_record_ok(*rec),
        16384 <= ref_idx <= 262144,
    ensures
        r.attenuation.x == 65536 && r.attenuation.y == 65536 && r.attenuation.z == 65536,
        r.ray.origin == rec.point,
        in_range(r.ray.direction, DIR_LIM as int),
        dot_spec(r.ray.direction, r.ray.direction) >= 1,
        dielectric_dir_ok(r.ray.direction, r_in.direction, rec.normal, ref_idx as int),
{
    let uv = r_in.direction.unit();
    let dt = uv.dot(rec.normal);
    proof {
        lemma_fx_mul_bound(uv.x as int, rec.normal.x as int, 131072, 131072);
        lemma_fx_mul_bound(uv.y as int, rec.normal.y as int, 131072, 131072);
        lemma_fx_mul_bound(uv.z as int, rec.normal.z as int, 131072, 131072);
        lemma_fx_mul_bound(ref_idx as int, dt as int, 262144, 786432);
        lemma_fx_div_bound2(65536, ref_idx as int, 65536, 16384);
        assert(fx_div(65536, ref_idx as int) >= 16384) by (nonlinear_arith)
            requires
                16384 <= ref_idx <= 262144,
        ;
    }
    let outward: Vec3;
    let ratio: i64;
    let cosine: i64;
    if dt > 0 {
        outward = rec.normal.negated();
        ratio = ref_idx;
        cosine = clamp_unit(mul_fx(ref_idx, dt));
    } else {
        outward = rec.normal;
        ratio = div_fx(65536, ref_idx);
        cosine = clamp_unit(-dt);
    }
    let refr = refract(uv, outward, ratio);
    let reflect_prob: i64 = if refr.is_some() {
        schlick(cosine, ref_idx)
    } else {
        65536
    };
    let refl = reflect(uv, rec.normal);
    let draw = rng.next_unit();
    let dir0: Vec3 = if draw < reflect_prob {
        refl
    } else {
        match refr {
            Some(v) => v,
            None => refl,
        }
    };
    proof {
        lemma_fx_mul_neg(rec.normal.x as int, rec.normal.x as int);
        lemma_fx_mul_neg(rec.normal.x as int, -(rec.normal.x as int));
        lemma_fx_mul_neg(rec.normal.y as int, rec.normal.y as int);
        lemma_fx_mul_neg(rec.normal.y as int, -(rec.normal.y as int));
        lemma_fx_mul_neg(rec.normal.z as int, rec.normal.z as int);
        lemma_fx_mul_neg(rec.normal.z as int, -(rec.normal.z as int));
        if draw < reflect_prob {
            assert(t_of(dir0) == mirror_t(u3(r_in.direction), t_of(rec.normal)));
        } else {
            match refr {
                Some(v) => {
                    assert(dir0 == v);
                },
                None => {
                    assert(t_of(dir0) == mirror_t(u3(r_in.direction), t_of(rec.normal)));
                },
            }
        }
    }
    let dir: Vec3 = if dir0.dot(dir0) >= 1 {
        dir0
    } else {
        outward
    };
    ScatterResult {
        attenuation: Vec3 { x: 65536, y: 65536, z: 65536 },
        ray: Ray { origin: rec.point, direction: dir },
    }
}

impl Material {
    /// The material's response to an incoming ray at a hit point: an
    /// attenuation color and a continuation ray, or None when the ray is
    /// absorbed. Diffuse and refractive materials always continue; a glossy
    /// metal absorbs rays whose perturbed reflection points into the
    /// surface.
    pub fn scatter(&self, r_in: &Ray, rec: &HitRecord, rng: &mut Rng) -> (r: Option<ScatterResult>)
        requires
            ray_ok(*r_in),
            hit_record_ok(*rec),
            material_wf(*self),
        ensures
            scatter_ok(*self, *r_in, *rec, r),
    {
        match self {
            Material::Lambertian { albedo } => Some(scatter_lambertian(*albedo, rec, rng)),
            Material::Metal { albedo, fuzz } => scatter_metal(*albedo, *fuzz, r_in, rec, rng),
            Material::Dielectric { ref_idx } => Some(scatter_dielectric(*ref_idx, r_in, rec, rng)),
        }
    }
}

} // verus!
