//! The renderer: recursive radiance evaluation, anti-aliased per-pixel
//! sampling, gamma correction and pixel-buffer assembly.

use vstd::prelude::*;
use crate::fixed::{
    fx_mul, sqrt_of, is_sqrt, clamp01, mul_fx, sqrt_fx, clamp_unit, lemma_sqrt_of,
    lemma_fx_mul_bound, lemma_fx_mul_nonneg,
};
use crate::vec3::{Vec3, t_of, u3};
use crate::ray::Ray;
use crate::rng::Rng;
use crate::hittable::{
    Surface, HitRecord, scene_wf, ray_ok, hit_scene, scene_hit_from, surface_material,
    sphere_record_matches, hit_record_ok,
};
use crate::material::{color_ok, scatter_ok, ScatterResult};
use crate::camera::{Camera, camera_wf, get_ray_post};

verus! {

/// Recursion limit for radiance evaluation.
pub const MAX_DEPTH: u32 = 50;

/// Near clip of every intersection query: one thousandth of a unit,
/// rounded up, so continuation rays cannot re-hit their own surface.
pub const T_MIN: i64 = 66;

/// Far clip of every intersection query.
pub const T_MAX: i64 = 0x4000_0000;

/// The parameter of the background gradient: the unit direction's vertical
/// component mapped from [-1, 1] to [0, 1].
pub open spec fn bg_t(d: Vec3) -> int {
    fx_mul(32768, u3(d).1 + 65536)
}

/// The background color for direction d: white at the horizon blended
/// toward sky blue at the zenith, clamped per channel to [0, 1].
pub open spec fn bg3(d: Vec3) -> (int, int, int) {
    let t = bg_t(d);
    (
        clamp01(fx_mul(65536, 65536 - t) + fx_mul(32768, t)),
        clamp01(fx_mul(65536, 65536 - t) + fx_mul(45875, t)),
        clamp01(fx_mul(65536, 65536 - t) + fx_mul(65536, t)),
    )
}

/// The background gradient for a ray that missed every surface.
pub fn background(r: &Ray) -> (c: Vec3)
    requires
        ray_ok(*r),
    ensures
        t_of(c) == bg3(r.direction),
        color_ok(c),
{
    let ud = r.direction.unit();
    proof {
        lemma_fx_mul_bound(32768, ud.y + 65536, 32768, 196608);
        lemma_fx_mul_bound(65536, 65536 - fx_mul(32768, ud.y + 65536), 65536, 163840);
        lemma_fx_mul_bound(32768, fx_mul(32768, ud.y as int + 65536), 65536, 98304);
        lemma_fx_mul_bound(45875, fx_mul(32768, ud.y as int + 65536), 65536, 98304);
        lemma_fx_mul_bound(65536, fx_mul(32768, ud.y as int + 65536), 65536, 98304);
    }
    let t = mul_fx(32768, ud.y + 65536);
    let white = Vec3::new(65536, 65536, 65536);
    let sky = Vec3::new(32768, 45875, 65536);
    let m = white.scaled(65536 - t).plus(sky.scaled(t));
    Vec3::new(clamp_unit(m.x), clamp_unit(m.y), clamp_unit(m.z))
}

/// What radiance evaluation promises for ray r at the given depth: valid
/// channels; the exact background gradient on a miss; black at the
/// recursion limit; and otherwise the product law through the nearest
/// hit — the result is the hit material's scattering attenuation times
/// some valid radiance, or black exactly when the ray is absorbed. The
/// hit record is the one the intersection contracts determine for the
/// nearest surface.
pub open spec fn color_post(w: Seq<Surface>, r: Ray, depth: int, c: Vec3) -> bool {
    &&& color_ok(c)
    &&& (match scene_hit_from(w, r, T_MIN as int, T_MAX as int, 0, None) {
        Some(it) => {
            &&& (depth >= MAX_DEPTH as int ==> c.x == 0 && c.y == 0 && c.z == 0)
            &&& (depth < MAX_DEPTH as int ==> exists|h: HitRecord, sc: Option<ScatterResult>, b: Vec3|
                #![auto]
                {
                    &&& 0 <= it.0 < w.len()
                    &&& h.t == it.1
                    &&& (match w[it.0] {
                        Surface::Sphere(sp) => sphere_record_matches(sp, r, h),
                    })
                    &&& hit_record_ok(h)
                    &&& scatter_ok(surface_material(w[it.0]), r, h, sc)
                    &&& color_ok(b)
                    &&& (match sc {
                        Some(s) => c.x == fx_mul(s.attenuation.x as int, b.x as int) && c.y
                            == fx_mul(s.attenuation.y as int, b.y as int) && c.z == fx_mul(
                            s.attenuation.z as int,
                            b.z as int,
                        ),
                        None => c.x == 0 && c.y == 0 && c.z == 0,
                    })
                })
        },
        None => t_of(c) == bg3(r.direction),
    })
}

/// The radiance carried back along a ray: the background on a miss, black
/// on absorption or at the recursion limit, and otherwise the scattering
/// attenuation times the radiance of the continuation ray.
pub fn color(r: &Ray, world: &Vec<Surface>, depth: u32, rng: &mut Rng) -> (c: Vec3)
    requires
        scene_wf(world@),
        ray_ok(*r),
        depth <= MAX_DEPTH,
    ensures
        color_post(world@, *r, depth as int, c),
    decreases MAX_DEPTH - depth,
{
    let hit = hit_scene(world, r, T_MIN, T_MAX);
    match hit {
        Some(rec) => {
            let ghost i = choose|i: int|
                #![auto]
                0 <= i < world@.len() && scene_hit_from(
                    world@,
                    *r,
                    T_MIN as int,
                    T_MAX as int,
                    0,
                    None,
                ) == Some((i, rec.t as int)) && (match world@[i] {
                    Surface::Sphere(sp) => sphere_record_matches(sp, *r, rec),
                });
            proof {
                assert(surface_material(world@[i]) == rec.material);
            }
            if depth < MAX_DEPTH {
                let sc_opt = rec.material.scatter(r, &rec, rng);
                match sc_opt {
                    Some(sc) => {
                        let bounce = color(&sc.ray, world, depth + 1, rng);
                        proof {
                            lemma_fx_mul_bound(sc.attenuation.x as int, bounce.x as int, 65536, 65536);
                            lemma_fx_mul_bound(sc.attenuation.y as int, bounce.y as int, 65536, 65536);
                            lemma_fx_mul_bound(sc.attenuation.z as int, bounce.z as int, 65536, 65536);
                            lemma_fx_mul_nonneg(sc.attenuation.x as int, bounce.x as int);
                            lemma_fx_mul_nonneg(sc.attenuation.y as int, bounce.y as int);
                            lemma_fx_mul_nonneg(sc.attenuation.z as int, bounce.z as int);
                        }
                        let out = sc.attenuation.times(bounce);
                        proof {
                            assert(exists|h: HitRecord, so: Option<ScatterResult>, b: Vec3|
                                #![auto]
                                {
                                    &&& 0 <= i < world@.len()
                                    &&& h.t == rec.t as int
                                    &&& (match world@[i] {
                                        Surface::Sphere(sp) => sphere_record_matches(sp, *r, h),
                                    })
                                    &&& hit_record_ok(h)
                                    &&& scatter_ok(surface_material(world@[i]), *r, h, so)
                                    &&& color_ok(b)
                                    &&& (match so {
                                        Some(s) => out.x == fx_mul(s.attenuation.x as int, b.x as int)
                                            && out.y == fx_mul(s.attenuation.y as int, b.y as int)
                                            && out.z == fx_mul(s.attenuation.z as int, b.z as int),
                                        None => out.x == 0 && out.y == 0 && out.z == 0,
                                    })
                                }) by {
                                assert(scatter_ok(surface_material(world@[i]), *r, rec, sc_opt));
                                assert(color_ok(bounce));
                            }
                        }
                        out
                    },
                    None => {
                        let out = Vec3::new(0, 0, 0);
                        proof {
                            let ghost bz = Vec3 { x: 0, y: 0, z: 0 };
                            assert(exists|h: HitRecord, so: Option<ScatterResult>, b: Vec3|
                                #![auto]
                                {
                                    &&& 0 <= i < world@.len()
                                    &&& h.t == rec.t as int
                                    &&& (match world@[i] {
                                        Surface::Sphere(sp) => sphere_record_matches(sp, *r, h),
                                    })
                                    &&& hit_record_ok(h)
                                    &&& scatter_ok(surface_material(world@[i]), *r, h, so)
                                    &&& color_ok(b)
                                    &&& (match so {
                                        Some(s) => out.x == fx_mul(s.attenuation.x as int, b.x as int)
                                            && out.y == fx_mul(s.attenuation.y as int, b.y as int)
                                            && out.z == fx_mul(s.attenuation.z as int, b.z as int),
                                        None => out.x == 0 && out.y == 0 && out.z == 0,
                                    })
                                }) by {
                                assert(scatter_ok(surface_material(world@[i]), *r, rec, sc_opt));
                                assert(color_ok(bz));
                            }
                        }
                        out
                    },
                }
            } else {
                Vec3::new(0, 0, 0)
            }
        },
        None => background(r),
    }
}

/// Exact value of the 8-bit quantization of a linear channel after gamma
/// correction: clamp to [0, 1], take the fixed-point square root, then
/// floor(255.999 * value).
pub open spec fn gamma_quantize_spec(c: int) -> int {
    (sqrt_of(clamp01(c) * 65536) * 255999) / 1000 / 65536
}

/// Gamma-correct and quantize one linear channel to 8 bits.
pub fn gamma_quantize(c: i64) -> (q: u8)
    ensures
        q == gamma_quantize_spec(c as int),
{
    let cc = clamp_unit(c);
    let g = sqrt_fx(cc);
    proof {
        assert(g <= 65536) by (nonlinear_arith)
            requires
                is_sqrt(g as int, cc * 65536),
                0 <= cc <= 65536,
        ;
    }
    (((g as u64) * 255999) / 1000 / 65536) as u8
}

/// For an averaged linear radiance of one quarter, the gamma-corrected
/// 8-bit channel value is exactly 127.
pub proof fn lemma_gamma_quarter()
    ensures
        gamma_quantize_spec(16384) == 127,
{
    assert(is_sqrt(32768int, 16384int * 65536));
    lemma_sqrt_of(32768int, 16384int * 65536);
}

/// The byte offset of pixel (i, j) in the output buffer: scanlines from
/// the top of the image first (largest j first), three bytes per pixel.
pub open spec fn pixel_offset(nx: int, ny: int, i: int, j: int) -> int {
    3 * ((ny - 1 - j) * nx + i)
}

/// Sum of the x channels of a sequence of radiance samples.
pub open spec fn sum_x(s: Seq<Vec3>) -> int
    decreases s.len(),
{
    if s.len() == 0 {
        0
    } else {
        sum_x(s.drop_last()) + s.last().x
    }
}

/// Sum of the y channels of a sequence of radiance samples.
pub open spec fn sum_y(s: Seq<Vec3>) -> int
    decreases s.len(),
{
    if s.len() == 0 {
        0
    } else {
        sum_y(s.drop_last()) + s.last().y
    }
}

/// Sum of the z channels of a sequence of radiance samples.
pub open spec fn sum_z(s: Seq<Vec3>) -> int
    decreases s.len(),
{
    if s.len() == 0 {
        0
    } else {
        sum_z(s.drop_last()) + s.last().z
    }
}

/// The normalized image-plane coordinate of pixel index `base` jittered
/// by `jit` in [0, 1), over `n` pixels.
pub open spec fn jitter_coord(base: int, jit: int, n: int) -> int {
    (base * 65536 + jit) / n
}

/// One sample of pixel (i, j): the radiance of a camera ray drawn for the
/// pixel's jittered image-plane coordinate.
pub open spec fn pixel_sample_ok(
    w: Seq<Surface>,
    cam: Camera,
    nx: int,
    ny: int,
    i: int,
    j: int,
    c: Vec3,
) -> bool {
    exists|ju: int, jv: int, r: Ray|
        #![trigger jitter_coord(i, ju, nx), jitter_coord(j, jv, ny), color_post(w, r, 0, c)]
        {
            &&& 0 <= ju < 65536
            &&& 0 <= jv < 65536
            &&& get_ray_post(cam, jitter_coord(i, ju, nx), jitter_coord(j, jv, ny), r)
            &&& ray_ok(r)
            &&& color_post(w, r, 0, c)
        }
}

/// The three bytes of one pixel: the gamma-quantized channel means of ns
/// radiance samples for that pixel.
pub open spec fn pixel_ok(
    w: Seq<Surface>,
    cam: Camera,
    nx: int,
    ny: int,
    ns: int,
    i: int,
    j: int,
    b0: u8,
    b1: u8,
    b2: u8,
) -> bool {
    exists|samples: Seq<Vec3>|
        #![auto]
        {
            &&& samples.len() == ns
            &&& (forall|k: int| 0 <= k < ns ==> pixel_sample_ok(w, cam, nx, ny, i, j, samples[k]))
            &&& b0 == gamma_quantize_spec(sum_x(samples) / ns)
            &&& b1 == gamma_quantize_spec(sum_y(samples) / ns)
            &&& b2 == gamma_quantize_spec(sum_z(samples) / ns)
        }
}

/// A finished pixel's offset lies strictly below the write position for
/// the pixel now being emitted.
proof fn lemma_pixel_offset_done(nx: int, ny: int, i: int, j: int, i2: int, j2: int)
    by (nonlinear_arith)
    requires
        1 <= nx,
        1 <= ny,
        0 <= i <= nx,
        0 <= j < ny,
        0 <= i2 < nx,
        0 <= j2 < ny,
        (j2 > j) || (j2 == j && i2 < i),
    ensures
        0 <= pixel_offset(nx, ny, i2, j2),
        pixel_offset(nx, ny, i2, j2) + 3 <= (ny - 1 - j) * (nx * 3) + i * 3,
{
}

/// Render the scene: for every pixel, average `ns` jittered radiance
/// samples, gamma-correct, and emit three 8-bit channels, top row first.
pub fn render(
    world: &Vec<Surface>,
    camera: &Camera,
    nx: usize,
    ny: usize,
    ns: usize,
    rng: &mut Rng,
) -> (pixels: Vec<u8>)
    requires
        scene_wf(world@),
        camera_wf(*camera),
        1 <= nx <= 16384,
        1 <= ny <= 16384,
        1 <= ns <= 1048576,
    ensures
        pixels@.len() == nx * ny * 3,
        forall|i: int, j: int|
            #![auto]
            0 <= i < nx && 0 <= j < ny ==> pixel_ok(
                world@,
                *camera,
                nx as int,
                ny as int,
                ns as int,
                i,
                j,
                pixels@[pixel_offset(nx as int, ny as int, i, j)],
                pixels@[pixel_offset(nx as int, ny as int, i, j) + 1],
                pixels@[pixel_offset(nx as int, ny as int, i, j) + 2],
            ),
{
    let mut pixels: Vec<u8> = Vec::new();
    let mut j: usize = ny;
    while j > 0
        invariant
            scene_wf(world@),
            camera_wf(*camera),
            1 <= nx <= 16384,
            1 <= ny <= 16384,
            1 <= ns <= 1048576,
            j <= ny,
            pixels@.len() == (ny - j) * (nx * 3),
            forall|i2: int, j2: int|
                #![auto]
                0 <= i2 < nx && j <= j2 < ny ==> pixel_ok(
                    world@,
                    *camera,
                    nx as int,
                    ny as int,
                    ns as int,
                    i2,
                    j2,
                    pixels@[pixel_offset(nx as int, ny as int, i2, j2)],
                    pixels@[pixel_offset(nx as int, ny as int, i2, j2) + 1],
                    pixels@[pixel_offset(nx as int, ny as int, i2, j2) + 2],
                ),
        decreases j,
    {
        j = j - 1;
        let mut i: usize = 0;
        while i < nx
            invariant
                scene_wf(world@),
                camera_wf(*camera),
                1 <= nx <= 16384,
                1 <= ny <= 16384,
                1 <= ns <= 1048576,
                j < ny,
                i <= nx,
                pixels@.len() == (ny - j - 1) * (nx * 3) + i * 3,
                forall|i2: int, j2: int|
                    #![auto]
                    0 <= i2 < nx && 0 <= j2 < ny && (j2 > j || (j2 == j && i2 < i)) ==> pixel_ok(
                        world@,
                        *camera,
                        nx as int,
                        ny as int,
                        ns as int,
                        i2,
                        j2,
                        pixels@[pixel_offset(nx as int, ny as int, i2, j2)],
                        pixels@[pixel_offset(nx as int, ny as int, i2, j2) + 1],
                        pixels@[pixel_offset(nx as int, ny as int, i2, j2) + 2],
                    ),
            decreases nx - i,
        {
            let mut ax: i64 = 0;
            let mut ay: i64 = 0;
            let mut az: i64 = 0;
            let ghost mut gs: Seq<Vec3> = Seq::empty();
            let mut s_i: usize = 0;
            while s_i < ns
                invariant
                    scene_wf(world@),
                    camera_wf(*camera),
                    1 <= nx <= 16384,
                    1 <= ny <= 16384,
                    1 <= ns <= 1048576,
                    j < ny,
                    i < nx,
                    s_i <= ns,
                    gs.len() == s_i,
                    ax == sum_x(gs),
                    ay == sum_y(gs),
                    az == sum_z(gs),
                    0 <= ax <= s_i * 65536,
                    0 <= ay <= s_i * 65536,
                    0 <= az <= s_i * 65536,
                    forall|k: int|
                        0 <= k < s_i ==> pixel_sample_ok(
                            world@,
                            *camera,
                            nx as int,
                            ny as int,
                            i as int,
                            j as int,
                            #[trigger] gs[k],
                        ),
                    pixels@.len() == (ny - j - 1) * (nx * 3) + i * 3,
                    forall|i2: int, j2: int|
                        #![auto]
                        0 <= i2 < nx && 0 <= j2 < ny && (j2 > j || (j2 == j && i2 < i))
                            ==> pixel_ok(
                            world@,
                            *camera,
                            nx as int,
                            ny as int,
                            ns as int,
                            i2,
                            j2,
                            pixels@[pixel_offset(nx as int, ny as int, i2, j2)],
                            pixels@[pixel_offset(nx as int, ny as int, i2, j2) + 1],
                            pixels@[pixel_offset(nx as int, ny as int, i2, j2) + 2],
                        ),
                decreases ns - s_i,
            {
                let ju = rng.next_unit();
                let jv = rng.next_unit();
                let su_num: u64 = (i as u64) * 65536 + (ju as u64);
                let tv_num: u64 = (j as u64) * 65536 + (jv as u64);
                proof {
                    assert(su_num < (nx as u64) * 65536 && su_num / (nx as u64) < 65536)
                        by (nonlinear_arith)
                        requires
                            su_num <= (i as u64) * 65536 + 65535,
                            i < nx,
                            nx >= 1,
                    ;
                    assert(tv_num < (ny as u64) * 65536 && tv_num / (ny as u64) < 65536)
                        by (nonlinear_arith)
                        requires
                            tv_num <= (j as u64) * 65536 + 65535,
                            j < ny,
                            ny >= 1,
                    ;
                }
                let su = (su_num / (nx as u64)) as i64;
                let tv = (tv_num / (ny as u64)) as i64;
                let ray = camera.get_ray(su, tv, rng);
                let c = color(&ray, world, 0, rng);
                proof {
                    assert(ax + c.x <= (s_i + 1) * 65536 && ay + c.y <= (s_i + 1) * 65536 && az
                        + c.z <= (s_i + 1) * 65536) by (nonlinear_arith)
                        requires
                            0 <= ax <= s_i * 65536,
                            0 <= ay <= s_i * 65536,
                            0 <= az <= s_i * 65536,
                            0 <= c.x <= 65536,
                            0 <= c.y <= 65536,
                            0 <= c.z <= 65536,
                    ;
                    assert((s_i + 1) * 65536 <= 1048577 * 65536) by (nonlinear_arith)
                        requires
                            s_i < 1048576,
                    ;
                    assert(pixel_sample_ok(
                        world@,
                        *camera,
                        nx as int,
                        ny as int,
                        i as int,
                        j as int,
                        c,
                    )) by {
                        assert(su as int == jitter_coord(i as int, ju as int, nx as int));
                        assert(tv as int == jitter_coord(j as int, jv as int, ny as int));
                        assert(0 <= ju < 65536 && 0 <= jv < 65536 && get_ray_post(
                            *camera,
                            jitter_coord(i as int, ju as int, nx as int),
                            jitter_coord(j as int, jv as int, ny as int),
                            ray,
                        ) && ray_ok(ray) && color_post(world@, ray, 0, c));
                    }
                    assert(gs.push(c).drop_last() =~= gs);
                    assert(sum_x(gs.push(c)) == sum_x(gs) + c.x);
                    assert(sum_y(gs.push(c)) == sum_y(gs) + c.y);
                    assert(sum_z(gs.push(c)) == sum_z(gs) + c.z);
                }
                ax = ax + c.x;
                ay = ay + c.y;
                az = az + c.z;
                proof {
                    gs = gs.push(c);
                }
                s_i = s_i + 1;
            }
            proof {
                assert(ax / (ns as i64) <= 65536 && ay / (ns as i64) <= 65536 && az / (ns as i64)
                    <= 65536) by (nonlinear_arith)
                    requires
                        0 <= ax <= ns * 65536,
                        0 <= ay <= ns * 65536,
                        0 <= az <= ns * 65536,
                        1 <= ns <= 1048576,
                ;
            }
            let mx = ((ax as u64) / (ns as u64)) as i64;
            let my = ((ay as u64) / (ns as u64)) as i64;
            let mz = ((az as u64) / (ns as u64)) as i64;
            let ghost off = pixel_offset(nx as int, ny as int, i as int, j as int);
            let ghost snap = pixels@;
            proof {
                assert(off == (ny - j - 1) * (nx * 3) + i * 3) by (nonlinear_arith)
                    requires
                        off == 3 * ((ny - 1 - j) * nx + i),
                        0 <= i < nx,
                        0 <= j < ny,
                ;
                assert(mx as int == sum_x(gs) / (ns as int));
                assert(my as int == sum_y(gs) / (ns as int));
                assert(mz as int == sum_z(gs) / (ns as int));
            }
            let b0 = gamma_quantize(mx);
            let b1 = gamma_quantize(my);
            let b2 = gamma_quantize(mz);
            pixels.push(b0);
            pixels.push(b1);
            pixels.push(b2);
            proof {
                assert(pixels@[off] == b0 && pixels@[off + 1] == b1 && pixels@[off + 2] == b2);
                assert(pixel_ok(
                    world@,
                    *camera,
                    nx as int,
                    ny as int,
                    ns as int,
                    i as int,
                    j as int,
                    b0,
                    b1,
                    b2,
                )) by {
                    assert(gs.len() == ns && (forall|k: int|
                        0 <= k < ns ==> pixel_sample_ok(
                            world@,
                            *camera,
                            nx as int,
                            ny as int,
                            i as int,
                            j as int,
                            #[trigger] gs[k],
                        )) && b0 == gamma_quantize_spec(sum_x(gs) / (ns as int)) && b1
                        == gamma_quantize_spec(sum_y(gs) / (ns as int)) && b2
                        == gamma_quantize_spec(sum_z(gs) / (ns as int)));
                }
                assert forall|i2: int, j2: int|
                    0 <= i2 < nx && 0 <= j2 < ny && (j2 > j || (j2 == j && i2 < i
                        + 1)) implies pixel_ok(
                    world@,
                    *camera,
                    nx as int,
                    ny as int,
                    ns as int,
                    i2,
                    j2,
                    pixels@[pixel_offset(nx as int, ny as int, i2, j2)],
                    pixels@[pixel_offset(nx as int, ny as int, i2, j2) + 1],
                    pixels@[pixel_offset(nx as int, ny as int, i2, j2) + 2],
                ) by {
                    if j2 == j && i2 == i {
                        assert(pixel_offset(nx as int, ny as int, i2, j2) == off);
                    } else {
                        lemma_pixel_offset_done(nx as int, ny as int, i as int, j as int, i2, j2);
                        let o2 = pixel_offset(nx as int, ny as int, i2, j2);
                        assert(pixels@[o2] == snap[o2] && pixels@[o2 + 1] == snap[o2 + 1]
                            && pixels@[o2 + 2] == snap[o2 + 2]);
                        assert(pixel_ok(
                            world@,
                            *camera,
                            nx as int,
                            ny as int,
                            ns as int,
                            i2,
                            j2,
                            snap[o2],
                            snap[o2 + 1],
                            snap[o2 + 2],
                        ));
                    }
                }
            }
            i = i + 1;
        }
        proof {
            assert((ny - j - 1) * (nx * 3) + nx * 3 == (ny - j) * (nx * 3)) by (nonlinear_arith);
            assert forall|i2: int, j2: int| 0 <= i2 < nx && j <= j2 < ny implies pixel_ok(
                world@,
                *camera,
                nx as int,
                ny as int,
                ns as int,
                i2,
                j2,
                pixels@[pixel_offset(nx as int, ny as int, i2, j2)],
                pixels@[pixel_offset(nx as int, ny as int, i2, j2) + 1],
                pixels@[pixel_offset(nx as int, ny as int, i2, j2) + 2],
            ) by {
                assert(j2 > j || (j2 == j && i2 < nx));
            }
        }
    }
    proof {
        assert(ny * (nx * 3) == nx * ny * 3) by (nonlinear_arith);
    }
    pixels
}

} // verus!
