use pathtracer::camera::Camera;
use pathtracer::fixed::{clamp_unit, div_fx, mul_fx, sqrt_fx};
use pathtracer::hittable::{hit_scene, hit_sphere, Sphere, Surface};
use pathtracer::material::{schlick, Material};
use pathtracer::ray::Ray;
use pathtracer::renderer::{background, color, gamma_quantize, render, T_MAX, T_MIN};
use pathtracer::rng::Rng;
use pathtracer::vec3::{unit_vector, Vec3};
use pathtracer::ConfigError;

const S: i64 = 65536;

fn v(x: i64, y: i64, z: i64) -> Vec3 {
    Vec3::new(x, y, z)
}

#[test]
fn fixed_mul_exact() {
    // 1.5 * 1.5 == 2.25
    assert_eq!(mul_fx(98304, 98304), 147456);
    // rounding is toward zero on either sign
    assert_eq!(mul_fx(-3, 65535), -2);
    assert_eq!(mul_fx(3, -65535), -2);
    assert_eq!(mul_fx(-3, -65535), 2);
    assert_eq!(mul_fx(S, S), S);
    assert_eq!(mul_fx(0, 123456), 0);
}

#[test]
fn fixed_div_exact() {
    assert_eq!(div_fx(S, 2 * S), 32768);
    assert_eq!(div_fx(-S, 2 * S), -32768);
    assert_eq!(div_fx(1, 3), 21845);
    assert_eq!(div_fx(65536, 98304), 43690);
}

#[test]
fn fixed_sqrt_exact() {
    assert_eq!(sqrt_fx(4 * S), 2 * S);
    assert_eq!(sqrt_fx(0), 0);
    assert_eq!(sqrt_fx(S), S);
    assert_eq!(sqrt_fx(2 * S), 92681); // sqrt(2) = 1.41421
}

#[test]
fn fixed_clamp() {
    assert_eq!(clamp_unit(-5), 0);
    assert_eq!(clamp_unit(70000), S);
    assert_eq!(clamp_unit(12345), 12345);
}

#[test]
fn dot_commutative() {
    let a = v(3 * S, -2 * S, 7 * S / 2);
    let b = v(-S, 5 * S, 11 * S / 4);
    assert_eq!(a.dot(b), b.dot(a));
}

#[test]
fn cross_antisymmetric() {
    let a = v(3 * S, -2 * S, 7 * S / 2);
    let b = v(-S, 5 * S, 11 * S / 4);
    let ab = a.cross(b);
    let ba = b.cross(a);
    assert_eq!(ab.x, -ba.x);
    assert_eq!(ab.y, -ba.y);
    assert_eq!(ab.z, -ba.z);
}

#[test]
fn add_then_sub_cancels() {
    let a = v(123456, -654321, 42);
    let b = v(-98765, 43210, -7);
    let r = a.plus(b).minus(b);
    assert_eq!(r, a);
}

#[test]
fn unit_has_length_one_up_to_rounding() {
    let cases = [v(3 * S, 4 * S, 12 * S), v(S, S, S), v(-7 * S, 2 * S, -5 * S)];
    for c in cases {
        let len = c.unit().length();
        assert!((len - S).abs() <= 8, "unit length {} not close to one", len);
    }
}

#[test]
fn unit_vector_matches_method() {
    let a = v(3 * S, 4 * S, 12 * S);
    assert_eq!(unit_vector(a), a.unit());
}

#[test]
fn vector_ops_exact_values() {
    let a = v(2 * S, 3 * S, -S);
    let b = v(S / 2, -S / 4, 4 * S);
    assert_eq!(a.times(b), v(S, -3 * S / 4, -4 * S));
    assert_eq!(a.scaled(S / 2), v(S, 3 * S / 2, -S / 2));
    assert_eq!(a.divided(2 * S), v(S, 3 * S / 2, -S / 2));
    assert_eq!(a.dot(b), S - 3 * S / 4 - 4 * S);
    assert_eq!(a.negated(), v(-2 * S, -3 * S, S));
    assert_eq!(a.squared_length(), 4 * S + 9 * S + S);
    assert_eq!(v(3 * S, 4 * S, 0).length(), 5 * S);
}

fn gray(level: i64) -> Vec3 {
    v(level, level, level)
}

#[test]
fn aimed_ray_hits_near_side() {
    let center = v(0, 0, -10 * S);
    let sphere = Sphere::new(center, 2 * S, Material::Lambertian { albedo: gray(S / 2) }).unwrap();
    let origin = v(0, 0, 0);
    let ray = Ray::new(origin, center.minus(origin));
    let hit = hit_sphere(&sphere, &ray, T_MIN, T_MAX).expect("aimed ray must hit");
    assert_eq!(hit.t, 52428); // (10 - 2) / 10 of the way, rounded down
    assert_eq!(hit.point, v(0, 0, -524280));
    assert_eq!(hit.normal, v(0, 0, 65540));
}

#[test]
fn offset_ray_misses() {
    let center = v(0, 0, -10 * S);
    let sphere = Sphere::new(center, 2 * S, Material::Lambertian { albedo: gray(S / 2) }).unwrap();
    let ray = Ray::new(v(5 * S, 0, 0), v(0, 0, -10 * S));
    assert!(hit_sphere(&sphere, &ray, T_MIN, T_MAX).is_none());
}

#[test]
fn ray_from_center_exits_far_side() {
    let center = v(0, 0, -10 * S);
    let sphere = Sphere::new(center, 2 * S, Material::Lambertian { albedo: gray(S / 2) }).unwrap();
    let ray = Ray::new(center, v(0, 0, -10 * S));
    let hit = hit_sphere(&sphere, &ray, T_MIN, T_MAX).expect("interior ray must exit");
    assert_eq!(hit.t, 13107); // radius / |direction| = 2 / 10
}

#[test]
fn nearest_surface_wins() {
    let m = Material::Lambertian { albedo: gray(S / 2) };
    let far = Sphere::new(v(0, 0, -20 * S), 2 * S, m).unwrap();
    let near = Sphere::new(v(0, 0, -10 * S), 2 * S, m).unwrap();
    let world = vec![Surface::Sphere(far), Surface::Sphere(near)];
    let ray = Ray::new(v(0, 0, 0), v(0, 0, -S));
    let hit = hit_scene(&world, &ray, T_MIN, T_MAX).expect("must hit");
    // the near sphere's surface is 8 units away
    assert!(hit.t < 9 * S, "reported hit at t = {}", hit.t);
}

fn record_at_origin(material: Material) -> pathtracer::hittable::HitRecord {
    pathtracer::hittable::HitRecord {
        t: S,
        point: v(0, 0, 0),
        normal: v(0, 0, S),
        material,
    }
}

#[test]
fn lambertian_scatter_keeps_albedo_and_origin() {
    let albedo = v(S / 2, S / 4, S / 8);
    let material = Material::Lambertian { albedo };
    let rec = record_at_origin(material);
    let ray = Ray::new(v(0, 0, 3 * S), v(0, 0, -3 * S));
    let mut rng = Rng::from_seed(11);
    for _ in 0..32 {
        let sc = material.scatter(&ray, &rec, &mut rng).expect("diffuse always scatters");
        assert_eq!(sc.attenuation, albedo);
        assert_eq!(sc.ray.origin, rec.point);
    }
}

#[test]
fn metal_mirror_reflection_is_exact() {
    let albedo = v(S, S, S);
    let material = Material::Metal { albedo, fuzz: 0 };
    let rec = record_at_origin(material);
    // incoming at 45 degrees in the x-z plane
    let ray = Ray::new(v(-S, 0, S), v(S, 0, -S));
    let mut rng = Rng::from_seed(3);
    let sc = material.scatter(&ray, &rec, &mut rng).expect("outward reflection scatters");
    assert_eq!(sc.attenuation, albedo);
    assert_eq!(sc.ray.origin, rec.point);
    // unit incoming is (46341, 0, -46341); mirror about +z flips z
    assert_eq!(sc.ray.direction, v(46341, 0, 46341));
    // specular angle equality: cosine against the normal is preserved
    let u = ray.direction().unit();
    assert_eq!(sc.ray.direction.dot(rec.normal), -(u.dot(rec.normal)));
}

#[test]
fn metal_absorbs_inward_reflection() {
    let material = Material::Metal { albedo: gray(S), fuzz: 0 };
    let rec = record_at_origin(material);
    // incoming from inside the surface, along the normal
    let ray = Ray::new(v(0, 0, -3 * S), v(0, 0, 3 * S));
    let mut rng = Rng::from_seed(3);
    assert!(material.scatter(&ray, &rec, &mut rng).is_none());
}

#[test]
fn schlick_normal_incidence_matches_fresnel() {
    // n = 1.5: r0 = ((1.5 - 1) / (1.5 + 1))^2 = 0.04
    let n = 3 * S / 2;
    let r0 = mul_fx(div_fx(n - S, n + S), div_fx(n - S, n + S));
    assert_eq!(schlick(S, n), r0);
    assert_eq!(r0, 2621); // 0.04 in fixed point, rounded down
}

#[test]
fn dielectric_always_scatters_white() {
    let material = Material::Dielectric { ref_idx: 3 * S / 2 };
    let rec = record_at_origin(material);
    let ray = Ray::new(v(0, 0, 3 * S), v(0, 0, -3 * S));
    let mut rng = Rng::from_seed(5);
    for _ in 0..32 {
        let sc = material.scatter(&ray, &rec, &mut rng).expect("glass always scatters");
        assert_eq!(sc.attenuation, v(S, S, S));
        assert_eq!(sc.ray.origin, rec.point);
    }
}

#[test]
fn background_gradient_exact() {
    // straight up: full sky blue
    let up = Ray::new(v(0, 0, 0), v(0, S, 0));
    assert_eq!(background(&up), v(32768, 45875, S));
    // straight down: white
    let down = Ray::new(v(0, 0, 0), v(0, -S, 0));
    assert_eq!(background(&down), v(S, S, S));
}

#[test]
fn color_of_miss_is_background() {
    let world: Vec<Surface> = Vec::new();
    let ray = Ray::new(v(0, 0, 0), v(S / 3, S / 2, -S));
    let mut rng = Rng::from_seed(9);
    assert_eq!(color(&ray, &world, 0, &mut rng), background(&ray));
}

#[test]
fn facing_mirrors_terminate_black() {
    let mirror = Material::Metal { albedo: gray(S), fuzz: 0 };
    let a = Sphere::new(v(0, 0, 10 * S), 2 * S, mirror).unwrap();
    let b = Sphere::new(v(0, 0, -10 * S), 2 * S, mirror).unwrap();
    let world = vec![Surface::Sphere(a), Surface::Sphere(b)];
    let ray = Ray::new(v(0, 0, 0), v(0, 0, S));
    let mut rng = Rng::from_seed(13);
    assert_eq!(color(&ray, &world, 0, &mut rng), v(0, 0, 0));
}

#[test]
fn depth_limit_returns_black_on_hit() {
    let m = Material::Lambertian { albedo: gray(S / 2) };
    let sphere = Sphere::new(v(0, 0, -10 * S), 2 * S, m).unwrap();
    let world = vec![Surface::Sphere(sphere)];
    let ray = Ray::new(v(0, 0, 0), v(0, 0, -S));
    let mut rng = Rng::from_seed(17);
    assert_eq!(color(&ray, &world, 50, &mut rng), v(0, 0, 0));
}

#[test]
fn gamma_quarter_gives_127() {
    assert_eq!(gamma_quantize(S / 4), 127);
}

#[test]
fn gamma_extremes() {
    assert_eq!(gamma_quantize(0), 0);
    assert_eq!(gamma_quantize(S), 255);
    assert_eq!(gamma_quantize(-5), 0); // clamped below
    assert_eq!(gamma_quantize(2 * S), 255); // clamped above
}

#[test]
fn sphere_construction_rejects_bad_radius() {
    let m = Material::Lambertian { albedo: gray(S / 2) };
    assert_eq!(Sphere::new(v(0, 0, 0), 0, m), Err(ConfigError::InvalidSphere));
    assert_eq!(Sphere::new(v(0, 0, 0), -S, m), Err(ConfigError::InvalidSphere));
    assert!(Sphere::new(v(0, 0, 0), S, m).is_ok());
}

#[test]
fn camera_construction_rejects_degenerate_views() {
    let p = v(0, 0, 3 * S);
    let up = v(0, S, 0);
    assert_eq!(
        Camera::new(p, p, up, S / 2, S, 0, S).unwrap_err(),
        ConfigError::DegenerateView
    );
    // view-up parallel to the view axis
    let along = v(0, 0, -S);
    assert_eq!(
        Camera::new(p, v(0, 0, 0), along, S / 2, S, 0, 3 * S).unwrap_err(),
        ConfigError::DegenerateBasis
    );
    assert!(Camera::new(p, v(0, 0, 0), up, S / 2, S, 0, 3 * S).is_ok());
}

#[test]
fn vector_by_vector_division_exact() {
    let a = v(2 * S, 3 * S, -S);
    let b = v(S / 2, -S / 4, 4 * S);
    assert_eq!(a.divided_by(b), v(4 * S, -12 * S, -S / 4));
}

#[test]
fn cross_product_nearly_orthogonal_to_factors() {
    // the proved bound: |dot(cross(a, b), a)| * S <= 6 * m + 3 * S for
    // components bounded by m
    let a = v(3 * S, -2 * S, 7 * S / 2);
    let b = v(-S, 5 * S, 11 * S / 4);
    let c = a.cross(b);
    let m: i64 = 7 * S / 2;
    assert!(c.dot(a).abs() * S <= 6 * m + 3 * S);
    assert!(c.dot(b).abs() * S <= 6 * m + 3 * S);
}

#[test]
fn camera_construction_rejects_out_of_range_parameters() {
    // a zero field-of-view tangent is outside the supported ranges
    let e = Camera::new(v(0, 0, 3 * S), v(0, 0, 0), v(0, S, 0), 0, S, 0, 3 * S).unwrap_err();
    assert_eq!(e, ConfigError::InvalidParameter);
}

#[test]
fn camera_construction_rejects_oversized_spans() {
    // an extreme field of view, aspect ratio and focus distance together
    // push the image plane outside the supported coordinate range
    let e = Camera::new(
        v(0, 0, 3 * S),
        v(0, 0, 0),
        v(0, S, 0),
        0x10_0000,
        0x10_0000,
        0,
        0x400_0000,
    )
    .unwrap_err();
    assert_eq!(e, ConfigError::InvalidParameter);
}

#[test]
fn unit_squared_length_stays_in_proved_band() {
    // the proved band: squared length of a normalized vector is within a
    // quarter percent of one
    let cases = [v(3 * S, 4 * S, 12 * S), v(S, S, S), v(-7 * S, 2 * S, -5 * S), v(S, 0, 0)];
    for c in cases {
        let u = c.unit();
        let d = u.dot(u);
        assert!((65400..=65600).contains(&d), "unit squared length {}", d);
    }
}

#[test]
fn rng_samples_stay_in_unit_range() {
    let mut rng = Rng::from_seed(123);
    for _ in 0..256 {
        let x = rng.next_unit();
        assert!((0..65536).contains(&x));
    }
}

fn demo_scene() -> Vec<Surface> {
    let ground = Sphere::new(
        v(0, -1000 * S, 0),
        1000 * S,
        Material::Lambertian { albedo: v(45875, 17039, 6553) },
    )
    .unwrap();
    let glass = Sphere::new(v(0, S, 0), S, Material::Dielectric { ref_idx: 3 * S / 2 }).unwrap();
    let steel = Sphere::new(
        v(2 * S, S, 0),
        S,
        Material::Metal { albedo: v(45875, 39321, 32768), fuzz: 0 },
    )
    .unwrap();
    vec![Surface::Sphere(ground), Surface::Sphere(glass), Surface::Sphere(steel)]
}

fn demo_camera() -> Camera {
    Camera::new(
        v(3 * S, S, 3 * S),
        v(0, S / 2, 0),
        v(0, S, 0),
        S / 3, // roughly a 37-degree vertical field of view
        2 * S,
        S / 10,
        4 * S,
    )
    .unwrap()
}

#[test]
fn render_emits_rgb_rows() {
    let world = demo_scene();
    let camera = demo_camera();
    let mut rng = Rng::from_seed(42);
    let pixels = render(&world, &camera, 20, 10, 1, &mut rng);
    assert_eq!(pixels.len(), 20 * 10 * 3);
}

#[test]
fn render_is_reproducible_for_a_fixed_seed() {
    let world = demo_scene();
    let camera = demo_camera();
    let mut rng1 = Rng::from_seed(42);
    let first = render(&world, &camera, 20, 10, 2, &mut rng1);
    let mut rng2 = Rng::from_seed(42);
    let second = render(&world, &camera, 20, 10, 2, &mut rng2);
    assert_eq!(first, second);
}
