//! A thin-lens camera.
//!
//! Construction builds an orthonormal-up-to-rounding basis from the view
//! parameters and places the image plane at the focus distance; ray
//! generation offsets the origin by a lens-disk sample and normalizes the
//! resulting direction, so every ray it hands out satisfies `ray_ok`.

use vstd::prelude::*;
use crate::fixed::{
    fx_mul, iabs, mul_fx, lemma_fx_mul_bound, lemma_fx_mul_neg,
};
use crate::vec3::{
    Vec3, in_range, dot_spec, t_of, dot_t, neg_t, cross_t, unit_t,
};
use crate::ray::Ray;
use crate::rng::Rng;
use crate::hittable::ray_ok;
use crate::ConfigError;

verus! {

/// Largest camera position component: within the world, with room for the
/// lens offset.
pub const CAM_POS_LIM: i64 = 0x300_0000;

/// Largest component of the image-plane corner and spans.
pub const CAM_SPAN_LIM: i64 = 0x100_0000;

/// Largest lens radius: 16 units.
pub const CAM_LENS_LIM: i64 = 0x10_0000;

#[derive(Clone, Copy, Debug, PartialEq, Eq, Structural)]
pub struct Camera {
    pub origin: Vec3,
    pub lower_left_corner: Vec3,
    pub horizontal: Vec3,
    pub vertical: Vec3,
    pub lens_radius: i64,
    pub u: Vec3,
    pub v: Vec3,
    pub w: Vec3,
}

/// The vector from the look-at point back to the camera position.
pub open spec fn view_t(lookfrom: Vec3, lookat: Vec3) -> (int, int, int) {
    (lookfrom.x - lookat.x, lookfrom.y - lookat.y, lookfrom.z - lookat.z)
}

/// Backward view axis: the unit vector along the view vector.
pub open spec fn cam_w3(lookfrom: Vec3, lookat: Vec3) -> (int, int, int) {
    unit_t(view_t(lookfrom, lookat))
}

/// The un-normalized right axis: view-up crossed with the view axis.
pub open spec fn cam_cw3(lookfrom: Vec3, lookat: Vec3, vup: Vec3) -> (int, int, int) {
    cross_t(t_of(vup), cam_w3(lookfrom, lookat))
}

/// Right axis of the camera basis.
pub open spec fn cam_u3(lookfrom: Vec3, lookat: Vec3, vup: Vec3) -> (int, int, int) {
    unit_t(cam_cw3(lookfrom, lookat, vup))
}

/// Up axis of the camera basis.
pub open spec fn cam_v3(lookfrom: Vec3, lookat: Vec3, vup: Vec3) -> (int, int, int) {
    cross_t(cam_w3(lookfrom, lookat), cam_u3(lookfrom, lookat, vup))
}

/// The camera position differs from the look-at point.
pub open spec fn cam_view_ok(lookfrom: Vec3, lookat: Vec3) -> bool {
    dot_t(view_t(lookfrom, lookat), view_t(lookfrom, lookat)) >= 1
}

/// The basis is usable: view-up is not parallel to the view axis, and the
/// view axis kept its length under normalization.
pub open spec fn cam_basis_ok(lookfrom: Vec3, lookat: Vec3, vup: Vec3) -> bool {
    &&& dot_t(cam_cw3(lookfrom, lookat, vup), cam_cw3(lookfrom, lookat, vup)) >= 1
    &&& dot_t(cam_w3(lookfrom, lookat), cam_w3(lookfrom, lookat)) >= 32768
}

/// The lower-left corner of the image plane, at the focus distance.
pub open spec fn cam_llc3(
    lookfrom: Vec3,
    lookat: Vec3,
    vup: Vec3,
    tan_half_fov: int,
    aspect: int,
    focus_dist: int,
) -> (int, int, int) {
    let u = cam_u3(lookfrom, lookat, vup);
    let v = cam_v3(lookfrom, lookat, vup);
    let w = cam_w3(lookfrom, lookat);
    let hwf = fx_mul(fx_mul(aspect, tan_half_fov), focus_dist);
    let hhf = fx_mul(tan_half_fov, focus_dist);
    (
        lookfrom.x - fx_mul(u.0, hwf) - fx_mul(v.0, hhf) - fx_mul(w.0, focus_dist),
        lookfrom.y - fx_mul(u.1, hwf) - fx_mul(v.1, hhf) - fx_mul(w.1, focus_dist),
        lookfrom.z - fx_mul(u.2, hwf) - fx_mul(v.2, hhf) - fx_mul(w.2, focus_dist),
    )
}

/// The horizontal span of the image plane.
pub open spec fn cam_h3(
    lookfrom: Vec3,
    lookat: Vec3,
    vup: Vec3,
    tan_half_fov: int,
    aspect: int,
    focus_dist: int,
) -> (int, int, int) {
    let u = cam_u3(lookfrom, lookat, vup);
    let hwf = fx_mul(fx_mul(aspect, tan_half_fov), focus_dist);
    (fx_mul(u.0, 2 * hwf), fx_mul(u.1, 2 * hwf), fx_mul(u.2, 2 * hwf))
}

/// The vertical span of the image plane.
pub open spec fn cam_vv3(
    lookfrom: Vec3,
    lookat: Vec3,
    vup: Vec3,
    tan_half_fov: int,
    focus_dist: int,
) -> (int, int, int) {
    let v = cam_v3(lookfrom, lookat, vup);
    let hhf = fx_mul(tan_half_fov, focus_dist);
    (fx_mul(v.0, 2 * hhf), fx_mul(v.1, 2 * hhf), fx_mul(v.2, 2 * hhf))
}

/// The corner and spans stay within the supported coordinate range.
pub open spec fn cam_spans_ok(
    lookfrom: Vec3,
    lookat: Vec3,
    vup: Vec3,
    tan_half_fov: int,
    aspect: int,
    focus_dist: int,
) -> bool {
    let l = cam_llc3(lookfrom, lookat, vup, tan_half_fov, aspect, focus_dist);
    let h = cam_h3(lookfrom, lookat, vup, tan_half_fov, aspect, focus_dist);
    let vv = cam_vv3(lookfrom, lookat, vup, tan_half_fov, focus_dist);
    &&& iabs(l.0) <= CAM_SPAN_LIM as int
    &&& iabs(l.1) <= CAM_SPAN_LIM as int
    &&& iabs(l.2) <= CAM_SPAN_LIM as int
    &&& iabs(h.0) <= CAM_SPAN_LIM as int
    &&& iabs(h.1) <= CAM_SPAN_LIM as int
    &&& iabs(h.2) <= CAM_SPAN_LIM as int
    &&& iabs(vv.0) <= CAM_SPAN_LIM as int
    &&& iabs(vv.1) <= CAM_SPAN_LIM as int
    &&& iabs(vv.2) <= CAM_SPAN_LIM as int
}

/// The numeric ranges the fixed-point camera arithmetic supports.
pub open spec fn cam_params_ok(
    lookfrom: Vec3,
    lookat: Vec3,
    vup: Vec3,
    tan_half_fov: int,
    aspect: int,
    aperture: int,
    focus_dist: int,
) -> bool {
    &&& in_range(lookfrom, CAM_POS_LIM as int)
    &&& in_range(lookat, CAM_POS_LIM as int)
    &&& in_range(vup, 0x400_0000)
    &&& 1 <= tan_half_fov <= 0x10_0000
    &&& 1024 <= aspect <= 0x10_0000
    &&& 0 <= aperture <= 0x20_0000
    &&& 1 <= focus_dist <= 0x400_0000
}

/// What ray generation needs of a constructed camera.
pub open spec fn camera_wf(c: Camera) -> bool {
    &&& in_range(c.origin, CAM_POS_LIM as int)
    &&& in_range(c.lower_left_corner, CAM_SPAN_LIM as int)
    &&& in_range(c.horizontal, CAM_SPAN_LIM as int)
    &&& in_range(c.vertical, CAM_SPAN_LIM as int)
    &&& in_range(c.u, 131072)
    &&& in_range(c.v, 524288)
    &&& in_range(c.w, 131072)
    &&& dot_spec(c.w, c.w) >= 32768
    &&& 0 <= c.lens_radius <= CAM_LENS_LIM
}

/// The lens offset added to the camera origin for a disk sample rd.
pub open spec fn cam_off3(c: Camera, rd: Vec3) -> (int, int, int) {
    let rx = fx_mul(rd.x as int, c.lens_radius as int);
    let ry = fx_mul(rd.y as int, c.lens_radius as int);
    (
        fx_mul(c.u.x as int, rx) + fx_mul(c.v.x as int, ry),
        fx_mul(c.u.y as int, rx) + fx_mul(c.v.y as int, ry),
        fx_mul(c.u.z as int, rx) + fx_mul(c.v.z as int, ry),
    )
}

/// The un-normalized ray direction for image-plane sample (s, t) and disk
/// sample rd.
pub open spec fn cam_dir0(c: Camera, s: int, t: int, rd: Vec3) -> (int, int, int) {
    let o = cam_off3(c, rd);
    (
        c.lower_left_corner.x + fx_mul(c.horizontal.x as int, s) + fx_mul(
            c.vertical.x as int,
            t,
        ) - c.origin.x - o.0,
        c.lower_left_corner.y + fx_mul(c.horizontal.y as int, s) + fx_mul(
            c.vertical.y as int,
            t,
        ) - c.origin.y - o.1,
        c.lower_left_corner.z + fx_mul(c.horizontal.z as int, s) + fx_mul(
            c.vertical.z as int,
            t,
        ) - c.origin.z - o.2,
    )
}

/// What ray generation promises: the origin is the camera position offset
/// by a lens-disk sample, and the direction is the normalized image-plane
/// direction for that sample. The backward view axis stands in only when
/// the computed direction or its normalization is rounding-degenerate
/// (fixed-point squared length zero).
pub open spec fn get_ray_post(c: Camera, s: int, t: int, r: Ray) -> bool {
    exists|rd: Vec3|
        #![trigger cam_off3(c, rd)]
        {
            let d0 = cam_dir0(c, s, t, rd);
            &&& rd.z == 0
            &&& dot_spec(rd, rd) < 65536
            &&& in_range(rd, 65536)
            &&& t_of(r.origin) == (
                c.origin.x + cam_off3(c, rd).0,
                c.origin.y + cam_off3(c, rd).1,
                c.origin.z + cam_off3(c, rd).2,
            )
            &&& (t_of(r.direction) == unit_t(d0) || ((dot_t(d0, d0) < 1 || dot_t(
                unit_t(d0),
                unit_t(d0),
            ) < 1) && t_of(r.direction) == neg_t(t_of(c.w))))
        }
}

/// The thin-lens focus identity, before normalization: from any lens
/// sample, the ray's origin plus its un-normalized direction is the same
/// image-plane point lower_left_corner + horizontal*s + vertical*t.
/// Fixed-point addition and subtraction are exact, so this holds with
/// equality; the direction the camera finally hands out is the normalized
/// form of that same direction.
pub proof fn lemma_thin_lens_focus(c: Camera, s: int, t: int, rd: Vec3)
    ensures
        (c.origin.x + cam_off3(c, rd).0) + cam_dir0(c, s, t, rd).0 == c.lower_left_corner.x
            + fx_mul(c.horizontal.x as int, s) + fx_mul(c.vertical.x as int, t),
        (c.origin.y + cam_off3(c, rd).1) + cam_dir0(c, s, t, rd).1 == c.lower_left_corner.y
            + fx_mul(c.horizontal.y as int, s) + fx_mul(c.vertical.y as int, t),
        (c.origin.z + cam_off3(c, rd).2) + cam_dir0(c, s, t, rd).2 == c.lower_left_corner.z
            + fx_mul(c.horizontal.z as int, s) + fx_mul(c.vertical.z as int, t),
{
}

/// A point drawn from the unit disk in the lens plane by bounded rejection
/// sampling; if every try is rejected the center is returned.
fn random_in_unit_disk(rng: &mut Rng) -> (r: Vec3)
    ensures
        r.z == 0,
        dot_spec(r, r) < 65536,
        in_range(r, 65536),
{
    let mut i: u32 = 0;
    while i < 64
        invariant
            i <= 64,
        decreases 64 - i,
    {
        let a = rng.next_unit();
        let b = rng.next_unit();
        let p = Vec3::new(2 * a - 65536, 2 * b - 65536, 0);
        if p.dot(p) < 65536 {
            return p;
        }
        i = i + 1;
    }
    proof {
        crate::fixed::lemma_fx_mul_zero(0);
    }
    Vec3::new(0, 0, 0)
}

impl Camera {
    /// A validated thin-lens camera. `tan_half_fov` is the tangent of half
    /// the vertical field of view, in fixed point; the caller computes it
    /// from an angle. Parameters outside the supported numeric ranges and
    /// degenerate configurations are rejected with the matching error.
    pub fn new(
        lookfrom: Vec3,
        lookat: Vec3,
        vup: Vec3,
        tan_half_fov: i64,
        aspect: i64,
        aperture: i64,
        focus_dist: i64,
    ) -> (r: Result<Camera, ConfigError>)
        ensures
            (r is Ok <==> (cam_params_ok(
                lookfrom,
                lookat,
                vup,
                tan_half_fov as int,
                aspect as int,
                aperture as int,
                focus_dist as int,
            ) && cam_view_ok(lookfrom, lookat) && cam_basis_ok(lookfrom, lookat, vup)
                && cam_spans_ok(
                lookfrom,
                lookat,
                vup,
                tan_half_fov as int,
                aspect as int,
                focus_dist as int,
            ))),
            (match r {
                Ok(c) => {
                    &&& camera_wf(c)
                    &&& c.origin == lookfrom
                    &&& c.lens_radius == aperture as int / 2
                    &&& t_of(c.w) == cam_w3(lookfrom, lookat)
                    &&& t_of(c.u) == cam_u3(lookfrom, lookat, vup)
                    &&& t_of(c.v) == cam_v3(lookfrom, lookat, vup)
                    &&& t_of(c.lower_left_corner) == cam_llc3(
                        lookfrom,
                        lookat,
                        vup,
                        tan_half_fov as int,
                        aspect as int,
                        focus_dist as int,
                    )
                    &&& t_of(c.horizontal) == cam_h3(
                        lookfrom,
                        lookat,
                        vup,
                        tan_half_fov as int,
                        aspect as int,
                        focus_dist as int,
                    )
                    &&& t_of(c.vertical) == cam_vv3(
                        lookfrom,
                        lookat,
                        vup,
                        tan_half_fov as int,
                        focus_dist as int,
                    )
                },
                Err(e) => {
                    let params = cam_params_ok(
                        lookfrom,
                        lookat,
                        vup,
                        tan_half_fov as int,
                        aspect as int,
                        aperture as int,
                        focus_dist as int,
                    );
                    &&& (e == ConfigError::DegenerateView <==> (params && !cam_view_ok(
                        lookfrom,
                        lookat,
                    )))
                    &&& (e == ConfigError::DegenerateBasis <==> (params && cam_view_ok(
                        lookfrom,
                        lookat,
                    ) && !cam_basis_ok(lookfrom, lookat, vup)))
                    &&& (e == ConfigError::InvalidParameter <==> (!params || (cam_view_ok(
                        lookfrom,
                        lookat,
                    ) && cam_basis_ok(lookfrom, lookat, vup) && !cam_spans_ok(
                        lookfrom,
                        lookat,
                        vup,
                        tan_half_fov as int,
                        aspect as int,
                        focus_dist as int,
                    ))))
                },
            }),
    {
        let params_ok = in_bounds_cam(&lookfrom, CAM_POS_LIM) && in_bounds_cam(&lookat, CAM_POS_LIM)
            && in_bounds_cam(&vup, 0x400_0000) && 1 <= tan_half_fov && tan_half_fov <= 0x10_0000
            && 1024 <= aspect && aspect <= 0x10_0000 && 0 <= aperture && aperture <= 0x20_0000 && 1
            <= focus_dist && focus_dist <= 0x400_0000;
        if !params_ok {
            return Err(ConfigError::InvalidParameter);
        }
        let diff = lookfrom.minus(lookat);
        let dv = diff.dot(diff);
        if dv < 1 {
            return Err(ConfigError::DegenerateView);
        }
        let w = diff.unit();
        proof {
            lemma_fx_mul_bound(vup.x as int, w.y as int, 0x400_0000, 131072);
            lemma_fx_mul_bound(vup.x as int, w.z as int, 0x400_0000, 131072);
            lemma_fx_mul_bound(vup.y as int, w.x as int, 0x400_0000, 131072);
            lemma_fx_mul_bound(vup.y as int, w.z as int, 0x400_0000, 131072);
            lemma_fx_mul_bound(vup.z as int, w.x as int, 0x400_0000, 131072);
            lemma_fx_mul_bound(vup.z as int, w.y as int, 0x400_0000, 131072);
        }
        let cw = vup.cross(w);
        let cd = cw.dot(cw);
        if cd < 1 {
            return Err(ConfigError::DegenerateBasis);
        }
        let wd = w.dot(w);
        if wd < 32768 {
            return Err(ConfigError::DegenerateBasis);
        }
        let u = cw.unit();
        proof {
            lemma_fx_mul_bound(w.x as int, u.y as int, 131072, 131072);
            lemma_fx_mul_bound(w.x as int, u.z as int, 131072, 131072);
            lemma_fx_mul_bound(w.y as int, u.x as int, 131072, 131072);
            lemma_fx_mul_bound(w.y as int, u.z as int, 131072, 131072);
            lemma_fx_mul_bound(w.z as int, u.x as int, 131072, 131072);
            lemma_fx_mul_bound(w.z as int, u.y as int, 131072, 131072);
        }
        let v = w.cross(u);
        proof {
            lemma_fx_mul_bound(aspect as int, tan_half_fov as int, 0x10_0000, 0x10_0000);
        }
        let half_width = mul_fx(aspect, tan_half_fov);
        proof {
            lemma_fx_mul_bound(half_width as int, focus_dist as int, 0x100_0000, 0x400_0000);
            lemma_fx_mul_bound(tan_half_fov as int, focus_dist as int, 0x10_0000, 0x400_0000);
        }
        let hwf = mul_fx(half_width, focus_dist);
        let hhf = mul_fx(tan_half_fov, focus_dist);
        proof {
            lemma_fx_mul_bound(u.x as int, hwf as int, 131072, 17179869184);
            lemma_fx_mul_bound(u.y as int, hwf as int, 131072, 17179869184);
            lemma_fx_mul_bound(u.z as int, hwf as int, 131072, 17179869184);
            lemma_fx_mul_bound(v.x as int, hhf as int, 524288, 1073741824);
            lemma_fx_mul_bound(v.y as int, hhf as int, 524288, 1073741824);
            lemma_fx_mul_bound(v.z as int, hhf as int, 524288, 1073741824);
            lemma_fx_mul_bound(w.x as int, focus_dist as int, 131072, 0x400_0000);
            lemma_fx_mul_bound(w.y as int, focus_dist as int, 131072, 0x400_0000);
            lemma_fx_mul_bound(w.z as int, focus_dist as int, 131072, 0x400_0000);
            lemma_fx_mul_bound(u.x as int, 2 * hwf as int, 131072, 34359738368);
            lemma_fx_mul_bound(u.y as int, 2 * hwf as int, 131072, 34359738368);
            lemma_fx_mul_bound(u.z as int, 2 * hwf as int, 131072, 34359738368);
            lemma_fx_mul_bound(v.x as int, 2 * hhf as int, 524288, 2147483648);
            lemma_fx_mul_bound(v.y as int, 2 * hhf as int, 524288, 2147483648);
            lemma_fx_mul_bound(v.z as int, 2 * hhf as int, 524288, 2147483648);
        }
        let llc = lookfrom.minus(u.scaled(hwf)).minus(v.scaled(hhf)).minus(w.scaled(focus_dist));
        let horizontal = u.scaled(2 * hwf);
        let vertical = v.scaled(2 * hhf);
        let span_ok = {
            let a = in_span(&llc);
            let b = in_span(&horizontal);
            let c = in_span(&vertical);
            a && b && c
        };
        if !span_ok {
            return Err(ConfigError::InvalidParameter);
        }
        let lens_radius = ((aperture as u64) / 2) as i64;
        Ok(
            Camera {
                origin: lookfrom,
                lower_left_corner: llc,
                horizontal,
                vertical,
                lens_radius,
                u,
                v,
                w,
            },
        )
    }

    /// The world-space ray for image-plane sample (s, t) in [0, 1]^2, with
    /// a fresh lens-disk sample for depth of field. The direction is
    /// normalized; if normalization degenerates, the backward view axis
    /// stands in.
    pub fn get_ray(&self, s: i64, t: i64, rng: &mut Rng) -> (r: Ray)
        requires
            camera_wf(*self),
            0 <= s <= 65536,
            0 <= t <= 65536,
        ensures
            ray_ok(r),
            get_ray_post(*self, s as int, t as int, r),
    {
        let rd = random_in_unit_disk(rng);
        proof {
            lemma_fx_mul_bound(rd.x as int, self.lens_radius as int, 65536, 0x10_0000);
            lemma_fx_mul_bound(rd.y as int, self.lens_radius as int, 65536, 0x10_0000);
        }
        let rdv = rd.scaled(self.lens_radius);
        proof {
            lemma_fx_mul_bound(self.u.x as int, rdv.x as int, 131072, 1048576);
            lemma_fx_mul_bound(self.u.y as int, rdv.x as int, 131072, 1048576);
            lemma_fx_mul_bound(self.u.z as int, rdv.x as int, 131072, 1048576);
            lemma_fx_mul_bound(self.v.x as int, rdv.y as int, 524288, 1048576);
            lemma_fx_mul_bound(self.v.y as int, rdv.y as int, 524288, 1048576);
            lemma_fx_mul_bound(self.v.z as int, rdv.y as int, 524288, 1048576);
        }
        let offset = self.u.scaled(rdv.x).plus(self.v.scaled(rdv.y));
        proof {
            lemma_fx_mul_bound(self.horizontal.x as int, s as int, 0x100_0000, 65536);
            lemma_fx_mul_bound(self.horizontal.y as int, s as int, 0x100_0000, 65536);
            lemma_fx_mul_bound(self.horizontal.z as int, s as int, 0x100_0000, 65536);
            lemma_fx_mul_bound(self.vertical.x as int, t as int, 0x100_0000, 65536);
            lemma_fx_mul_bound(self.vertical.y as int, t as int, 0x100_0000, 65536);
            lemma_fx_mul_bound(self.vertical.z as int, t as int, 0x100_0000, 65536);
        }
        let dir0 = self.lower_left_corner.plus(self.horizontal.scaled(s)).plus(
            self.vertical.scaled(t),
        ).minus(self.origin).minus(offset);
        let origin = self.origin.plus(offset);
        proof {
            lemma_fx_mul_neg(self.w.x as int, self.w.x as int);
            lemma_fx_mul_neg(self.w.x as int, -(self.w.x as int));
            lemma_fx_mul_neg(self.w.y as int, self.w.y as int);
            lemma_fx_mul_neg(self.w.y as int, -(self.w.y as int));
            lemma_fx_mul_neg(self.w.z as int, self.w.z as int);
            lemma_fx_mul_neg(self.w.z as int, -(self.w.z as int));
        }
        let ghost d0 = cam_dir0(*self, s as int, t as int, rd);
        proof {
            assert(t_of(dir0) == d0);
        }
        let d2 = dir0.dot(dir0);
        let direction: Vec3 = if d2 >= 1 {
            let un = dir0.unit();
            let ud = un.dot(un);
            if ud >= 1 {
                proof {
                    assert(t_of(un) == unit_t(d0));
                }
                un
            } else {
                proof {
                    assert(dot_t(unit_t(d0), unit_t(d0)) < 1);
                }
                self.w.negated()
            }
        } else {
            proof {
                assert(dot_t(d0, d0) < 1);
            }
            self.w.negated()
        };
        let r = Ray { origin, direction };
        proof {
            assert(get_ray_post(*self, s as int, t as int, r)) by {
                assert({
                    let q0 = cam_dir0(*self, s as int, t as int, rd);
                    rd.z == 0 && dot_spec(rd, rd) < 65536 && in_range(rd, 65536) && t_of(r.origin)
                        == (
                        self.origin.x + cam_off3(*self, rd).0,
                        self.origin.y + cam_off3(*self, rd).1,
                        self.origin.z + cam_off3(*self, rd).2,
                    ) && (t_of(r.direction) == unit_t(q0) || ((dot_t(q0, q0) < 1 || dot_t(
                        unit_t(q0),
                        unit_t(q0),
                    ) < 1) && t_of(r.direction) == neg_t(t_of(self.w))))
                });
            }
        }
        r
    }
}

/// True exactly when every component's magnitude is at most m.
fn in_bounds_cam(v: &Vec3, m: i64) -> (b: bool)
    requires
        m >= 0,
    ensures
        b == in_range(*v, m as int),
{
    -m <= v.x && v.x <= m && -m <= v.y && v.y <= m && -m <= v.z && v.z <= m
}

/// True exactly when every component's magnitude is within the span limit.
fn in_span(v: &Vec3) -> (b: bool)
    ensures
        b == in_range(*v, CAM_SPAN_LIM as int),
{
    -CAM_SPAN_LIM <= v.x && v.x <= CAM_SPAN_LIM && -CAM_SPAN_LIM <= v.y && v.y <= CAM_SPAN_LIM
        && -CAM_SPAN_LIM <= v.z && v.z <= CAM_SPAN_LIM
}

} // verus!
