//! The thin-lens camera: built once from a viewing configuration, it
//! turns film coordinates and a lens sample into primary rays.
use vstd::prelude::*;
use rand::rngs::SmallRng;
use crate::fixed::{sabs, tmul, fdivv, SCALE, COORD_MAX, PT_MAX, T_FAR, fmul128, fdiv128,
    lemma_tmul_bound, lemma_tmul_unit_bound};
use crate::vec::{Vec3, V3, lemma_dot_fits3, lemma_len2_nonneg};
use crate::ray::{Ray, RayV};
use crate::color::Color;
use crate::rng::rand_range;
use crate::util::{sin_rad_v, cos_rad_v, deg_to_rad_v, degrees_to_radians, sin_cos_rad};

verus! {

pub struct CameraConfig {
    pub lookfrom: Vec3,
    pub lookat: Vec3,
    pub vup: Vec3,
    pub vfov: i64,
    pub aspect_ratio: i64,
    pub aperture: i64,
    pub focus_dist: i64,
    pub time0: i64,
    pub time1: i64,
    pub background: Color,
}

/// A viewing configuration the camera can be built from: vectors within
/// a thousand units, a viewing direction of at least unit length, a
/// field of view strictly between zero and a straight angle, and sane
/// scalar ranges.
pub open spec fn camera_cfg_wf(cfg: CameraConfig) -> bool {
    &&& cfg.lookfrom@.within(1000000000)
    &&& cfg.lookat@.within(1000000000)
    &&& cfg.vup@.within(1000000000)
    &&& cfg.lookfrom@.sub(cfg.lookat@).len2() >= 1
    &&& 1000000 <= cfg.vfov <= 178000000
    &&& 100000 <= cfg.aspect_ratio <= 10000000
    &&& 0 <= cfg.aperture <= 1000000000
    &&& 10000 <= cfg.focus_dist <= 1000000000
    &&& sabs(cfg.time0 as int) <= T_FAR as int
    &&& sabs(cfg.time1 as int) <= T_FAR as int
    &&& cfg.time0 <= cfg.time1
    &&& cfg.background@.within(1000000000)
}

/// The half-height of the viewport: the tangent of half the field of
/// view, capped to ten so the viewport stays representable.
pub open spec fn cam_h(vfov: int) -> int {
    let rad = deg_to_rad_v(vfov);
    let half = tmul(rad, 500000);
    let s = sin_rad_v(half);
    let c = cos_rad_v(half);
    if c <= 0 {
        10000000
    } else {
        let t = fdivv(s, c);
        if t > 10000000 {
            10000000
        } else if t < 0 {
            0
        } else {
            t
        }
    }
}

/// The viewing axis: from the target toward the eye, unit length.
pub open spec fn cam_w_v(cfg: CameraConfig) -> V3 {
    cfg.lookfrom@.sub(cfg.lookat@).unit()
}

/// The horizontal frame axis: the up vector crossed with the viewing
/// axis, normalised, or a fixed axis when the cross product vanishes.
pub open spec fn cam_u_v(cfg: CameraConfig) -> V3 {
    let cu = cfg.vup@.cross(cam_w_v(cfg));
    if cu.len2() >= 1 {
        cu.unit()
    } else {
        V3 { x: SCALE as int, y: 0, z: 0 }
    }
}

/// The vertical frame axis, completing the frame.
pub open spec fn cam_v_v(cfg: CameraConfig) -> V3 {
    cam_w_v(cfg).cross(cam_u_v(cfg))
}

/// The viewport width: the aspect ratio times the viewport height.
pub open spec fn cam_vw(cfg: CameraConfig) -> int {
    tmul(cfg.aspect_ratio as int, 2 * cam_h(cfg.vfov as int))
}

/// The horizontal viewport vector at the focus plane.
pub open spec fn cam_horizontal_v(cfg: CameraConfig) -> V3 {
    cam_u_v(cfg).scale(tmul(cfg.focus_dist as int, cam_vw(cfg)))
}

/// The vertical viewport vector at the focus plane.
pub open spec fn cam_vertical_v(cfg: CameraConfig) -> V3 {
    cam_v_v(cfg).scale(tmul(cfg.focus_dist as int, 2 * cam_h(cfg.vfov as int)))
}

/// The film corner: the eye, back half a viewport each way and out to
/// the focus plane.
pub open spec fn cam_lower_left_v(cfg: CameraConfig) -> V3 {
    cfg.lookfrom@.sub(cam_horizontal_v(cfg).scale(500000)).sub(
        cam_vertical_v(cfg).scale(500000),
    ).sub(cam_w_v(cfg).scale(cfg.focus_dist as int))
}

/// What `get_ray` answers for some lens sample: the jittered origin and
/// the film-plane direction, each falling back (to the eye, to the
/// optical axis) when a value leaves the range the scene can carry.
pub open spec fn get_ray_rel(cam: Camera, s: int, t: int, r: RayV) -> bool {
    exists|rd0: V3|
        #![trigger rd0.within(SCALE as int)]
        {
            &&& rd0.within(SCALE as int)
            &&& rd0.z == 0
            &&& rd0.len2() < SCALE as int
            &&& ({
                let rd = rd0.scale(cam.lens_radius as int);
                let offset = cam.u@.scale(rd.x).add(cam.v@.scale(rd.y));
                let o0 = cam.origin@.add(offset);
                let o = if o0.within(PT_MAX as int) {
                    o0
                } else {
                    cam.origin@
                };
                let dir0 = cam.lower_left_corner@.add(cam.horizontal@.scale(s)).add(
                    cam.vertical@.scale(t),
                ).sub(cam.origin@).sub(offset);
                let dir = if dir0.within(COORD_MAX as int) {
                    dir0
                } else {
                    V3 { x: 0, y: 0, z: SCALE as int }
                };
                &&& r.origin == o
                &&& r.direction == dir
            })
        }
}

pub struct Camera {
    pub origin: Vec3,
    pub horizontal: Vec3,
    pub vertical: Vec3,
    pub lower_left_corner: Vec3,
    pub u: Vec3,
    pub v: Vec3,
    pub lens_radius: i64,
    pub time0: i64,
    pub time1: i64,
    pub background: Color,
}

impl Camera {
    /// Build the camera: an orthonormal viewing frame from the look
    /// vectors, a viewport sized by the field of view and aspect ratio,
    /// scaled out to the focus plane.
    #[verifier::rlimit(100)]
    pub fn new(cfg: CameraConfig) -> (cam: Camera)
        requires
            camera_cfg_wf(cfg),
        ensures
            cam.origin == cfg.lookfrom,
            cam.time0 == cfg.time0,
            cam.time1 == cfg.time1,
            cam.background == cfg.background,
            cam.lens_radius as int == cfg.aperture as int / 2,
            cam.u@ == cam_u_v(cfg),
            cam.v@ == cam_v_v(cfg),
            cam.horizontal@ == cam_horizontal_v(cfg),
            cam.vertical@ == cam_vertical_v(cfg),
            cam.lower_left_corner@ == cam_lower_left_v(cfg),
            cam.horizontal@.within(400000000000000),
            cam.vertical@.within(200000000000000000),
            cam.lower_left_corner@.within(300000000000000000),
            cam.u@.within(2000000000),
            cam.v@.within(8000000000000),
    {
        let radians = degrees_to_radians(cfg.vfov);
        proof {
            lemma_tmul_bound(radians as int, 500000, 6400000, 500000);
        }
        let half: i64 = fmul128(radians as i128, 500000) as i64;
        let (sh, ch) = sin_cos_rad(half);
        let h: i64 = if ch <= 0 {
            10000000
        } else {
            proof {
                crate::fixed::lemma_fdiv_bound2(sh as int, ch as int, SCALE as int, 1);
            }
            let t: i128 = fdiv128(sh as i128, ch as i128);
            if t > 10000000 {
                10000000
            } else if t < 0 {
                0
            } else {
                t as i64
            }
        };
        proof {
            assert(h as int == cam_h(cfg.vfov as int));
            lemma_tmul_bound(cfg.aspect_ratio as int, 2 * (h as int), 10000000, 20000000);
        }
        let viewport_height: i64 = 2 * h;
        let viewport_width: i64 = fmul128(cfg.aspect_ratio as i128, viewport_height as i128)
            as i64;
        let origin = cfg.lookfrom;
        let dir = cfg.lookfrom.sub(cfg.lookat);
        let w = dir.unit_vector();
        proof {
            lemma_tmul_bound(cfg.vup@.y, w@.z, 1000000000, 2000000000);
            lemma_tmul_bound(cfg.vup@.z, w@.y, 1000000000, 2000000000);
            lemma_tmul_bound(cfg.vup@.z, w@.x, 1000000000, 2000000000);
            lemma_tmul_bound(cfg.vup@.x, w@.z, 1000000000, 2000000000);
            lemma_tmul_bound(cfg.vup@.x, w@.y, 1000000000, 2000000000);
            lemma_tmul_bound(cfg.vup@.y, w@.x, 1000000000, 2000000000);
        }
        let cu = cfg.vup.cross(w);
        proof {
            lemma_dot_fits3(cu@, cu@, 4000000000000, 4000000000000,
                16000000000000000000);
            lemma_len2_nonneg(cu@);
        }
        let cul: i128 = cu.dot_wide(cu);
        let u = if cul >= 1 {
            cu.unit_vector()
        } else {
            Vec3 { x: 1000000, y: 0, z: 0 }
        };
        proof {
            lemma_tmul_bound(w@.y, u@.z, 2000000000, 2000000000);
            lemma_tmul_bound(w@.z, u@.y, 2000000000, 2000000000);
            lemma_tmul_bound(w@.z, u@.x, 2000000000, 2000000000);
            lemma_tmul_bound(w@.x, u@.z, 2000000000, 2000000000);
            lemma_tmul_bound(w@.x, u@.y, 2000000000, 2000000000);
            lemma_tmul_bound(w@.y, u@.x, 2000000000, 2000000000);
        }
        let v = w.cross(u);
        proof {
            lemma_tmul_bound(cfg.focus_dist as int, viewport_width as int, 1000000000,
                200000000);
            lemma_tmul_bound(cfg.focus_dist as int, viewport_height as int, 1000000000,
                20000000);
        }
        let fw: i64 = fmul128(cfg.focus_dist as i128, viewport_width as i128) as i64;
        let fh: i64 = fmul128(cfg.focus_dist as i128, viewport_height as i128) as i64;
        proof {
            lemma_tmul_bound(u@.x, fw as int, 2000000000, 200000000000);
            lemma_tmul_bound(u@.y, fw as int, 2000000000, 200000000000);
            lemma_tmul_bound(u@.z, fw as int, 2000000000, 200000000000);
            lemma_tmul_bound(v@.x, fh as int, 8000000000000, 20000000000);
            lemma_tmul_bound(v@.y, fh as int, 8000000000000, 20000000000);
            lemma_tmul_bound(v@.z, fh as int, 8000000000000, 20000000000);
        }
        let horizontal = u.scale_wide(fw);
        let vertical = v.scale_wide(fh);
        proof {
            lemma_tmul_bound(w@.x, cfg.focus_dist as int, 2000000000, 1000000000);
            lemma_tmul_bound(w@.y, cfg.focus_dist as int, 2000000000, 1000000000);
            lemma_tmul_bound(w@.z, cfg.focus_dist as int, 2000000000, 1000000000);
        }
        let fwv = w.scale_wide(cfg.focus_dist);
        proof {
            lemma_tmul_unit_bound(500000, horizontal@.x, 400000000000000);
            lemma_tmul_unit_bound(500000, horizontal@.y, 400000000000000);
            lemma_tmul_unit_bound(500000, horizontal@.z, 400000000000000);
            lemma_tmul_unit_bound(500000, vertical@.x, 200000000000000000);
            lemma_tmul_unit_bound(500000, vertical@.y, 200000000000000000);
            lemma_tmul_unit_bound(500000, vertical@.z, 200000000000000000);
            assert(tmul(horizontal@.x, 500000) == tmul(500000, horizontal@.x)) by {
                assert(horizontal@.x * 500000int == 500000int * horizontal@.x);
            }
            assert(tmul(horizontal@.y, 500000) == tmul(500000, horizontal@.y)) by {
                assert(horizontal@.y * 500000int == 500000int * horizontal@.y);
            }
            assert(tmul(horizontal@.z, 500000) == tmul(500000, horizontal@.z)) by {
                assert(horizontal@.z * 500000int == 500000int * horizontal@.z);
            }
            assert(tmul(vertical@.x, 500000) == tmul(500000, vertical@.x)) by {
                assert(vertical@.x * 500000int == 500000int * vertical@.x);
            }
            assert(tmul(vertical@.y, 500000) == tmul(500000, vertical@.y)) by {
                assert(vertical@.y * 500000int == 500000int * vertical@.y);
            }
            assert(tmul(vertical@.z, 500000) == tmul(500000, vertical@.z)) by {
                assert(vertical@.z * 500000int == 500000int * vertical@.z);
            }
        }
        let half_h = horizontal.scale_wide(500000);
        let half_v = vertical.scale_wide(500000);
        let lower_left_corner = origin.sub(half_h).sub(half_v).sub(fwv);
        Camera {
            origin,
            horizontal,
            vertical,
            lower_left_corner,
            u,
            v,
            lens_radius: cfg.aperture / 2,
            time0: cfg.time0,
            time1: cfg.time1,
            background: cfg.background,
        }
    }

    /// The primary ray through film coordinates `(s, t)`, its origin
    /// jittered across the lens and its time drawn from the camera's
    /// interval. The ray is always well-formed: a direction the scene
    /// cannot carry is replaced by the optical axis.
    #[verifier::rlimit(60)]
    pub fn get_ray(&self, s: i64, t: i64, rng: &mut SmallRng) -> (r: Ray)
        requires
            0 <= s <= SCALE,
            0 <= t <= SCALE,
            self.origin@.within(1000000000),
            self.horizontal@.within(400000000000000),
            self.vertical@.within(200000000000000000),
            self.lower_left_corner@.within(300000000000000000),
            self.u@.within(2000000000),
            self.v@.within(8000000000000),
            0 <= self.lens_radius <= 1000000000,
            sabs(self.time0 as int) <= T_FAR as int,
            sabs(self.time1 as int) <= T_FAR as int,
            self.time0 <= self.time1,
        ensures
            r@.wf(),
            self.time0 <= r.time <= self.time1,
            get_ray_rel(*self, s as int, t as int, r@),
    {
        let rd0 = Vec3::random_in_unit_disk(rng);
        let ghost grd0 = rd0@;
        proof {
            lemma_tmul_bound(rd0@.x, self.lens_radius as int, SCALE as int, 1000000000);
            lemma_tmul_bound(rd0@.y, self.lens_radius as int, SCALE as int, 1000000000);
            lemma_tmul_bound(rd0@.z, self.lens_radius as int, SCALE as int, 1000000000);
        }
        let rd = rd0.scale(self.lens_radius);
        proof {
            lemma_tmul_bound(self.u@.x, rd@.x, 2000000000, 1000000000);
            lemma_tmul_bound(self.u@.y, rd@.x, 2000000000, 1000000000);
            lemma_tmul_bound(self.u@.z, rd@.x, 2000000000, 1000000000);
            lemma_tmul_bound(self.v@.x, rd@.y, 8000000000000, 1000000000);
            lemma_tmul_bound(self.v@.y, rd@.y, 8000000000000, 1000000000);
            lemma_tmul_bound(self.v@.z, rd@.y, 8000000000000, 1000000000);
        }
        let offset = self.u.scale_wide(rd.x).add(self.v.scale_wide(rd.y));
        let origin0 = self.origin.add(offset);
        let pbb: i64 = 100000000000000;
        let origin = if origin0.x <= pbb && origin0.x >= -pbb && origin0.y <= pbb && origin0.y
            >= -pbb && origin0.z <= pbb && origin0.z >= -pbb {
            origin0
        } else {
            self.origin
        };
        proof {
            lemma_tmul_unit_bound(s as int, self.horizontal@.x, 400000000000000);
            lemma_tmul_unit_bound(s as int, self.horizontal@.y, 400000000000000);
            lemma_tmul_unit_bound(s as int, self.horizontal@.z, 400000000000000);
            lemma_tmul_unit_bound(t as int, self.vertical@.x, 200000000000000000);
            lemma_tmul_unit_bound(t as int, self.vertical@.y, 200000000000000000);
            lemma_tmul_unit_bound(t as int, self.vertical@.z, 200000000000000000);
            assert(tmul(self.horizontal@.x, s as int) == tmul(s as int, self.horizontal@.x))
                by {
                assert(self.horizontal@.x * (s as int) == (s as int) * self.horizontal@.x);
            }
            assert(tmul(self.horizontal@.y, s as int) == tmul(s as int, self.horizontal@.y))
                by {
                assert(self.horizontal@.y * (s as int) == (s as int) * self.horizontal@.y);
            }
            assert(tmul(self.horizontal@.z, s as int) == tmul(s as int, self.horizontal@.z))
                by {
                assert(self.horizontal@.z * (s as int) == (s as int) * self.horizontal@.z);
            }
            assert(tmul(self.vertical@.x, t as int) == tmul(t as int, self.vertical@.x)) by {
                assert(self.vertical@.x * (t as int) == (t as int) * self.vertical@.x);
            }
            assert(tmul(self.vertical@.y, t as int) == tmul(t as int, self.vertical@.y)) by {
                assert(self.vertical@.y * (t as int) == (t as int) * self.vertical@.y);
            }
            assert(tmul(self.vertical@.z, t as int) == tmul(t as int, self.vertical@.z)) by {
                assert(self.vertical@.z * (t as int) == (t as int) * self.vertical@.z);
            }
        }
        let sh = self.horizontal.scale_wide(s);
        let tv = self.vertical.scale_wide(t);
        let direction = self.lower_left_corner.add(sh).add(tv).sub(self.origin).sub(offset);
        let db: i64 = 10000000000;
        let dir_ok = direction.x <= db && direction.x >= -db && direction.y <= db
            && direction.y >= -db && direction.z <= db && direction.z >= -db;
        let dir = if dir_ok {
            direction
        } else {
            Vec3 { x: 0, y: 0, z: 1000000 }
        };
        let time: i64 = if self.time0 != self.time1 {
            rand_range(rng, self.time0, self.time1)
        } else {
            self.time0
        };
        let out = Ray { origin, direction: dir, time };
        proof {
            assert(grd0.within(SCALE as int));
            assert(get_ray_rel(*self, s as int, t as int, out@));
        }
        out
    }
}

} // verus!
