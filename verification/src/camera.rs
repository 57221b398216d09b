//! The camera: maps the pixel grid into world-space primary rays.

use vstd::prelude::*;
use crate::fixed::Fx;
use crate::fixed::SCALE;
use crate::fixed::fmul;
use crate::fixed::fx_mul;
use crate::fixed::iabs;
use crate::fixed::lemma_mul_abs;
use crate::fixed::lemma_tdiv_bound;
use crate::fixed::lemma_tdiv_pos;
use crate::fixed::tdiv;
use crate::math::Point3;
use crate::math::V3;
use crate::math::Vec3;
use crate::math::lemma_vscale_bound;
use crate::math::sv;
use crate::math::v3_bounded;
use crate::math::vadd;
use crate::math::vdivi;
use crate::math::vnorm2;
use crate::math::vscale;
use crate::math::vsub;
use crate::math::vunit;
use crate::object::COORD_MAX;
use crate::ray::Ray;
use crate::ray::RayV;
use crate::ray::ray_wf;
use crate::ray::rv;

verus! {

/// The image plane in world space: edge vectors, per-pixel steps and the
/// center of the top-left pixel. `v` points downward so a growing row
/// index moves down in world space.
pub struct Viewport {
    pub u: Vec3,
    pub v: Vec3,
    pub origin: Point3,
    pub pdu: Vec3,
    pub pdv: Vec3,
    pub p00: Point3,
}

/// An immutable render configuration, derived once from the field of
/// view, the aspect ratio and the image width.
pub struct Camera {
    pub aspect_ratio: Fx,
    pub image_width: usize,
    pub position: Point3,
    pub focal_length: Fx,
    pub viewport: Viewport,
    pub image_height: usize,
    pub sampling_rate: usize,
    pub max_depth: u32,
}

/// The bounds the renderer needs of a camera: modest dimensions, and a
/// viewport whose vectors stay inside the world (the top-left pixel
/// within 2^14 world units, the per-pixel steps within 2^8).
pub open spec fn camera_wf(c: Camera) -> bool {
    &&& 1 <= c.image_width <= 16384
    &&& 1 <= c.image_height <= 131072
    &&& 1 <= c.sampling_rate <= 65536
    &&& v3_bounded(sv(c.position), COORD_MAX as int)
    &&& v3_bounded(sv(c.viewport.p00), 0x400000000000)
    &&& v3_bounded(sv(c.viewport.pdu), 0x10000000000)
    &&& v3_bounded(sv(c.viewport.pdv), 0x10000000000)
}

/// The derived image height: the width over the aspect ratio, and at
/// least one row.
pub open spec fn camera_height(width: int, aspect: int) -> int {
    let h = tdiv(width * SCALE, aspect);
    if h < 1 {
        1
    } else {
        h
    }
}

/// The center of the image-plane sample for column offset `ifx` and row
/// offset `jfx` (pixel indices in fixed point, jitter included).
pub open spec fn viewport_point(c: Camera, ifx: int, jfx: int) -> V3 {
    vadd(
        vadd(sv(c.viewport.p00), vscale(ifx, sv(c.viewport.pdu))),
        vscale(jfx, sv(c.viewport.pdv)),
    )
}

/// The primary ray for that sample: from the camera position toward the
/// sample, normalized. A degenerate direction (the sample falling on the
/// position itself, below one representation step) falls back to the
/// viewing axis.
pub open spec fn camera_ray(c: Camera, ifx: int, jfx: int) -> RayV {
    let d = vsub(viewport_point(c, ifx, jfx), sv(c.position));
    let dir = if vnorm2(d) < 1 {
        V3 { x: 0, y: 0, z: -(SCALE as int) }
    } else {
        vunit(d)
    };
    RayV { o: sv(c.position), dir }
}

impl Camera {
    /// Build a camera from its configuration. The vertical field of view
    /// enters as the tangent of its half-angle (a fixed-point scalar), the
    /// focal length is fixed at one.
    pub fn new(position: Point3, tan_half_fov: Fx, aspect_ratio: Fx, image_width: usize) -> (r:
        Camera)
        requires
            v3_bounded(sv(position), COORD_MAX as int),
            0 < tan_half_fov <= 16 * SCALE,
            SCALE / 8 <= aspect_ratio <= 8 * SCALE,
            1 <= image_width <= 16384,
        ensures
            camera_wf(r),
            r.position == position,
            r.image_width == image_width,
            r.image_height == camera_height(image_width as int, aspect_ratio as int),
            r.aspect_ratio == tdiv(image_width as int * SCALE, r.image_height as int),
            r.focal_length == SCALE,
            r.sampling_rate == 4,
            r.max_depth == 8,
            ({
                let vh = fmul(2 * SCALE, tan_half_fov as int);
                let vw = fmul(vh, aspect_ratio as int);
                let vu = V3 { x: vw, y: 0, z: 0 };
                let vv = V3 { x: 0, y: -vh, z: 0 };
                let tl = vsub(
                    vsub(vsub(sv(position), V3 { x: 0, y: 0, z: SCALE as int }), vdivi(vu, 2)),
                    vdivi(vv, 2),
                );
                &&& sv(r.viewport.u) == vu
                &&& sv(r.viewport.v) == vv
                &&& sv(r.viewport.origin) == tl
                &&& sv(r.viewport.pdu) == vdivi(vu, r.image_width as int)
                &&& sv(r.viewport.pdv) == vdivi(vv, r.image_height as int)
                &&& sv(r.viewport.p00) == vadd(
                    vadd(tl, vdivi(vdivi(vu, r.image_width as int), 2)),
                    vdivi(vdivi(vv, r.image_height as int), 2),
                )
            }),
    {
        let wfx: i128 = (image_width as i128) * SCALE;
        let q: i128 = wfx.checked_div(aspect_ratio).unwrap();
        proof {
            lemma_tdiv_pos(wfx as int, aspect_ratio as int);
            assert(tdiv(wfx as int, aspect_ratio as int) <= wfx as int / 536870912int) by {
                vstd::arithmetic::div_mod::lemma_div_is_ordered_by_denominator(
                    wfx as int,
                    536870912int,
                    aspect_ratio as int,
                );
            }
            assert(wfx as int / 536870912int <= 0x400000000000int / 536870912int) by {
                vstd::arithmetic::div_mod::lemma_div_is_ordered(
                    wfx as int,
                    0x400000000000int,
                    536870912int,
                );
            }
            assert(0x400000000000int / 536870912int == 131072int);
        }
        let mut image_height: usize = q as usize;
        if image_height < 1 {
            image_height = 1;
        }
        proof {
            assert(image_height == camera_height(image_width as int, aspect_ratio as int));
            lemma_tdiv_bound(
                image_width as int * SCALE as int,
                image_height as int,
                0x400000000000,
            );
        }
        let actual_ratio = (wfx).checked_div(image_height as i128).unwrap();
        let focal_length: Fx = SCALE;
        proof {
            lemma_mul_abs(
                2 * SCALE as int,
                tan_half_fov as int,
                8589934592,
                68719476736,
            );
            assert(8589934592int * 68719476736int == 590295810358705651712int);
            lemma_tdiv_bound(
                2 * SCALE as int * tan_half_fov as int,
                SCALE as int,
                590295810358705651712,
            );
            assert(590295810358705651712int / (SCALE as int) == 137438953472int);
        }
        let viewport_height = fx_mul(2 * SCALE, tan_half_fov);
        proof {
            lemma_mul_abs(
                viewport_height as int,
                aspect_ratio as int,
                137438953472,
                34359738368,
            );
            assert(137438953472int * 34359738368int == 4722366482869645213696int);
            lemma_tdiv_bound(
                viewport_height as int * aspect_ratio as int,
                SCALE as int,
                4722366482869645213696,
            );
        }
        let viewport_width = fx_mul(viewport_height, aspect_ratio);
        let viewport_u = Vec3 { x: viewport_width, y: 0, z: 0 };
        let viewport_v = Vec3 { x: 0, y: -viewport_height, z: 0 };
        let half_u = viewport_u.div_int(2);
        let half_v = viewport_v.div_int(2);
        let axis = Vec3 { x: 0, y: 0, z: focal_length };
        let viewport_top_left = position.sub(&axis).sub(&half_u).sub(&half_v);
        let pdu = viewport_u.div_int(image_width as i128);
        let pdv = viewport_v.div_int(image_height as i128);
        let p00 = viewport_top_left.add(&pdu.div_int(2)).add(&pdv.div_int(2));
        let viewport = Viewport {
            u: viewport_u,
            v: viewport_v,
            origin: viewport_top_left,
            pdu,
            pdv,
            p00,
        };
        Camera {
            aspect_ratio: actual_ratio,
            image_width,
            position,
            focal_length,
            viewport,
            image_height,
            sampling_rate: 4,
            max_depth: 8,
        }
    }

    /// The jittered primary ray for pixel `(i, j)`: the jitter offsets
    /// `du`, `dv` are fixed-point values in `[-1/2, 1/2]`.
    pub fn get_ray(&self, i: usize, j: usize, du: Fx, dv: Fx) -> (r: Ray)
        requires
            camera_wf(*self),
            i < self.image_width,
            j < self.image_height,
            iabs(du as int) <= SCALE / 2,
            iabs(dv as int) <= SCALE / 2,
        ensures
            rv(r) == camera_ray(*self, i as int * SCALE + du, j as int * SCALE + dv),
            ray_wf(r),
    {
        let ifx: i128 = (i as i128) * SCALE + du;
        let jfx: i128 = (j as i128) * SCALE + dv;
        proof {
            lemma_vscale_bound(ifx as int, sv(self.viewport.pdu), 0x400000000000, 0x10000000000);
            lemma_vscale_bound(jfx as int, sv(self.viewport.pdv), 0x2000000000000, 0x10000000000);
        }
        let su = self.viewport.pdu.scale(ifx);
        let sj = self.viewport.pdv.scale(jfx);
        let px = self.viewport.p00.add(&su).add(&sj);
        let d = px.sub(&self.position);
        let n2 = d.length_squared();
        let dir = if n2 < 1 {
            proof {
                lemma_axis_dir_wf();
            }
            Vec3 { x: 0, y: 0, z: -SCALE }
        } else {
            d.unit()
        };
        Ray { o: self.position, dir }
    }
}

/// The negative viewing axis is an admissible unit direction.
proof fn lemma_axis_dir_wf()
    ensures
        vnorm2(V3 { x: 0, y: 0, z: -(SCALE as int) }) == SCALE,
{
    assert((-(SCALE as int)) * (-(SCALE as int)) == SCALE as int * SCALE as int)
        by (nonlinear_arith);
    assert(tdiv(0, SCALE as int) == 0);
    assert(tdiv(SCALE as int * SCALE as int, SCALE as int) == SCALE) by {
        vstd::arithmetic::div_mod::lemma_div_multiples_vanish(SCALE as int, SCALE as int);
    }
}

} // verus!
