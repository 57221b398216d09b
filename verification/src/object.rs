//! Geometry: the primitives a ray can hit.
//!
//! Every intersection test reports the smallest admissible parameter `t`
//! along the ray, the hit point, a unit surface normal and the surface's
//! material. A hit is admissible only when `t` clears a small positive
//! threshold (so a ray starting on a surface cannot immediately re-hit
//! it) and stays inside the supported world size.

use std::sync::Arc;
use vstd::prelude::*;
use crate::fixed::EPS;
use crate::fixed::Fx;
use crate::fixed::SCALE;
use crate::fixed::T_MAX;
use crate::fixed::fdiv;
use crate::fixed::fmul;
use crate::fixed::fx_div;
use crate::fixed::fx_mul;
use crate::fixed::fx_sqrt;
use crate::fixed::iabs;
use crate::fixed::tdiv;
use crate::fixed::isqrt;
use crate::fixed::lemma_mul_abs;
use crate::material::Material;
use crate::material::material_wf;
use crate::math::Point3;
use crate::math::V3;
use crate::math::Vec3;
use crate::math::lemma_vdot_bound;
use crate::math::lemma_vscale_bound;
use crate::math::sv;
use crate::math::v3_bounded;
use crate::math::vadd;
use crate::math::vdot;
use crate::math::vlen;
use crate::math::vneg;
use crate::math::vnorm2;
use crate::math::vscale;
use crate::math::vsub;
use crate::math::vunit;
use crate::ray::DIR_MAX;
use crate::ray::ORIGIN_MAX;
use crate::ray::Ray;
use crate::ray::ray_at;
use crate::ray::RayV;
use crate::ray::ray_wf;
use crate::ray::rv;

verus! {

/// Cap on the magnitude of a scene coordinate (about 2^12 world units).
pub const COORD_MAX: i128 = 17592186044416;

/// Cap on the magnitude of a hit point's components: where a ray bounded
/// by `ORIGIN_MAX`, `DIR_MAX` and `T_MAX` can reach.
pub const POINT_MAX: i128 = ORIGIN_MAX + 4503599627370496;

/// The result of a successful intersection. The material is the surface's
/// own, copied out of its shared handle.
#[derive(Clone, Copy)]
pub struct HitRecord {
    pub t: Fx,
    pub point: Point3,
    pub normal: Vec3,
    pub material: Material,
}

/// The mathematical model of a hit record.
pub ghost struct HitInfo {
    pub t: int,
    pub point: V3,
    pub normal: V3,
    pub material: Material,
}

/// A hit record's model.
pub open spec fn hi(h: HitRecord) -> HitInfo {
    HitInfo { t: h.t as int, point: sv(h.point), normal: sv(h.normal), material: h.material }
}

/// An optional hit record's model.
pub open spec fn opt_hi(o: Option<HitRecord>) -> Option<HitInfo> {
    match o {
        Some(h) => Some(hi(h)),
        None => None,
    }
}

/// What every reported hit satisfies: an admissible parameter, a point
/// inside the reachable world, a unit-length normal and an admissible
/// material.
pub open spec fn hit_wf(h: HitInfo) -> bool {
    &&& EPS <= h.t <= T_MAX
    &&& v3_bounded(h.point, POINT_MAX as int)
    &&& v3_bounded(h.normal, 2 * SCALE as int)
    &&& vnorm2(h.normal) >= SCALE / 4
    &&& material_wf(h.material)
}

/// An intersection parameter is admissible when it clears the
/// self-intersection threshold and stays inside the world.
pub open spec fn valid_t(t: int) -> bool {
    EPS <= t <= T_MAX
}

/// The intersection parameter of a ray with the plane through `anchor`
/// with normal `nrm`: rejected when the ray runs parallel to the plane
/// (tiny denominator) or the parameter is inadmissible.
pub open spec fn plane_t_s(anchor: V3, nrm: V3, r: RayV) -> Option<int> {
    let den = vdot(r.dir, nrm);
    if iabs(den) < EPS {
        None
    } else {
        let t = fdiv(vdot(vsub(anchor, r.o), nrm), den);
        if valid_t(t) {
            Some(t)
        } else {
            None
        }
    }
}

/// An optional scalar's model.
pub open spec fn opt_int(o: Option<Fx>) -> Option<int> {
    match o {
        Some(t) => Some(t as int),
        None => None,
    }
}

/// The shared plane-intersection computation.
fn plane_t_exec(anchor: &Vec3, nrm: &Vec3, ray: &Ray) -> (res: Option<Fx>)
    requires
        ray_wf(*ray),
        v3_bounded(sv(*anchor), ORIGIN_MAX as int),
        v3_bounded(sv(*nrm), 2 * SCALE as int),
    ensures
        opt_int(res) == plane_t_s(sv(*anchor), sv(*nrm), rv(*ray)),
        res matches Some(t) ==> valid_t(t as int),
{
    let den = ray.dir.dot(nrm);
    if -EPS < den && den < EPS {
        return None;
    }
    let ao = anchor.sub(&ray.o);
    let num = ao.dot(nrm);
    proof {
        lemma_vdot_bound(
            vsub(sv(*anchor), rv(*ray).o),
            sv(*nrm),
            2 * ORIGIN_MAX as int,
            2 * SCALE as int,
        );
        lemma_mul_abs(num as int, SCALE as int, 0x10000000000000, SCALE as int);
    }
    let t = fx_div(num, den);
    if EPS <= t && t <= T_MAX {
        Some(t)
    } else {
        None
    }
}

// ---------------------------------------------------------------------
// Sphere
// ---------------------------------------------------------------------

pub struct Sphere {
    pub center: Point3,
    pub radius: Fx,
    pub material: Arc<Material>,
}

pub open spec fn sphere_wf(s: Sphere) -> bool {
    &&& v3_bounded(sv(s.center), COORD_MAX as int)
    &&& 0 < s.radius <= COORD_MAX
    &&& material_wf(*s.material)
}

/// The offset from the ray's origin to the sphere's center.
pub open spec fn sphere_oc(s: Sphere, r: RayV) -> V3 {
    vsub(sv(s.center), r.o)
}

/// The quadratic `a t^2 - 2 h t + c = 0` governs the intersection; its
/// discriminant decides whether the ray meets the sphere at all.
pub open spec fn sphere_disc(s: Sphere, r: RayV) -> int {
    let a = vnorm2(r.dir);
    let h = vdot(r.dir, sphere_oc(s, r));
    let c = vnorm2(sphere_oc(s, r)) - fmul(s.radius as int, s.radius as int);
    fmul(h, h) - fmul(a, c)
}

/// The chosen intersection parameter: the smaller root if admissible,
/// else the larger root if admissible, else nothing.
pub open spec fn sphere_t(s: Sphere, r: RayV) -> Option<int> {
    let a = vnorm2(r.dir);
    let h = vdot(r.dir, sphere_oc(s, r));
    let d = sphere_disc(s, r);
    if d < 0 {
        None
    } else {
        let sq = isqrt(d * SCALE);
        let t1 = fdiv(h - sq, a);
        let t2 = fdiv(h + sq, a);
        if valid_t(t1) {
            Some(t1)
        } else if valid_t(t2) {
            Some(t2)
        } else {
            None
        }
    }
}

/// The record produced at parameter `t` on the sphere: the normal is the
/// direction from the center to the hit point, scaled to unit length; a
/// hit point indistinguishable from the center (below one representation
/// step) is rejected as degenerate.
pub open spec fn sphere_hit_at(s: Sphere, r: RayV, t: int) -> Option<HitInfo> {
    let p = ray_at(r, t);
    let pc = vsub(p, sv(s.center));
    if vnorm2(pc) < 1 {
        None
    } else {
        Some(HitInfo { t, point: p, normal: vunit(pc), material: *s.material })
    }
}

pub open spec fn sphere_hit_s(s: Sphere, r: RayV) -> Option<HitInfo> {
    match sphere_t(s, r) {
        None => None,
        Some(t) => sphere_hit_at(s, r, t),
    }
}

impl Sphere {
    /// The record at an already chosen parameter.
    fn hit_at(&self, ray: &Ray, t: Fx) -> (res: Option<HitRecord>)
        requires
            ray_wf(*ray),
            sphere_wf(*self),
            valid_t(t as int),
        ensures
            opt_hi(res) == sphere_hit_at(*self, rv(*ray), t as int),
            res matches Some(hr) ==> hit_wf(hi(hr)),
    {
        let p = ray.at(t);
        let pc = p.sub(&self.center);
        let n2 = pc.length_squared();
        if n2 < 1 {
            return None;
        }
        let mat = *self.material;
        Some(HitRecord { t, point: p, normal: pc.unit(), material: mat })
    }

    pub fn hit(&self, ray: &Ray) -> (res: Option<HitRecord>)
        requires
            ray_wf(*ray),
            sphere_wf(*self),
        ensures
            opt_hi(res) == sphere_hit_s(*self, rv(*ray)),
            res matches Some(hr) ==> hit_wf(hi(hr)),
    {
        let oc = self.center.sub(&ray.o);
        let a = ray.dir.length_squared();
        let h = ray.dir.dot(&oc);
        proof {
            lemma_vdot_bound(rv(*ray).dir, rv(*ray).dir, DIR_MAX as int, DIR_MAX as int);
            lemma_vdot_bound(
                rv(*ray).dir,
                sphere_oc(*self, rv(*ray)),
                DIR_MAX as int,
                ORIGIN_MAX as int + COORD_MAX as int,
            );
            lemma_vdot_bound(
                sphere_oc(*self, rv(*ray)),
                sphere_oc(*self, rv(*ray)),
                ORIGIN_MAX as int + COORD_MAX as int,
                ORIGIN_MAX as int + COORD_MAX as int,
            );
            lemma_mul_abs(self.radius as int, self.radius as int, COORD_MAX as int, COORD_MAX as int);
            crate::fixed::lemma_tdiv_bound(
                self.radius as int * self.radius as int,
                SCALE as int,
                COORD_MAX as int * COORD_MAX as int,
            );
        }
        let rr = fx_mul(self.radius, self.radius);
        let c = oc.length_squared() - rr;
        proof {
            lemma_mul_abs(h as int, h as int, 0x8000000000000, 0x8000000000000);
            lemma_mul_abs(a as int, c as int, 0xc000000000, 0x20000000000000000);
            crate::fixed::lemma_tdiv_bound(
                h as int * h as int,
                SCALE as int,
                0x8000000000000int * 0x8000000000000int,
            );
            crate::fixed::lemma_tdiv_bound(
                a as int * c as int,
                SCALE as int,
                0xc000000000int * 0x20000000000000000int,
            );
        }
        let d = fx_mul(h, h) - fx_mul(a, c);
        if d < 0 {
            return None;
        }
        proof {
            lemma_mul_abs(d as int, SCALE as int, 0x2000000000000000000, SCALE as int);
        }
        let sq = fx_sqrt(d);
        proof {
            lemma_mul_abs((h - sq) as int, SCALE as int, 0x10000000000000000, SCALE as int);
            lemma_mul_abs((h + sq) as int, SCALE as int, 0x10000000000000000, SCALE as int);
        }
        let t1 = fx_div(h - sq, a);
        if EPS <= t1 && t1 <= T_MAX {
            return self.hit_at(ray, t1);
        }
        let t2 = fx_div(h + sq, a);
        if EPS <= t2 && t2 <= T_MAX {
            return self.hit_at(ray, t2);
        }
        None
    }
}

// ---------------------------------------------------------------------
// Plane
// ---------------------------------------------------------------------

pub struct Plane {
    pub anchor: Point3,
    pub normal: Vec3,
    pub material: Arc<Material>,
}

/// The plane's normal is assumed unit length (up to representation
/// error), as in the scene model.
pub open spec fn plane_wf(p: Plane) -> bool {
    &&& v3_bounded(sv(p.anchor), COORD_MAX as int)
    &&& v3_bounded(sv(p.normal), 2 * SCALE as int)
    &&& SCALE - 16 <= vnorm2(sv(p.normal)) <= SCALE + 16
    &&& material_wf(*p.material)
}

/// The plane's own fixed normal is reported, never flipped toward the
/// ray.
pub open spec fn plane_hit_s(p: Plane, r: RayV) -> Option<HitInfo> {
    match plane_t_s(sv(p.anchor), sv(p.normal), r) {
        None => None,
        Some(t) => Some(
            HitInfo { t, point: ray_at(r, t), normal: sv(p.normal), material: *p.material },
        ),
    }
}

impl Plane {
    pub fn hit(&self, ray: &Ray) -> (res: Option<HitRecord>)
        requires
            ray_wf(*ray),
            plane_wf(*self),
        ensures
            opt_hi(res) == plane_hit_s(*self, rv(*ray)),
            res matches Some(hr) ==> hit_wf(hi(hr)),
    {
        match plane_t_exec(&self.anchor, &self.normal, ray) {
            None => None,
            Some(t) => {
                let p = ray.at(t);
                let mat = *self.material;
                Some(HitRecord { t, point: p, normal: self.normal, material: mat })
            },
        }
    }
}

// ---------------------------------------------------------------------
// Cylinder
// ---------------------------------------------------------------------

/// Cap on the radial-offset decomposition of a ray against a cylinder;
/// rays whose offset component leaves this bound (far outside any
/// reachable geometry) are reported as misses, which keeps the reduced
/// quadratic inside `i128`.
pub const M_MAX: i128 = 2251799813685248;

/// A finite capped cylinder with arbitrary unit axis. The side and the
/// two cap disks may carry different materials.
pub struct Cylinder {
    pub center: Point3,
    pub radius: Fx,
    pub height: Fx,
    pub orientation: Vec3,
    pub body_material: Arc<Material>,
    pub top_material: Arc<Material>,
    pub bottom_material: Arc<Material>,
}

pub open spec fn cyl_wf(c: Cylinder) -> bool {
    &&& v3_bounded(sv(c.center), COORD_MAX as int)
    &&& 0 < c.radius <= COORD_MAX
    &&& 0 < c.height <= COORD_MAX
    &&& v3_bounded(sv(c.orientation), 2 * SCALE as int)
    &&& SCALE - 16 <= vnorm2(sv(c.orientation)) <= SCALE + 16
    &&& material_wf(*c.body_material)
    &&& material_wf(*c.top_material)
    &&& material_wf(*c.bottom_material)
}

/// The ray direction's component perpendicular to the axis.
pub open spec fn cyl_n(c: Cylinder, r: RayV) -> V3 {
    let v = sv(c.orientation);
    vsub(r.dir, vscale(vdot(r.dir, v), v))
}

/// The origin offset's component perpendicular to the axis.
pub open spec fn cyl_m(c: Cylinder, r: RayV) -> V3 {
    let v = sv(c.orientation);
    let oc = vsub(r.o, sv(c.center));
    vsub(oc, vscale(vdot(oc, v), v))
}

/// The axial coordinate of the point reached at parameter `t`, measured
/// from the cylinder's base.
pub open spec fn cyl_height_at(c: Cylinder, r: RayV, t: int) -> int {
    vdot(vsub(ray_at(r, t), sv(c.center)), sv(c.orientation))
}

/// A side candidate is accepted only when it is admissible along the ray
/// and its axial coordinate lies inside `[0, height]`.
pub open spec fn cyl_side_ok(c: Cylinder, r: RayV, t: int) -> bool {
    valid_t(t) && 0 <= cyl_height_at(c, r, t) <= c.height
}

/// The chosen side-intersection parameter from the reduced quadratic on
/// the perpendicular components: nothing when the ray runs (nearly)
/// parallel to the axis.
pub open spec fn cyl_side_t(c: Cylinder, r: RayV) -> Option<int> {
    let n = cyl_n(c, r);
    let m = cyl_m(c, r);
    let a = vnorm2(n);
    if a <= EPS {
        None
    } else {
        let h = vdot(n, m);
        let cc = vnorm2(m) - fmul(c.radius as int, c.radius as int);
        let d = fmul(h, h) - fmul(a, cc);
        if d < 0 {
            None
        } else {
            let sq = isqrt(d * SCALE);
            let t1 = fdiv(-h - sq, a);
            let t2 = fdiv(-h + sq, a);
            if cyl_side_ok(c, r, t1) {
                Some(t1)
            } else if cyl_side_ok(c, r, t2) {
                Some(t2)
            } else {
                None
            }
        }
    }
}

/// The record produced by a side hit: the normal points from the axis to
/// the hit point, scaled to unit length.
pub open spec fn cyl_side_hit(c: Cylinder, r: RayV) -> Option<HitInfo> {
    match cyl_side_t(c, r) {
        None => None,
        Some(t) => {
            let p = ray_at(r, t);
            let hp = cyl_height_at(c, r, t);
            let ax = vadd(sv(c.center), vscale(hp, sv(c.orientation)));
            let pa = vsub(p, ax);
            if vnorm2(pa) < 1 {
                None
            } else {
                Some(HitInfo { t, point: p, normal: vunit(pa), material: *c.body_material })
            }
        },
    }
}

/// The record produced by one cap disk: a plane hit through the cap's
/// anchor, accepted only within the cap's radius. The bottom cap faces
/// against the axis, the top cap along it.
pub open spec fn cyl_cap_hit(c: Cylinder, r: RayV, top: bool) -> Option<HitInfo> {
    let v = sv(c.orientation);
    let anchor = if top {
        vadd(sv(c.center), vscale(c.height as int, v))
    } else {
        sv(c.center)
    };
    let nrm = if top {
        v
    } else {
        vneg(v)
    };
    match plane_t_s(anchor, nrm, r) {
        None => None,
        Some(t) => {
            let p = ray_at(r, t);
            if vnorm2(vsub(p, anchor)) <= fmul(c.radius as int, c.radius as int) {
                Some(
                    HitInfo {
                        t,
                        point: p,
                        normal: nrm,
                        material: if top {
                            *c.top_material
                        } else {
                            *c.bottom_material
                        },
                    },
                )
            } else {
                None
            }
        },
    }
}

/// The nearer of two optional hits, by strict comparison: on a tie the
/// first stays.
pub open spec fn better(a: Option<HitInfo>, b: Option<HitInfo>) -> Option<HitInfo> {
    match (a, b) {
        (None, _) => b,
        (Some(x), None) => a,
        (Some(x), Some(y)) => if y.t < x.t {
            b
        } else {
            a
        },
    }
}

/// The whole cylinder test: the side surface and both caps compete, the
/// smallest admissible parameter wins, side first on ties.
pub open spec fn cylinder_hit_s(c: Cylinder, r: RayV) -> Option<HitInfo> {
    if !v3_bounded(cyl_m(c, r), M_MAX as int) {
        None
    } else {
        better(
            better(cyl_side_hit(c, r), cyl_cap_hit(c, r, false)),
            cyl_cap_hit(c, r, true),
        )
    }
}

/// The nearer of two optional hits.
fn pick_better(a: Option<HitRecord>, b: Option<HitRecord>) -> (res: Option<HitRecord>)
    ensures
        opt_hi(res) == better(opt_hi(a), opt_hi(b)),
{
    match (&a, &b) {
        (None, _) => b,
        (Some(_), None) => a,
        (Some(x), Some(y)) => if y.t < x.t {
            b
        } else {
            a
        },
    }
}

impl Cylinder {
    /// One cap disk's test.
    fn cap_hit(&self, ray: &Ray, top: bool) -> (res: Option<HitRecord>)
        requires
            ray_wf(*ray),
            cyl_wf(*self),
        ensures
            opt_hi(res) == cyl_cap_hit(*self, rv(*ray), top),
            res matches Some(hr) ==> hit_wf(hi(hr)),
    {
        proof {
            lemma_vscale_bound(
                self.height as int,
                sv(self.orientation),
                COORD_MAX as int,
                2 * SCALE as int,
            );
            crate::math::lemma_vneg_norm2(sv(self.orientation));
        }
        let anchor = if top {
            self.center.add(&self.orientation.scale(self.height))
        } else {
            self.center
        };
        let nrm = if top {
            self.orientation
        } else {
            self.orientation.neg()
        };
        match plane_t_exec(&anchor, &nrm, ray) {
            None => None,
            Some(t) => {
                let p = ray.at(t);
                let pa = p.sub(&anchor);
                let d2 = pa.length_squared();
                proof {
                    lemma_mul_abs(
                        self.radius as int,
                        self.radius as int,
                        COORD_MAX as int,
                        COORD_MAX as int,
                    );
                    crate::fixed::lemma_tdiv_bound(
                        self.radius as int * self.radius as int,
                        SCALE as int,
                        COORD_MAX as int * COORD_MAX as int,
                    );
                }
                let rr = fx_mul(self.radius, self.radius);
                if d2 <= rr {
                    let mat = if top {
                        *self.top_material
                    } else {
                        *self.bottom_material
                    };
                    Some(HitRecord { t, point: p, normal: nrm, material: mat })
                } else {
                    None
                }
            },
        }
    }

    /// The side-surface test.
    fn side_hit(&self, ray: &Ray) -> (res: Option<HitRecord>)
        requires
            ray_wf(*ray),
            cyl_wf(*self),
            v3_bounded(cyl_m(*self, rv(*ray)), M_MAX as int),
        ensures
            opt_hi(res) == cyl_side_hit(*self, rv(*ray)),
            res matches Some(hr) ==> hit_wf(hi(hr)),
    {
        let v = self.orientation;
        let oc = ray.o.sub(&self.center);
        let k1 = ray.dir.dot(&v);
        proof {
            lemma_vdot_bound(rv(*ray).dir, sv(v), DIR_MAX as int, 2 * SCALE as int);
            lemma_vscale_bound(k1 as int, sv(v), 0x2000000000, 2 * SCALE as int);
        }
        let nvec = ray.dir.sub(&v.scale(k1));
        let k2 = oc.dot(&v);
        proof {
            lemma_vdot_bound(
                sv(oc),
                sv(v),
                ORIGIN_MAX as int + COORD_MAX as int,
                2 * SCALE as int,
            );
            lemma_vscale_bound(k2 as int, sv(v), 0x8000000000000, 2 * SCALE as int);
        }
        let m = oc.sub(&v.scale(k2));
        let a = nvec.length_squared();
        proof {
            lemma_vdot_bound(cyl_n(*self, rv(*ray)), cyl_n(*self, rv(*ray)), 0x8000000000, 0x8000000000);
        }
        if a <= EPS {
            return None;
        }
        let h = nvec.dot(&m);
        proof {
            lemma_vdot_bound(cyl_n(*self, rv(*ray)), cyl_m(*self, rv(*ray)), 0x8000000000, M_MAX as int);
            lemma_vdot_bound(cyl_m(*self, rv(*ray)), cyl_m(*self, rv(*ray)), M_MAX as int, M_MAX as int);
            lemma_mul_abs(
                self.radius as int,
                self.radius as int,
                COORD_MAX as int,
                COORD_MAX as int,
            );
            crate::fixed::lemma_tdiv_bound(
                self.radius as int * self.radius as int,
                SCALE as int,
                COORD_MAX as int * COORD_MAX as int,
            );
        }
        let cc = m.length_squared() - fx_mul(self.radius, self.radius);
        proof {
            lemma_mul_abs(h as int, h as int, 0xC00000000000000, 0xC00000000000000);
            lemma_mul_abs(a as int, cc as int, 0x1000000000000, 0x1000000000000000000);
            crate::fixed::lemma_tdiv_bound(
                h as int * h as int,
                SCALE as int,
                0xC00000000000000int * 0xC00000000000000int,
            );
            crate::fixed::lemma_tdiv_bound(
                a as int * cc as int,
                SCALE as int,
                0x1000000000000int * 0x1000000000000000000int,
            );
        }
        let d = fx_mul(h, h) - fx_mul(a, cc);
        if d < 0 {
            return None;
        }
        proof {
            lemma_mul_abs(d as int, SCALE as int, 0x20000000000000000000000, SCALE as int);
        }
        let sq = fx_sqrt(d);
        proof {
            lemma_mul_abs((-h - sq) as int, SCALE as int, 0x10000000000000000, SCALE as int);
            lemma_mul_abs((-h + sq) as int, SCALE as int, 0x10000000000000000, SCALE as int);
        }
        let t1 = fx_div(-h - sq, a);
        if EPS <= t1 && t1 <= T_MAX {
            if let Some(res) = self.side_hit_at(ray, t1) {
                return Some(res);
            }
            if self.side_in_window(ray, t1) {
                return None;
            }
        }
        let t2 = fx_div(-h + sq, a);
        if EPS <= t2 && t2 <= T_MAX {
            if let Some(res) = self.side_hit_at(ray, t2) {
                return Some(res);
            }
            if self.side_in_window(ray, t2) {
                return None;
            }
        }
        None
    }

    /// Whether the point at `t` projects into the cylinder's axial window.
    fn side_in_window(&self, ray: &Ray, t: Fx) -> (res: bool)
        requires
            ray_wf(*ray),
            cyl_wf(*self),
            valid_t(t as int),
        ensures
            res == (0 <= cyl_height_at(*self, rv(*ray), t as int) <= self.height),
    {
        let p = ray.at(t);
        let pc = p.sub(&self.center);
        let hp = pc.dot(&self.orientation);
        0 <= hp && hp <= self.height
    }

    /// The record at an already admissible side parameter: nothing when
    /// the axial window rejects it or the normal would be degenerate.
    fn side_hit_at(&self, ray: &Ray, t: Fx) -> (res: Option<HitRecord>)
        requires
            ray_wf(*ray),
            cyl_wf(*self),
            valid_t(t as int),
        ensures
            ({
                let p = ray_at(rv(*ray), t as int);
                let hp = cyl_height_at(*self, rv(*ray), t as int);
                let ax = vadd(sv(self.center), vscale(hp, sv(self.orientation)));
                let pa = vsub(p, ax);
                opt_hi(res) == if !(0 <= hp <= self.height) {
                    None::<HitInfo>
                } else if vnorm2(pa) < 1 {
                    None::<HitInfo>
                } else {
                    Some(
                        HitInfo {
                            t: t as int,
                            point: p,
                            normal: vunit(pa),
                            material: *self.body_material,
                        },
                    )
                }
            }),
            res matches Some(hr) ==> hit_wf(hi(hr)),
    {
        let p = ray.at(t);
        let pc = p.sub(&self.center);
        let hp = pc.dot(&self.orientation);
        proof {
            lemma_vdot_bound(
                vsub(ray_at(rv(*ray), t as int), sv(self.center)),
                sv(self.orientation),
                POINT_MAX as int + COORD_MAX as int,
                2 * SCALE as int,
            );
        }
        if !(0 <= hp && hp <= self.height) {
            return None;
        }
        proof {
            lemma_vscale_bound(hp as int, sv(self.orientation), 0x80000000000000, 2 * SCALE as int);
        }
        let ax = self.center.add(&self.orientation.scale(hp));
        let pa = p.sub(&ax);
        let n2 = pa.length_squared();
        if n2 < 1 {
            return None;
        }
        Some(
            HitRecord { t, point: p, normal: pa.unit(), material: *self.body_material },
        )
    }

    pub fn hit(&self, ray: &Ray) -> (res: Option<HitRecord>)
        requires
            ray_wf(*ray),
            cyl_wf(*self),
        ensures
            opt_hi(res) == cylinder_hit_s(*self, rv(*ray)),
            res matches Some(hr) ==> hit_wf(hi(hr)),
    {
        let v = self.orientation;
        let oc = ray.o.sub(&self.center);
        let k2 = oc.dot(&v);
        proof {
            lemma_vdot_bound(
                sv(oc),
                sv(v),
                ORIGIN_MAX as int + COORD_MAX as int,
                2 * SCALE as int,
            );
            lemma_vscale_bound(k2 as int, sv(v), 0x8000000000000, 2 * SCALE as int);
        }
        let m = oc.sub(&v.scale(k2));
        if !(-M_MAX <= m.x && m.x <= M_MAX && -M_MAX <= m.y && m.y <= M_MAX && -M_MAX <= m.z
            && m.z <= M_MAX) {
            return None;
        }
        let side = self.side_hit(ray);
        let bottom = self.cap_hit(ray, false);
        let top = self.cap_hit(ray, true);
        pick_better(pick_better(side, bottom), top)
    }
}

// ---------------------------------------------------------------------
// The closed set of primitives
// ---------------------------------------------------------------------

pub enum Object {
    Sphere(Sphere),
    Plane(Plane),
    Cylinder(Cylinder),
}

pub open spec fn object_wf(o: Object) -> bool {
    match o {
        Object::Sphere(s) => sphere_wf(s),
        Object::Plane(p) => plane_wf(p),
        Object::Cylinder(c) => cyl_wf(c),
    }
}

/// One primitive's intersection test.
pub open spec fn object_hit_s(o: Object, r: RayV) -> Option<HitInfo> {
    match o {
        Object::Sphere(s) => sphere_hit_s(s, r),
        Object::Plane(p) => plane_hit_s(p, r),
        Object::Cylinder(c) => cylinder_hit_s(c, r),
    }
}

impl Object {
    pub fn hit(&self, ray: &Ray) -> (res: Option<HitRecord>)
        requires
            ray_wf(*ray),
            object_wf(*self),
        ensures
            opt_hi(res) == object_hit_s(*self, rv(*ray)),
            res matches Some(hr) ==> hit_wf(hi(hr)),
    {
        match self {
            Object::Sphere(s) => s.hit(ray),
            Object::Plane(p) => p.hit(ray),
            Object::Cylinder(c) => c.hit(ray),
        }
    }
}

// ---------------------------------------------------------------------
// Intersection laws
// ---------------------------------------------------------------------

/// An exactly representable multiple of a divisor divides exactly.
proof fn lemma_tdiv_exact(m: int, d: int)
    requires
        d > 0,
    ensures
        tdiv(m * d, d) == m,
{
    if m >= 0 {
        vstd::arithmetic::div_mod::lemma_div_multiples_vanish(m, d);
        assert(m * d == d * m) by (nonlinear_arith);
    } else {
        vstd::arithmetic::div_mod::lemma_div_multiples_vanish(-m, d);
        assert(m * d < 0) by (nonlinear_arith)
            requires
                m < 0,
                d > 0,
        ;
        assert((m * d) * -1 == d * (-m)) by (nonlinear_arith);
    }
}

/// A ray through a sphere's exact center hits at the distance to the
/// surface, and the reported normal is the unit vector from the center to
/// the hit point. Stated for a viewing ray along the negative z axis with
/// exactly representable distances (multiples of one representation step
/// of the squared scale), where the fixed-point arithmetic is exact.
pub proof fn lemma_sphere_center_ray(s: Sphere, r: RayV, k: int, rad: int)
    requires
        r.dir == (V3 { x: 0, y: 0, z: -(SCALE as int) }),
        sv(s.center) == (V3 { x: r.o.x, y: r.o.y, z: r.o.z - k }),
        s.radius == rad,
        k % 65536 == 0,
        rad % 65536 == 0,
        65536 <= rad,
        EPS <= k - rad <= T_MAX,
    ensures
        sphere_t(s, r) == Some(k - rad),
        sphere_hit_s(s, r) matches Some(h) && h.t == k - rad && h.normal == (V3 {
            x: 0,
            y: 0,
            z: SCALE as int,
        }) && h.point == (V3 { x: r.o.x, y: r.o.y, z: r.o.z - (k - rad) }),
{
    let oc = sphere_oc(s, r);
    assert(oc == (V3 { x: 0, y: 0, z: -k }));
    let km = k / 65536;
    let rm = rad / 65536;
    assert(k == 65536 * km + k % 65536 && rad == 65536 * rm + rad % 65536) by {
        vstd::arithmetic::div_mod::lemma_fundamental_div_mod(k, 65536);
        vstd::arithmetic::div_mod::lemma_fundamental_div_mod(rad, 65536);
    }
    assert(k == 65536 * km && rad == 65536 * rm);
    // All the squares involved are exact multiples of the scale.
    assert(k * k == (km * km) * SCALE && rad * rad == (rm * rm) * SCALE && (-k) * (-k) == (km
        * km) * SCALE) by (nonlinear_arith)
        requires
            k == 65536 * km,
            rad == 65536 * rm,
            SCALE == 4294967296,
    ;
    assert((-(SCALE as int)) * (-(SCALE as int)) == SCALE * SCALE && (-(SCALE as int)) * (-k) == k
        * SCALE) by (nonlinear_arith);
    lemma_tdiv_exact(SCALE as int, SCALE as int);
    lemma_tdiv_exact(km * km, SCALE as int);
    lemma_tdiv_exact(rm * rm, SCALE as int);
    lemma_tdiv_exact(k, SCALE as int);
    assert(tdiv(0, SCALE as int) == 0);
    let a = vnorm2(r.dir);
    let h = vdot(r.dir, oc);
    assert(a == SCALE);
    assert(h == k);
    let cc = vnorm2(oc) - fmul(s.radius as int, s.radius as int);
    assert(vnorm2(oc) == km * km);
    assert(fmul(rad, rad) == rm * rm);
    // The discriminant collapses to the squared radius, rescaled.
    assert(fmul(h, h) == km * km);
    assert(fmul(a, cc) == km * km - rm * rm) by {
        assert(SCALE * (km * km - rm * rm) == (km * km - rm * rm) * SCALE) by (nonlinear_arith);
        lemma_tdiv_exact(km * km - rm * rm, SCALE as int);
    }
    let d = sphere_disc(s, r);
    assert(d == rm * rm);
    assert(d * SCALE == rad * rad) by (nonlinear_arith)
        requires
            d == rm * rm,
            rad == 65536 * rm,
            SCALE == 4294967296,
    ;
    assert(isqrt(d * SCALE) == rad) by {
        assert(rad * rad <= d * SCALE < (rad + 1) * (rad + 1)) by (nonlinear_arith)
            requires
                d * SCALE == rad * rad,
                rad >= 0,
        ;
        crate::fixed::lemma_isqrt_unique(d * SCALE, rad);
    }
    // Both roots are exact; the nearer one is the distance to the surface.
    assert(fdiv(h - rad, a) == k - rad) by {
        assert((k - rad) * SCALE == (k - rad) * SCALE);
        lemma_tdiv_exact(k - rad, SCALE as int);
    }
    assert(sphere_t(s, r) == Some(k - rad));
    // The hit point and its normal.
    let t = k - rad;
    let p = ray_at(r, t);
    assert(fmul(t, -(SCALE as int)) == -t) by {
        assert(t * (-(SCALE as int)) == (-t) * SCALE) by (nonlinear_arith);
        lemma_tdiv_exact(-t, SCALE as int);
    }
    assert(fmul(t, 0) == 0) by {
        assert(t * 0 == 0) by (nonlinear_arith);
    }
    assert(p == (V3 { x: r.o.x, y: r.o.y, z: r.o.z - t }));
    let pc = vsub(p, sv(s.center));
    assert(pc == (V3 { x: 0, y: 0, z: rad }));
    assert(vnorm2(pc) == rm * rm);
    assert(rm * rm >= 1) by (nonlinear_arith)
        requires
            rm >= 1,
    ;
    assert(vlen(pc) == rad) by {
        assert(vnorm2(pc) * SCALE == rad * rad) by (nonlinear_arith)
            requires
                vnorm2(pc) == rm * rm,
                rad == 65536 * rm,
                SCALE == 4294967296,
        ;
        assert(rad * rad <= vnorm2(pc) * SCALE < (rad + 1) * (rad + 1)) by (nonlinear_arith)
            requires
                vnorm2(pc) * SCALE == rad * rad,
                rad >= 0,
        ;
        crate::fixed::lemma_isqrt_unique(vnorm2(pc) * SCALE, rad);
    }
    assert(vunit(pc) == (V3 { x: 0, y: 0, z: SCALE as int })) by {
        assert(rad * SCALE == SCALE * rad) by (nonlinear_arith);
        lemma_tdiv_exact(SCALE as int, rad);
        assert(tdiv(0, rad) == 0);
    }
}

/// A ray tangent to a sphere (zero discriminant) has both roots equal: it
/// yields at most one hit, at the tangent parameter.
pub proof fn lemma_sphere_tangent(s: Sphere, r: RayV)
    requires
        sphere_disc(s, r) == 0,
    ensures
        sphere_t(s, r) is None || sphere_t(s, r) == Some(
            fdiv(vdot(r.dir, sphere_oc(s, r)), vnorm2(r.dir)),
        ),
{
    crate::fixed::lemma_isqrt_unique(0, 0);
    assert(0 * SCALE == 0) by (nonlinear_arith);
}

/// A ray parallel to a cylinder's axis never reports a side hit: with the
/// perpendicular direction component (numerically) gone, only the caps
/// can be hit.
pub proof fn lemma_cylinder_axis_parallel(c: Cylinder, r: RayV)
    requires
        vnorm2(cyl_n(c, r)) <= EPS,
    ensures
        cyl_side_hit(c, r) is None,
        cylinder_hit_s(c, r) == if v3_bounded(cyl_m(c, r), M_MAX as int) {
            better(cyl_cap_hit(c, r, false), cyl_cap_hit(c, r, true))
        } else {
            None
        },
{
}

/// A side hit always lies inside the cylinder's axial window, even where
/// the infinite-cylinder quadratic accepts parameters outside it.
pub proof fn lemma_cylinder_side_window(c: Cylinder, r: RayV)
    ensures
        cyl_side_t(c, r) matches Some(t) ==> valid_t(t) && 0 <= cyl_height_at(c, r, t)
            <= c.height,
        cyl_side_hit(c, r) matches Some(h) ==> valid_t(h.t) && 0 <= cyl_height_at(c, r, h.t)
            <= c.height,
{
}

/// Two primitives agree geometrically when they differ at most in their
/// materials.
pub open spec fn geom_eq(a: Object, b: Object) -> bool {
    match (a, b) {
        (Object::Sphere(x), Object::Sphere(y)) => x.center == y.center && x.radius == y.radius,
        (Object::Plane(x), Object::Plane(y)) => x.anchor == y.anchor && x.normal == y.normal,
        (Object::Cylinder(x), Object::Cylinder(y)) => x.center == y.center && x.radius == y.radius
            && x.height == y.height && x.orientation == y.orientation,
        _ => false,
    }
}

/// Two optional hits agree geometrically: both misses, or the same
/// parameter, point and normal (the materials may differ).
pub open spec fn hit_geom_eq(a: Option<HitInfo>, b: Option<HitInfo>) -> bool {
    match (a, b) {
        (None, None) => true,
        (Some(x), Some(y)) => x.t == y.t && x.point == y.point && x.normal == y.normal,
        _ => false,
    }
}

/// An intersection test depends only on the primitive's geometry: two
/// primitives that differ at most in their materials report geometrically
/// identical hits for every ray.
pub proof fn lemma_object_hit_geom(a: Object, b: Object, r: RayV)
    requires
        geom_eq(a, b),
    ensures
        hit_geom_eq(object_hit_s(a, r), object_hit_s(b, r)),
{
    match (a, b) {
        (Object::Sphere(x), Object::Sphere(y)) => {
            assert(sphere_t(x, r) == sphere_t(y, r));
        },
        (Object::Plane(x), Object::Plane(y)) => {
            assert(plane_t_s(sv(x.anchor), sv(x.normal), r) == plane_t_s(
                sv(y.anchor),
                sv(y.normal),
                r,
            ));
        },
        (Object::Cylinder(x), Object::Cylinder(y)) => {
            assert(cyl_side_t(x, r) == cyl_side_t(y, r));
            assert(hit_geom_eq(cyl_side_hit(x, r), cyl_side_hit(y, r)));
            assert(hit_geom_eq(cyl_cap_hit(x, r, false), cyl_cap_hit(y, r, false)));
            assert(hit_geom_eq(cyl_cap_hit(x, r, true), cyl_cap_hit(y, r, true)));
        },
        _ => {
        },
    }
}

/// `better` preserves geometric agreement of its inputs.
pub proof fn lemma_better_geom(a1: Option<HitInfo>, b1: Option<HitInfo>, a2: Option<HitInfo>, b2: Option<HitInfo>)
    requires
        hit_geom_eq(a1, a2),
        hit_geom_eq(b1, b2),
    ensures
        hit_geom_eq(better(a1, b1), better(a2, b2)),
{
}

} // verus!
