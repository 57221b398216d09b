//! Materials: how a ray continues after a hit.
//!
//! A material either scatters the incoming ray into a new ray with an
//! attenuation color, or absorbs it. The stochastic part of a scatter is a
//! unit-sphere sample; each material's behaviour given that sample is a
//! deterministic function stated exactly, so only the draw itself is left
//! unconstrained.

use vstd::prelude::*;
use crate::color::Color;
use crate::color::color_wf;
use crate::fixed::EPS;
use crate::fixed::Fx;
use crate::fixed::SCALE;
use crate::math::V3;
use crate::math::Vec3;
use crate::math::lemma_vdot_bound;
use crate::math::lemma_vscale_bound;
use crate::math::sv;
use crate::math::unit_sphere_sample;
use crate::math::v3_bounded;
use crate::math::vadd;
use crate::math::vdot;
use crate::math::vneg;
use crate::math::vnorm2;
use crate::math::vscale;
use crate::math::vsub;
use crate::math::vunit;
use crate::object::HitRecord;
use crate::object::HitInfo;
use crate::object::hi;
use crate::object::hit_wf;
use crate::ray::DIR_MAX;
use crate::ray::Ray;
use crate::ray::RayV;
use crate::ray::rv;
use crate::ray::ray_wf;
use crate::utils::Rng;

verus! {

/// How far a scattered ray's origin is pushed along the surface normal to
/// avoid immediate self-intersection (about 1.2e-4 in real terms).
pub const SCATTER_OFFSET: i128 = 524288;

/// Scattered rays whose origin would leave the supported world size are
/// absorbed instead; this keeps every recursive cast inside the ray
/// bounds.
pub const ORIGIN_GUARD: i128 = 70368744177664;

/// A diffuse material: scatters into the normal's hemisphere with its
/// fixed albedo.
#[derive(Clone, Copy)]
pub struct Solid {
    pub albedo: Color,
}

/// A fuzzy metal: reflects, then perturbs the reflection by `fuzz` times a
/// unit-sphere sample. `fuzz` of zero is a perfect mirror.
#[derive(Clone, Copy)]
pub struct BasicMetal {
    pub albedo: Color,
    pub fuzz: Fx,
}

/// The closed set of materials.
#[derive(Clone, Copy)]
pub enum Material {
    Solid(Solid),
    Metal(BasicMetal),
}

pub open spec fn material_wf(m: Material) -> bool {
    match m {
        Material::Solid(s) => color_wf(s.albedo),
        Material::Metal(b) => color_wf(b.albedo) && 0 <= b.fuzz <= SCALE,
    }
}

/// The reflection of `d` about the normal `n`: `d - 2 (d . n) n`.
pub open spec fn reflect_v(d: V3, n: V3) -> V3 {
    vsub(d, vscale(2 * vdot(d, n), n))
}

/// Where a scattered ray starts: the hit point pushed out along the
/// normal.
pub open spec fn scatter_origin(rec: HitInfo) -> V3 {
    vadd(rec.point, vscale(SCATTER_OFFSET as int, rec.normal))
}

/// A diffuse scatter, given the unit-sphere sample `u`: the direction is
/// the normal plus `u`, flipped into the normal's hemisphere, normalized;
/// degenerate cancellations (below one representation step) and
/// out-of-world origins are absorbed. The scattered direction is unit
/// length up to the normalization's lower tolerance; a near-cancelled
/// direction can normalize with a larger upward error, so no upper length
/// bound is promised.
pub open spec fn solid_scatter_s(rec: HitInfo, u: V3, alb: Color) -> Option<(RayV, Color)> {
    let d0 = vadd(rec.normal, u);
    let d1 = if vdot(d0, rec.normal) < 0 {
        vneg(d0)
    } else {
        d0
    };
    let o = scatter_origin(rec);
    if vnorm2(d1) < 1 {
        None
    } else if !v3_bounded(o, ORIGIN_GUARD as int) {
        None
    } else {
        Some((RayV { o, dir: vunit(d1) }, alb))
    }
}

/// A metal scatter, given the unit-sphere sample `u`: reflect, reject
/// grazing reflections, perturb by `fuzz` times `u` flipped into the
/// normal's hemisphere, reject degenerate cancellations (below one
/// representation step), normalize. As for the diffuse scatter, no upper
/// length bound is promised of the direction.
pub open spec fn metal_scatter_s(din: V3, rec: HitInfo, fuzz: int, u: V3, alb: Color) -> Option<
    (RayV, Color),
> {
    let refl = reflect_v(din, rec.normal);
    if vdot(refl, rec.normal) < EPS {
        None
    } else {
        let u1 = if vdot(u, rec.normal) < 0 {
            vneg(u)
        } else {
            u
        };
        let fz = vadd(refl, vscale(fuzz, u1));
        let o = scatter_origin(rec);
        if vnorm2(fz) < 1 {
            None
        } else if !v3_bounded(o, ORIGIN_GUARD as int) {
            None
        } else {
            Some((RayV { o, dir: vunit(fz) }, alb))
        }
    }
}

/// One material's scatter, given the unit-sphere sample.
pub open spec fn material_scatter_s(m: Material, din: V3, rec: HitInfo, u: V3) -> Option<
    (RayV, Color),
> {
    match m {
        Material::Solid(s) => solid_scatter_s(rec, u, s.albedo),
        Material::Metal(b) => metal_scatter_s(din, rec, b.fuzz as int, u, b.albedo),
    }
}

/// The model of an executable scatter result.
pub open spec fn opt_scatter(o: Option<(Ray, Color)>) -> Option<(RayV, Color)> {
    match o {
        Some(p) => Some((rv(p.0), p.1)),
        None => None,
    }
}

/// The world-bounds test on a scattered origin.
fn origin_in_guard(o: &Vec3) -> (r: bool)
    ensures
        r == v3_bounded(sv(*o), ORIGIN_GUARD as int),
{
    -ORIGIN_GUARD <= o.x && o.x <= ORIGIN_GUARD && -ORIGIN_GUARD <= o.y && o.y <= ORIGIN_GUARD
        && -ORIGIN_GUARD <= o.z && o.z <= ORIGIN_GUARD
}

impl Solid {
    pub fn albedo(&self) -> (c: Color)
        ensures
            c == self.albedo,
    {
        self.albedo
    }

    /// The deterministic part of a diffuse scatter, taking the unit-sphere
    /// sample as an argument.
    pub fn scatter_with(&self, rec: &HitRecord, u: &Vec3) -> (res: Option<(Ray, Color)>)
        requires
            hit_wf(hi(*rec)),
            v3_bounded(sv(*u), 2 * SCALE as int),
        ensures
            opt_scatter(res) == solid_scatter_s(hi(*rec), sv(*u), self.albedo),
            color_wf(self.albedo) ==> (res matches Some(p) ==> (ray_wf(p.0) && color_wf(p.1))),
    {
        let d0 = rec.normal.add(u);
        let k = d0.dot(&rec.normal);
        let d1 = if k < 0 {
            d0.neg()
        } else {
            d0
        };
        proof {
            lemma_vscale_bound(
                SCATTER_OFFSET as int,
                sv(rec.normal),
                SCATTER_OFFSET as int,
                2 * SCALE as int,
            );
        }
        let step = rec.normal.scale(SCATTER_OFFSET);
        let o = rec.point.add(&step);
        let n2 = d1.length_squared();
        if n2 < 1 {
            return None;
        }
        if !origin_in_guard(&o) {
            return None;
        }
        Some((Ray::new(o, d1.unit()), self.albedo))
    }

    /// A diffuse scatter: a fresh unit-sphere sample drives
    /// `scatter_with`.
    pub fn scatter(&self, _ray: &Ray, rec: &HitRecord, rng: &mut Rng) -> (res: Option<
        (Ray, Color),
    >)
        requires
            hit_wf(hi(*rec)),
        ensures
            exists|u: V3|
                unit_sphere_sample(u) && opt_scatter(res) == #[trigger] solid_scatter_s(
                    hi(*rec),
                    u,
                    self.albedo,
                ),
            color_wf(self.albedo) ==> (res matches Some(p) ==> (ray_wf(p.0) && color_wf(p.1))),
    {
        let u = Vec3::random_unit_sphere(rng);
        let res = self.scatter_with(rec, &u);
        proof {
            assert(unit_sphere_sample(sv(u)) && opt_scatter(res) == solid_scatter_s(
                hi(*rec),
                sv(u),
                self.albedo,
            ));
        }
        res
    }
}

impl BasicMetal {
    pub fn albedo(&self) -> (c: Color)
        ensures
            c == self.albedo,
    {
        self.albedo
    }

    /// The deterministic part of a metal scatter, taking the unit-sphere
    /// sample as an argument.
    pub fn scatter_with(&self, ray: &Ray, rec: &HitRecord, u: &Vec3) -> (res: Option<
        (Ray, Color),
    >)
        requires
            ray_wf(*ray),
            hit_wf(hi(*rec)),
            v3_bounded(sv(*u), 2 * SCALE as int),
            0 <= self.fuzz <= SCALE,
        ensures
            opt_scatter(res) == metal_scatter_s(
                rv(*ray).dir,
                hi(*rec),
                self.fuzz as int,
                sv(*u),
                self.albedo,
            ),
            color_wf(self.albedo) ==> (res matches Some(p) ==> (ray_wf(p.0) && color_wf(p.1))),
    {
        let k = ray.dir.dot(&rec.normal);
        proof {
            lemma_vdot_bound(rv(*ray).dir, hi(*rec).normal, DIR_MAX as int, 2 * SCALE as int);
            lemma_vscale_bound(
                2 * k as int,
                hi(*rec).normal,
                0x3000000000,
                2 * SCALE as int,
            );
        }
        let step = rec.normal.scale(2 * k);
        let refl = ray.dir.sub(&step);
        let ka = refl.dot(&rec.normal);
        if ka < EPS {
            return None;
        }
        let ku = u.dot(&rec.normal);
        let u1 = if ku < 0 {
            u.neg()
        } else {
            *u
        };
        proof {
            lemma_vscale_bound(self.fuzz as int, sv(u1), SCALE as int, 2 * SCALE as int);
            lemma_vscale_bound(
                SCATTER_OFFSET as int,
                hi(*rec).normal,
                SCATTER_OFFSET as int,
                2 * SCALE as int,
            );
        }
        let fz = refl.add(&u1.scale(self.fuzz));
        let off = rec.normal.scale(SCATTER_OFFSET);
        let o = rec.point.add(&off);
        let n2 = fz.length_squared();
        if n2 < 1 {
            return None;
        }
        if !origin_in_guard(&o) {
            return None;
        }
        Some((Ray::new(o, fz.unit()), self.albedo))
    }

    /// A metal scatter: a fresh unit-sphere sample drives `scatter_with`.
    pub fn scatter(&self, ray: &Ray, rec: &HitRecord, rng: &mut Rng) -> (res: Option<(Ray, Color)>)
        requires
            ray_wf(*ray),
            hit_wf(hi(*rec)),
            0 <= self.fuzz <= SCALE,
        ensures
            exists|u: V3|
                unit_sphere_sample(u) && opt_scatter(res) == #[trigger] metal_scatter_s(
                    rv(*ray).dir,
                    hi(*rec),
                    self.fuzz as int,
                    u,
                    self.albedo,
                ),
            color_wf(self.albedo) ==> (res matches Some(p) ==> (ray_wf(p.0) && color_wf(p.1))),
    {
        let u = Vec3::random_unit_sphere(rng);
        let res = self.scatter_with(ray, rec, &u);
        proof {
            assert(unit_sphere_sample(sv(u)) && opt_scatter(res) == metal_scatter_s(
                rv(*ray).dir,
                hi(*rec),
                self.fuzz as int,
                sv(u),
                self.albedo,
            ));
        }
        res
    }
}

impl Material {
    pub fn albedo(&self) -> (c: Color)
        ensures
            c == match *self {
                Material::Solid(s) => s.albedo,
                Material::Metal(b) => b.albedo,
            },
    {
        match *self {
            Material::Solid(s) => s.albedo,
            Material::Metal(b) => b.albedo,
        }
    }

    /// Scatter the incoming ray at a hit carrying this material.
    pub fn scatter(&self, ray: &Ray, rec: &HitRecord, rng: &mut Rng) -> (res: Option<(Ray, Color)>)
        requires
            ray_wf(*ray),
            hit_wf(hi(*rec)),
            material_wf(*self),
        ensures
            exists|u: V3|
                unit_sphere_sample(u) && opt_scatter(res) == #[trigger] material_scatter_s(
                    *self,
                    rv(*ray).dir,
                    hi(*rec),
                    u,
                ),
            res matches Some(p) ==> ray_wf(p.0) && color_wf(p.1),
    {
        match *self {
            Material::Solid(s) => {
                let res = s.scatter(ray, rec, rng);
                proof {
                    let u = choose|u: V3|
                        unit_sphere_sample(u) && opt_scatter(res) == #[trigger] solid_scatter_s(
                            hi(*rec),
                            u,
                            s.albedo,
                        );
                    assert(unit_sphere_sample(u) && opt_scatter(res) == material_scatter_s(
                        *self,
                        rv(*ray).dir,
                        hi(*rec),
                        u,
                    ));
                }
                res
            },
            Material::Metal(b) => {
                let res = b.scatter(ray, rec, rng);
                proof {
                    let u = choose|u: V3|
                        unit_sphere_sample(u) && opt_scatter(res) == #[trigger] metal_scatter_s(
                            rv(*ray).dir,
                            hi(*rec),
                            b.fuzz as int,
                            u,
                            b.albedo,
                        );
                    assert(unit_sphere_sample(u) && opt_scatter(res) == material_scatter_s(
                        *self,
                        rv(*ray).dir,
                        hi(*rec),
                        u,
                    ));
                }
                res
            },
        }
    }
}

/// Metal scatter with zero fuzz is exact specular reflection: whatever the
/// unit-sphere sample, the scattered direction is the normalized
/// reflection of the incoming direction, and the sample cannot change
/// whether the ray is absorbed.
pub proof fn lemma_metal_mirror(din: V3, rec: HitInfo, u: V3, alb: Color)
    ensures
        ({
            let refl = reflect_v(din, rec.normal);
            let o = scatter_origin(rec);
            metal_scatter_s(din, rec, 0, u, alb) == if vdot(refl, rec.normal) < EPS {
                None
            } else if vnorm2(refl) < 1 {
                None
            } else if !v3_bounded(o, ORIGIN_GUARD as int) {
                None
            } else {
                Some((RayV { o, dir: vunit(refl) }, alb))
            }
        }),
{
    let refl = reflect_v(din, rec.normal);
    let u1 = if vdot(u, rec.normal) < 0 {
        vneg(u)
    } else {
        u
    };
    assert(vscale(0, u1) == (V3 { x: 0, y: 0, z: 0 }));
    assert(vadd(refl, vscale(0, u1)) == refl);
}

} // verus!
