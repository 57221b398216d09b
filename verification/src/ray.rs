//! Rays: an origin and a direction, with parametrized evaluation.

use vstd::prelude::*;
use crate::fixed::Fx;
use crate::fixed::SCALE;
use crate::fixed::T_MAX;
use crate::fixed::iabs;
use crate::fixed::lemma_mul_abs;
use crate::fixed::lemma_tdiv_bound;
use crate::math::Point3;
use crate::math::V3;
use crate::math::Vec3;
use crate::math::sv;
use crate::math::v3_bounded;
use crate::math::vadd;
use crate::math::vscale;

verus! {

/// Cap on the magnitude of a ray direction's components: a normalized
/// direction stays well inside it.
pub const DIR_MAX: i128 = 17179869184;

/// Cap on the magnitude of a ray origin's components (about 2^15 world
/// units).
pub const ORIGIN_MAX: i128 = 140737488355328;

/// The mathematical model of a ray.
pub ghost struct RayV {
    pub o: V3,
    pub dir: V3,
}

pub struct Ray {
    pub o: Point3,
    pub dir: Vec3,
}

/// A ray's model.
pub open spec fn rv(r: Ray) -> RayV {
    RayV { o: sv(r.o), dir: sv(r.dir) }
}

/// A ray is admissible when its origin and direction are inside the world
/// bounds and its direction is at least about half a unit long, which is
/// what the intersection arithmetic needs to stay inside `i128`.
pub open spec fn rayv_wf(r: RayV) -> bool {
    &&& v3_bounded(r.o, ORIGIN_MAX as int)
    &&& v3_bounded(r.dir, DIR_MAX as int)
    &&& crate::math::vnorm2(r.dir) >= SCALE / 4
}

pub open spec fn ray_wf(r: Ray) -> bool {
    rayv_wf(rv(r))
}

/// The point reached after travelling `t` along the ray.
pub open spec fn ray_at(r: RayV, t: int) -> V3 {
    vadd(r.o, vscale(t, r.dir))
}

impl Ray {
    pub fn new(origin: Point3, direction: Vec3) -> (r: Ray)
        ensures
            r.o == origin,
            r.dir == direction,
    {
        Ray { o: origin, dir: direction }
    }

    pub fn at(&self, t: Fx) -> (r: Point3)
        requires
            v3_bounded(sv(self.o), ORIGIN_MAX as int),
            v3_bounded(sv(self.dir), DIR_MAX as int),
            iabs(t as int) <= T_MAX as int,
        ensures
            sv(r) == ray_at(rv(*self), t as int),
            v3_bounded(sv(r), ORIGIN_MAX as int + 0x10000000000000),
    {
        proof {
            lemma_mul_abs(t as int, self.dir.x as int, T_MAX as int, DIR_MAX as int);
            lemma_mul_abs(t as int, self.dir.y as int, T_MAX as int, DIR_MAX as int);
            lemma_mul_abs(t as int, self.dir.z as int, T_MAX as int, DIR_MAX as int);
            lemma_tdiv_bound(t * self.dir.x, SCALE as int, T_MAX as int * DIR_MAX as int);
            lemma_tdiv_bound(t * self.dir.y, SCALE as int, T_MAX as int * DIR_MAX as int);
            lemma_tdiv_bound(t * self.dir.z, SCALE as int, T_MAX as int * DIR_MAX as int);
            assert((T_MAX as int * DIR_MAX as int) / (SCALE as int) == 0x10000000000000);
        }
        let step = self.dir.scale(t);
        self.o.add(&step)
    }
}

} // verus!
