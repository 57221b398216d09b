//! The scene and the renderer: nearest-hit search, recursive color
//! resolution, and the per-pixel sampling loop.

use vstd::prelude::*;
use crate::camera::Camera;
use crate::camera::camera_ray;
use crate::camera::camera_wf;
use crate::color::Color;
use crate::color::color_channels;
use crate::color::color_in_unit;
use crate::color::pack_rgb;
use crate::fixed::Fx;
use crate::fixed::SCALE;
use crate::fixed::fmul;
use crate::fixed::iabs;
use crate::fixed::lemma_mul_abs;
use crate::fixed::lemma_tdiv_pos;
use crate::fixed::spec_clamp;
use crate::fixed::tdiv;
use crate::framebuffer::FrameBuffer;
use crate::framebuffer::fb_wf;
use crate::math::V3;
use crate::math::Vec3;
use crate::math::sv;
use crate::math::unit_sphere_sample;
use crate::math::vadd;
use crate::math::vdivi;
use crate::math::vhad;
use crate::math::vunit;
use crate::object::HitInfo;
use crate::object::HitRecord;
use crate::object::Object;
use crate::material::material_scatter_s;
use crate::material::opt_scatter;
use crate::object::better;
use crate::object::geom_eq;
use crate::object::hi;
use crate::object::hit_wf;
use crate::object::object_hit_s;
use crate::object::object_wf;
use crate::object::opt_hi;
use crate::ray::Ray;
use crate::ray::RayV;
use crate::ray::ray_wf;
use crate::ray::rv;
use crate::utils::Rng;

verus! {

/// The ambient sky term: the ratio is informational, the gradient itself
/// is computed from the ray direction.
pub struct AmbientLight {
    pub ratio: Fx,
    pub color: Color,
}

/// A scene: an ordered collection of primitives, a camera and an ambient
/// term.
pub struct Scene {
    pub camera: Camera,
    pub ambient: AmbientLight,
    pub objects: Vec<Object>,
}

pub open spec fn scene_wf(s: Scene) -> bool {
    &&& camera_wf(s.camera)
    &&& forall|i: int| 0 <= i < s.objects.len() ==> object_wf(#[trigger] s.objects[i])
}

/// The nearest hit over a prefix of the object list: later objects win
/// only by a strictly smaller parameter, so on exact ties the first one
/// found stays.
pub open spec fn cast_s(obs: Seq<Object>, r: RayV) -> Option<HitInfo>
    decreases obs.len(),
{
    if obs.len() == 0 {
        None
    } else {
        better(cast_s(obs.drop_last(), r), object_hit_s(obs.last(), r))
    }
}

/// The sky gradient: a vertical blend from white toward the tint color,
/// driven by the unit direction's height.
pub open spec fn sky_color(d: V3) -> V3 {
    let a = spec_clamp(tdiv(vunit(d).y + SCALE, 2), 0, SCALE as int);
    V3 { x: SCALE as int, y: SCALE - a, z: SCALE - a }
}

/// Black: the color of exhausted or absorbed rays.
pub open spec fn black() -> V3 {
    V3 { x: 0, y: 0, z: 0 }
}

/// How a color resolves a ray against a scene: the depth-bounded
/// recursion of the renderer, as a relation. Exhausted depth gives black;
/// a miss gives the sky gradient of the exact direction; a hit scatters
/// under some unit-sphere sample, giving black on absorption, or the
/// attenuation applied channel by channel to a color that resolves the
/// scattered ray one level deeper.
pub open spec fn color_resolves(obs: Seq<Object>, r: RayV, depth: int, res: V3) -> bool
    decreases depth,
{
    if depth <= 0 {
        res == black()
    } else {
        match cast_s(obs, r) {
            None => res == sky_color(r.dir),
            Some(h) => exists|u: V3, sub: V3|
                #![trigger unit_sphere_sample(u), color_in_unit(sub)]
                unit_sphere_sample(u) && color_in_unit(sub) && match material_scatter_s(
                    h.material,
                    r.dir,
                    h,
                    u,
                ) {
                    None => res == black(),
                    Some(p) => color_resolves(obs, p.0, depth - 1, sub) && res == vhad(
                        color_channels(p.1),
                        sub,
                    ),
                },
        }
    }
}

/// The component-wise sum of a sequence of colors.
pub open spec fn vsum(s: Seq<V3>) -> V3
    decreases s.len(),
{
    if s.len() == 0 {
        V3 { x: 0, y: 0, z: 0 }
    } else {
        vadd(vsum(s.drop_last()), s.last())
    }
}

/// One stochastic sample of pixel `(i, j)`: a jitter inside the
/// half-pixel square, and an in-unit color that resolves the jittered
/// primary ray at the camera's depth limit.
pub open spec fn sample_ok(s: Scene, c: V3, du: int, dv: int, i: int, j: int) -> bool {
    &&& iabs(du) <= SCALE / 2
    &&& iabs(dv) <= SCALE / 2
    &&& color_in_unit(c)
    &&& color_resolves(
        s.objects@,
        camera_ray(s.camera, i * SCALE + du, j * SCALE + dv),
        s.camera.max_depth as int,
        c,
    )
}

/// What a rendered pixel holds: the packed mean of `sampling_rate`
/// stochastic samples of that pixel.
pub open spec fn pixel_sampled(s: Scene, px: u32, i: int, j: int) -> bool {
    exists|cs: Seq<V3>, js: Seq<(int, int)>|
        #![trigger cs.len(), js.len()]
        {
            &&& cs.len() == s.camera.sampling_rate
            &&& js.len() == s.camera.sampling_rate
            &&& forall|k: int|
                0 <= k < cs.len() ==> sample_ok(s, #[trigger] cs[k], js[k].0, js[k].1, i, j)
            &&& px == pack_rgb(vdivi(vsum(cs), s.camera.sampling_rate as int))
        }
}

/// A product of two in-unit channels stays in the unit.
proof fn lemma_fmul_unit(a: int, b: int)
    requires
        0 <= a <= SCALE,
        0 <= b <= SCALE,
    ensures
        0 <= fmul(a, b) <= SCALE,
{
    lemma_mul_abs(a, b, SCALE as int, SCALE as int);
    lemma_tdiv_pos(a * b, SCALE as int);
    crate::fixed::lemma_tdiv_bound(a * b, SCALE as int, SCALE as int * SCALE as int);
    vstd::arithmetic::div_mod::lemma_div_multiples_vanish(SCALE as int, SCALE as int);
    assert(a * b >= 0) by (nonlinear_arith)
        requires
            a >= 0,
            b >= 0,
    ;
}

impl Scene {
    pub fn new(camera: Camera, ambient: AmbientLight) -> (r: Scene)
        ensures
            r.camera == camera,
            r.ambient == ambient,
            r.objects@ =~= Seq::<Object>::empty(),
    {
        Scene { camera, ambient, objects: Vec::new() }
    }

    pub fn add_object(&mut self, object: Object)
        ensures
            final(self).camera == old(self).camera,
            final(self).ambient == old(self).ambient,
            final(self).objects@ == old(self).objects@.push(object),
    {
        self.objects.push(object);
    }

    pub fn clear(&mut self)
        ensures
            final(self).camera == old(self).camera,
            final(self).ambient == old(self).ambient,
            final(self).objects@ =~= Seq::<Object>::empty(),
    {
        self.objects.clear();
    }

    /// Scan all geometry and keep the hit with the smallest parameter,
    /// under strict comparison: the first object found wins exact ties.
    pub fn cast(&self, ray: &Ray) -> (res: Option<HitRecord>)
        requires
            scene_wf(*self),
            ray_wf(*ray),
        ensures
            opt_hi(res) == cast_s(self.objects@, rv(*ray)),
            res matches Some(hr) ==> hit_wf(hi(hr)),
    {
        let mut closest: Option<HitRecord> = None;
        let n = self.objects.len();
        let mut i: usize = 0;
        proof {
            assert(self.objects@.take(0) =~= Seq::<Object>::empty());
        }
        while i < n
            invariant
                scene_wf(*self),
                ray_wf(*ray),
                i <= n,
                n == self.objects.len(),
                opt_hi(closest) == cast_s(self.objects@.take(i as int), rv(*ray)),
                closest matches Some(hr) ==> hit_wf(hi(hr)),
            decreases n - i,
        {
            let hit = self.objects[i].hit(ray);
            let next = match (&closest, &hit) {
                (None, _) => hit,
                (Some(_), None) => closest,
                (Some(x), Some(y)) => if y.t < x.t {
                    hit
                } else {
                    closest
                },
            };
            proof {
                assert(self.objects@.take(i as int + 1).drop_last() =~= self.objects@.take(i as int));
                assert(self.objects@.take(i as int + 1).last() == self.objects@[i as int]);
                assert(opt_hi(next) == better(
                    cast_s(self.objects@.take(i as int), rv(*ray)),
                    object_hit_s(self.objects@[i as int], rv(*ray)),
                ));
            }
            closest = next;
            i = i + 1;
        }
        proof {
            assert(self.objects@.take(n as int) =~= self.objects@);
        }
        closest
    }

    /// Depth-bounded recursive color resolution: depth exhaustion and
    /// absorption give black, a miss gives the sky gradient for the exact
    /// ray direction, and a scatter recurses with the attenuation applied
    /// channel by channel. The whole recursion is pinned by the
    /// `color_resolves` relation in the contract.
    pub fn ray_color(&self, ray: &Ray, depth: u32, rng: &mut Rng) -> (res: Vec3)
        requires
            scene_wf(*self),
            ray_wf(*ray),
        ensures
            color_in_unit(sv(res)),
            depth == 0 ==> sv(res) == black(),
            depth > 0 && cast_s(self.objects@, rv(*ray)) is None ==> sv(res) == sky_color(
                rv(*ray).dir,
            ),
            color_resolves(self.objects@, rv(*ray), depth as int, sv(res)),
        decreases depth,
    {
        if depth == 0 {
            return Vec3::zero();
        }
        match self.cast(ray) {
            None => {
                let ud = ray.dir.unit();
                proof {
                    crate::fixed::lemma_tdiv_le_any((sv(ud).y + SCALE) as int, 2);
                }
                let a = crate::fixed::fx_clamp((ud.y + SCALE).checked_div(2).unwrap(), 0, SCALE);
                Vec3 { x: SCALE, y: SCALE - a, z: SCALE - a }
            },
            Some(hit) => {
                let m = hit.material;
                let sres = m.scatter(ray, &hit, rng);
                let ghost uw = choose|u: V3|
                    unit_sphere_sample(u) && opt_scatter(sres) == #[trigger] material_scatter_s(
                        m,
                        rv(*ray).dir,
                        hi(hit),
                        u,
                    );
                match sres {
                    None => {
                        let r = Vec3::zero();
                        proof {
                            assert(unit_sphere_sample(uw) && color_in_unit(black())
                                && material_scatter_s(m, rv(*ray).dir, hi(hit), uw) is None
                                && sv(r) == black());
                        }
                        r
                    },
                    Some((scattered, attenuation)) => {
                        let rec = self.ray_color(&scattered, depth - 1, rng);
                        let av = match attenuation {
                            Color::Rgb(v) => v,
                            Color::Argb(_, v) => v,
                        };
                        proof {
                            lemma_fmul_unit(sv(av).x, sv(rec).x);
                            lemma_fmul_unit(sv(av).y, sv(rec).y);
                            lemma_fmul_unit(sv(av).z, sv(rec).z);
                        }
                        let r = av.hadamard(&rec);
                        proof {
                            let p = material_scatter_s(m, rv(*ray).dir, hi(hit), uw)->Some_0;
                            assert(p.0 == rv(scattered) && p.1 == attenuation);
                            assert(unit_sphere_sample(uw) && color_in_unit(sv(rec))
                                && color_resolves(self.objects@, p.0, depth as int - 1, sv(rec))
                                && sv(r) == vhad(color_channels(p.1), sv(rec)));
                        }
                        r
                    },
                }
            },
        }
    }

    /// Render one frame: for every pixel, average `sampling_rate` jittered
    /// stochastic samples and pack the mean into the buffer. Every pixel
    /// of the result is the packed mean of such samples, each an in-unit
    /// color resolving its jittered primary ray.
    pub fn render_frame(&self, rng: &mut Rng) -> (buf: FrameBuffer)
        requires
            scene_wf(*self),
        ensures
            fb_wf(buf),
            buf.width == self.camera.image_width,
            buf.height == self.camera.image_height,
            forall|a: int, b: int|
                0 <= a < buf.width && 0 <= b < buf.height ==> #[trigger] pixel_sampled(
                    *self,
                    buf.buf[b * buf.width + a],
                    a,
                    b,
                ),
            exists|w: Seq<V3>| #![trigger w.len()]
                w.len() == buf.buf.len() && forall|k: int|
                    0 <= k < w.len() ==> color_in_unit(#[trigger] w[k]) && buf.buf[k] == pack_rgb(
                        w[k],
                    ),
    {
        let w = self.camera.image_width;
        let h = self.camera.image_height;
        let sr = self.camera.sampling_rate;
        proof {
            assert(w as int * h as int <= 0x80000000) by (nonlinear_arith)
                requires
                    0 <= w <= 16384,
                    0 <= h <= 131072,
            ;
        }
        let mut buffer = FrameBuffer::new(w, h);
        let ghost mut cs: Seq<V3> = Seq::new(buffer.buf.len() as nat, |k: int| black());
        let mut j: usize = 0;
        while j < h
            invariant
                scene_wf(*self),
                w == self.camera.image_width,
                h == self.camera.image_height,
                sr == self.camera.sampling_rate,
                fb_wf(buffer),
                buffer.width == w,
                buffer.height == h,
                j <= h,
                cs.len() == buffer.buf.len(),
                forall|k: int| #![trigger cs[k]]
                    0 <= k < cs.len() ==> color_in_unit(cs[k]) && buffer.buf[k] == pack_rgb(cs[k]),
                forall|a: int, b: int|
                    0 <= a < w && 0 <= b < j ==> #[trigger] pixel_sampled(
                        *self,
                        buffer.buf[b * w + a],
                        a,
                        b,
                    ),
            decreases h - j,
        {
            let mut i: usize = 0;
            while i < w
                invariant
                    scene_wf(*self),
                    w == self.camera.image_width,
                    h == self.camera.image_height,
                    sr == self.camera.sampling_rate,
                    fb_wf(buffer),
                    buffer.width == w,
                    buffer.height == h,
                    i <= w,
                    j < h,
                    cs.len() == buffer.buf.len(),
                    forall|k: int| #![trigger cs[k]]
                        0 <= k < cs.len() ==> color_in_unit(cs[k]) && buffer.buf[k] == pack_rgb(
                            cs[k],
                        ),
                    forall|a: int, b: int|
                        0 <= a < w && 0 <= b < j ==> #[trigger] pixel_sampled(
                            *self,
                            buffer.buf[b * w + a],
                            a,
                            b,
                        ),
                    forall|a: int|
                        0 <= a < i ==> #[trigger] pixel_sampled(
                            *self,
                            buffer.buf[j * w + a],
                            a,
                            j as int,
                        ),
                decreases w - i,
            {
                let mut acc = Vec3::zero();
                let mut s: usize = 0;
                let ghost mut gsam: Seq<V3> = Seq::empty();
                let ghost mut gjit: Seq<(int, int)> = Seq::empty();
                while s < sr
                    invariant
                        scene_wf(*self),
                        w == self.camera.image_width,
                        h == self.camera.image_height,
                        sr == self.camera.sampling_rate,
                        i < w,
                        j < h,
                        s <= sr,
                        0 <= sv(acc).x <= s * SCALE,
                        0 <= sv(acc).y <= s * SCALE,
                        0 <= sv(acc).z <= s * SCALE,
                        gsam.len() == s,
                        gjit.len() == s,
                        sv(acc) == vsum(gsam),
                        forall|k: int|
                            0 <= k < gsam.len() ==> sample_ok(
                                *self,
                                #[trigger] gsam[k],
                                gjit[k].0,
                                gjit[k].1,
                                i as int,
                                j as int,
                            ),
                    decreases sr - s,
                {
                    let du = rng.next_in(-(SCALE / 2), SCALE / 2 + 1);
                    let dv = rng.next_in(-(SCALE / 2), SCALE / 2 + 1);
                    let ray = self.camera.get_ray(i, j, du, dv);
                    let c = self.ray_color(&ray, self.camera.max_depth, rng);
                    acc = acc.add(&c);
                    proof {
                        let prev = gsam;
                        gsam = gsam.push(sv(c));
                        gjit = gjit.push((du as int, dv as int));
                        assert(gsam.drop_last() =~= prev);
                        assert(gsam.last() == sv(c));
                        assert(sample_ok(*self, sv(c), du as int, dv as int, i as int, j as int));
                    }
                    s = s + 1;
                }
                proof {
                    vstd::arithmetic::div_mod::lemma_div_multiples_vanish(SCALE as int, sr as int);
                    lemma_tdiv_pos(sv(acc).x, sr as int);
                    lemma_tdiv_pos(sv(acc).y, sr as int);
                    lemma_tdiv_pos(sv(acc).z, sr as int);
                    vstd::arithmetic::div_mod::lemma_div_is_ordered(
                        sv(acc).x,
                        sr as int * SCALE as int,
                        sr as int,
                    );
                    vstd::arithmetic::div_mod::lemma_div_is_ordered(
                        sv(acc).y,
                        sr as int * SCALE as int,
                        sr as int,
                    );
                    vstd::arithmetic::div_mod::lemma_div_is_ordered(
                        sv(acc).z,
                        sr as int * SCALE as int,
                        sr as int,
                    );
                    assert(sr as int * SCALE as int == SCALE as int * sr as int)
                        by (nonlinear_arith);
                }
                let avg = acc.div_int(sr as i128);
                let px = Color::Rgb(avg).to_rgb_bytes();
                proof {
                    crate::framebuffer::lemma_fb_index_in_range(
                        w as int,
                        h as int,
                        i as int,
                        j as int,
                    );
                }
                let ghost prev_buf = buffer.buf@;
                buffer.set_pixel(i, j, px);
                proof {
                    assert(color_in_unit(sv(avg)) && px == pack_rgb(sv(avg)));
                    assert(sv(avg) == vdivi(vsum(gsam), sr as int));
                    assert(pixel_sampled(*self, px, i as int, j as int));
                    cs = cs.update(j as int * w as int + i as int, sv(avg));
                    // Every already-rendered pixel keeps its value and so
                    // its witness.
                    assert forall|a: int, b: int| 0 <= a < w && 0 <= b < j as int
                        implies #[trigger] pixel_sampled(*self, buffer.buf[b * w + a], a, b) by {
                        crate::framebuffer::lemma_fb_index_distinct(
                            w as int,
                            a,
                            b,
                            i as int,
                            j as int,
                        );
                        crate::framebuffer::lemma_fb_index_in_range(w as int, h as int, a, b);
                        assert(buffer.buf[b * w + a] == prev_buf[b * w + a]);
                    }
                    assert forall|a: int| 0 <= a < i as int + 1 implies #[trigger] pixel_sampled(
                        *self,
                        buffer.buf[j as int * w + a],
                        a,
                        j as int,
                    ) by {
                        if a < i as int {
                            crate::framebuffer::lemma_fb_index_distinct(
                                w as int,
                                a,
                                j as int,
                                i as int,
                                j as int,
                            );
                            crate::framebuffer::lemma_fb_index_in_range(
                                w as int,
                                h as int,
                                a,
                                j as int,
                            );
                            assert(buffer.buf[j as int * w + a] == prev_buf[j as int * w + a]);
                        } else {
                            assert(buffer.buf[j as int * w + a] == px);
                        }
                    }
                }
                i = i + 1;
            }
            j = j + 1;
        }
        proof {
            assert(cs.len() == buffer.buf.len() && forall|k: int|
                0 <= k < cs.len() ==> color_in_unit(#[trigger] cs[k]) && buffer.buf[k] == pack_rgb(
                    cs[k],
                ));
        }
        buffer
    }
}

/// Which primitive is selected as the nearest hit is a deterministic
/// function of the scene's geometry and the ray alone: two scenes whose
/// objects differ at most in their materials select geometrically
/// identical nearest hits, whatever the state of any random generator
/// (none enters the search at all).
pub proof fn lemma_cast_geometry_only(a: Seq<Object>, b: Seq<Object>, r: RayV)
    requires
        a.len() == b.len(),
        forall|i: int| 0 <= i < a.len() ==> geom_eq(#[trigger] a[i], #[trigger] b[i]),
    ensures
        crate::object::hit_geom_eq(cast_s(a, r), cast_s(b, r)),
    decreases a.len(),
{
    if a.len() > 0 {
        lemma_cast_geometry_only(a.drop_last(), b.drop_last(), r);
        crate::object::lemma_object_hit_geom(a.last(), b.last(), r);
        crate::object::lemma_better_geom(
            cast_s(a.drop_last(), r),
            object_hit_s(a.last(), r),
            cast_s(b.drop_last(), r),
            object_hit_s(b.last(), r),
        );
    }
}

/// The nearest-hit search really is nearest: whenever some object in the
/// scene reports a hit, the search reports one, at a parameter no larger
/// than that object's.
pub proof fn lemma_cast_is_nearest(obs: Seq<Object>, r: RayV, i: int)
    requires
        0 <= i < obs.len(),
    ensures
        object_hit_s(obs[i], r) matches Some(h) ==> (cast_s(obs, r) matches Some(b) && b.t
            <= h.t),
    decreases obs.len(),
{
    if i < obs.len() - 1 {
        lemma_cast_is_nearest(obs.drop_last(), r, i);
        assert(obs.drop_last()[i] == obs[i]);
    }
}

/// Every reported nearest hit is one of the scene's own: the search never
/// invents a record.
pub proof fn lemma_cast_membership(obs: Seq<Object>, r: RayV)
    ensures
        cast_s(obs, r) matches Some(b) ==> exists|i: int|
            0 <= i < obs.len() && #[trigger] object_hit_s(obs[i], r) == Some(b),
    decreases obs.len(),
{
    if obs.len() > 0 {
        lemma_cast_membership(obs.drop_last(), r);
        if cast_s(obs, r) is Some {
            let b = cast_s(obs, r)->Some_0;
            if object_hit_s(obs.last(), r) == Some(b) && cast_s(obs, r) == object_hit_s(
                obs.last(),
                r,
            ) {
                assert(object_hit_s(obs[obs.len() - 1], r) == Some(b));
            } else {
                assert(cast_s(obs.drop_last(), r) == Some(b));
                let i = choose|i: int|
                    0 <= i < obs.drop_last().len() && #[trigger] object_hit_s(
                        obs.drop_last()[i],
                        r,
                    ) == Some(b);
                assert(obs.drop_last()[i] == obs[i]);
                assert(object_hit_s(obs[i], r) == Some(b));
            }
        }
    }
}

} // verus!
