use std::sync::Arc;
use raytracer::color::Color;
use raytracer::fixed::{EPS, SCALE};
use raytracer::material::{BasicMetal, Material, Solid};
use raytracer::math::Vec3;
use raytracer::object::{Cylinder, HitRecord, Object, Plane, Sphere};
use raytracer::ray::Ray;

const S: i128 = SCALE;

fn grey() -> Arc<Material> {
    Arc::new(Material::Solid(Solid { albedo: Color::rgb(S / 2, S / 2, S / 2) }))
}

#[test]
fn sphere_center_ray_hits_at_distance_to_surface() {
    // A ray through the exact center: t is the distance to the surface
    // and the normal is the unit vector from the center to the point.
    let sp = Sphere { center: Vec3::new(0, 0, -2 * S), radius: S / 2, material: grey() };
    let ray = Ray::new(Vec3::new(0, 0, 0), Vec3::new(0, 0, -S));
    let hit = sp.hit(&ray).expect("the ray points at the center");
    assert_eq!(hit.t, 2 * S - S / 2);
    assert_eq!((hit.point.x, hit.point.y, hit.point.z), (0, 0, -(2 * S - S / 2)));
    assert_eq!((hit.normal.x, hit.normal.y, hit.normal.z), (0, 0, S));
    assert_eq!(hit.normal.length_squared(), S);
}

#[test]
fn sphere_from_inside_takes_the_far_root() {
    let sp = Sphere { center: Vec3::new(0, 0, 0), radius: 2 * S, material: grey() };
    let ray = Ray::new(Vec3::new(0, 0, 0), Vec3::new(0, 0, -S));
    let hit = sp.hit(&ray).expect("the near root is behind the origin");
    assert_eq!(hit.t, 2 * S);
    assert_eq!((hit.normal.x, hit.normal.y, hit.normal.z), (0, 0, -S));
}

#[test]
fn sphere_tangent_ray_hits_once_at_the_tangent_point() {
    // Distance from the ray line to the center equals the radius: the
    // discriminant is exactly zero and both roots coincide.
    let sp = Sphere { center: Vec3::new(0, 0, -2 * S), radius: S, material: grey() };
    let ray = Ray::new(Vec3::new(0, S, 0), Vec3::new(0, 0, -S));
    let hit = sp.hit(&ray).expect("tangent ray touches the sphere");
    assert_eq!(hit.t, 2 * S);
    assert_eq!((hit.point.x, hit.point.y, hit.point.z), (0, S, -2 * S));
    assert_eq!((hit.normal.x, hit.normal.y, hit.normal.z), (0, S, 0));
}

#[test]
fn sphere_miss_reports_nothing() {
    let sp = Sphere { center: Vec3::new(0, 0, -2 * S), radius: S / 2, material: grey() };
    let away = Ray::new(Vec3::new(0, 0, 0), Vec3::new(0, 0, S));
    assert!(sp.hit(&away).is_none());
    let wide = Ray::new(Vec3::new(0, 2 * S, 0), Vec3::new(0, 0, -S));
    assert!(sp.hit(&wide).is_none());
}

#[test]
fn plane_hit_keeps_its_fixed_normal() {
    let pl = Plane { anchor: Vec3::new(0, 0, -2 * S), normal: Vec3::new(0, 0, S), material: grey() };
    let ray = Ray::new(Vec3::new(0, 0, 0), Vec3::new(0, 0, -S));
    let hit = pl.hit(&ray).expect("the ray crosses the plane");
    assert_eq!(hit.t, 2 * S);
    assert_eq!((hit.point.x, hit.point.y, hit.point.z), (0, 0, -2 * S));
    // The normal is the plane's own orientation, not flipped toward the
    // ray.
    assert_eq!((hit.normal.x, hit.normal.y, hit.normal.z), (0, 0, S));
}

#[test]
fn plane_parallel_ray_misses() {
    let pl = Plane { anchor: Vec3::new(0, 0, -2 * S), normal: Vec3::new(0, 0, S), material: grey() };
    let ray = Ray::new(Vec3::new(0, 0, 0), Vec3::new(S, 0, 0));
    assert!(pl.hit(&ray).is_none());
}

#[test]
fn plane_behind_the_origin_misses() {
    let pl = Plane { anchor: Vec3::new(0, 0, 2 * S), normal: Vec3::new(0, 0, S), material: grey() };
    let ray = Ray::new(Vec3::new(0, 0, 0), Vec3::new(0, 0, -S));
    assert!(pl.hit(&ray).is_none());
}

fn test_cylinder() -> Cylinder {
    Cylinder {
        center: Vec3::new(0, 0, -2 * S),
        radius: S / 2,
        height: S,
        orientation: Vec3::new(0, S, 0),
        body_material: Arc::new(Material::Solid(Solid {
            albedo: Color::rgb(S, 0, 0),
        })),
        top_material: Arc::new(Material::Solid(Solid { albedo: Color::rgb(0, S, 0) })),
        bottom_material: Arc::new(Material::Solid(Solid {
            albedo: Color::rgb(0, 0, S),
        })),
    }
}

#[test]
fn cylinder_side_hit_with_radial_normal() {
    let cy = test_cylinder();
    let ray = Ray::new(Vec3::new(-2 * S, S / 2, -2 * S), Vec3::new(S, 0, 0));
    let hit = cy.hit(&ray).expect("the ray crosses the side");
    assert_eq!(hit.t, 2 * S - S / 2);
    assert_eq!(
        (hit.point.x, hit.point.y, hit.point.z),
        (-(S / 2), S / 2, -2 * S)
    );
    assert_eq!((hit.normal.x, hit.normal.y, hit.normal.z), (-S, 0, 0));
    // A side hit carries the body material.
    match hit.material {
        Material::Solid(s) => assert_eq!(s.albedo.to_rgb_bytes(), 0xFF0000),
        _ => panic!("unexpected material"),
    }
}

#[test]
fn cylinder_axis_parallel_ray_hits_only_a_cap() {
    // Parallel to the axis: no side hit can be reported; the nearer cap
    // (the top) answers instead.
    let cy = test_cylinder();
    let ray = Ray::new(Vec3::new(0, 2 * S, -2 * S), Vec3::new(0, -S, 0));
    let hit = cy.hit(&ray).expect("the ray falls onto the top cap");
    assert_eq!(hit.t, S);
    assert_eq!((hit.point.x, hit.point.y, hit.point.z), (0, S, -2 * S));
    assert_eq!((hit.normal.x, hit.normal.y, hit.normal.z), (0, S, 0));
    match hit.material {
        Material::Solid(s) => assert_eq!(s.albedo.to_rgb_bytes(), 0x00FF00),
        _ => panic!("unexpected material"),
    }
}

#[test]
fn cylinder_rejects_side_hits_outside_the_axial_window() {
    // The infinite-cylinder quadratic accepts this ray, but both its
    // roots project above the cylinder's height, and it misses the caps.
    let cy = test_cylinder();
    let ray = Ray::new(Vec3::new(-2 * S, 3 * S, -2 * S), Vec3::new(S, 0, 0));
    assert!(cy.hit(&ray).is_none());
}

#[test]
fn cylinder_bottom_cap_faces_against_the_axis() {
    let cy = test_cylinder();
    let ray = Ray::new(Vec3::new(0, -2 * S, -2 * S), Vec3::new(0, S, 0));
    let hit = cy.hit(&ray).expect("the ray rises into the bottom cap");
    assert_eq!(hit.t, 2 * S);
    assert_eq!((hit.normal.x, hit.normal.y, hit.normal.z), (0, -S, 0));
    match hit.material {
        Material::Solid(s) => assert_eq!(s.albedo.to_rgb_bytes(), 0x0000FF),
        _ => panic!("unexpected material"),
    }
}

#[test]
fn object_dispatch_matches_the_primitive() {
    let sp = Sphere { center: Vec3::new(0, 0, -2 * S), radius: S / 2, material: grey() };
    let direct = sp.hit(&Ray::new(Vec3::new(0, 0, 0), Vec3::new(0, 0, -S)));
    let obj = Object::Sphere(Sphere {
        center: Vec3::new(0, 0, -2 * S),
        radius: S / 2,
        material: grey(),
    });
    let via_enum = obj.hit(&Ray::new(Vec3::new(0, 0, 0), Vec3::new(0, 0, -S)));
    let a = direct.expect("hit");
    let b = via_enum.expect("hit");
    assert_eq!(a.t, b.t);
    assert_eq!((a.normal.x, a.normal.y, a.normal.z), (b.normal.x, b.normal.y, b.normal.z));
}

#[test]
fn metal_with_zero_fuzz_reflects_exactly() {
    let metal = BasicMetal { albedo: Color::rgb(S, S, S), fuzz: 0 };
    let rec = HitRecord {
        t: S,
        point: Vec3::new(0, 0, -S),
        normal: Vec3::new(0, 0, S),
        material: Material::Metal(metal),
    };
    let ray = Ray::new(Vec3::new(0, S, -2 * S), Vec3::new(0, -S, -S));
    // Whatever the sample, zero fuzz reproduces the specular reflection.
    for seed in [1u64, 2, 3] {
        let mut rng = raytracer::utils::Rng::new(seed);
        let u = Vec3::random_unit_sphere(&mut rng);
        let (scattered, att) = metal
            .scatter_with(&ray, &rec, &u)
            .expect("reflection leaves the surface");
        // reflect((0,-1,-1), (0,0,1)) = (0,-1,1), normalized.
        let l = raytracer::fixed::fx_sqrt(2 * S);
        let e = S * S / l;
        assert_eq!((scattered.dir.x, scattered.dir.y, scattered.dir.z), (0, -e, e));
        // The origin is pushed off the surface along the normal.
        assert_eq!(
            (scattered.o.x, scattered.o.y, scattered.o.z),
            (0, 0, -S + 524288)
        );
        assert_eq!(att.to_rgb_bytes(), 0xFFFFFF);
    }
}

#[test]
fn metal_rejects_grazing_reflections() {
    let metal = BasicMetal { albedo: Color::rgb(S, S, S), fuzz: 0 };
    let rec = HitRecord {
        t: S,
        point: Vec3::new(0, 0, -S),
        normal: Vec3::new(0, 0, S),
        material: Material::Metal(metal),
    };
    // The incoming direction lies in the surface: the reflection grazes.
    let ray = Ray::new(Vec3::new(-S, 0, -S), Vec3::new(S, 0, 0));
    let mut rng = raytracer::utils::Rng::new(5);
    assert!(metal.scatter(&ray, &rec, &mut rng).is_none());
}

#[test]
fn solid_scatter_leaves_into_the_normal_hemisphere() {
    let solid = Solid { albedo: Color::rgb(S / 2, S / 4, S / 8) };
    let rec = HitRecord {
        t: S,
        point: Vec3::new(0, 0, -S),
        normal: Vec3::new(0, 0, S),
        material: Material::Solid(solid),
    };
    let ray = Ray::new(Vec3::new(0, 0, 0), Vec3::new(0, 0, -S));
    for seed in 0u64..8 {
        let mut rng = raytracer::utils::Rng::new(seed);
        let (scattered, att) = solid
            .scatter(&ray, &rec, &mut rng)
            .expect("diffuse scatter always leaves");
        assert!(scattered.dir.dot(&rec.normal) >= 0);
        let n2 = scattered.dir.length_squared();
        assert!(n2 >= S - 16 && n2 <= S + 24);
        assert_eq!(
            (scattered.o.x, scattered.o.y, scattered.o.z),
            (0, 0, -S + 524288)
        );
        assert_eq!(att.to_rgb_bytes(), Color::rgb(S / 2, S / 4, S / 8).to_rgb_bytes());
    }
}

#[test]
fn hit_epsilon_rejects_self_intersection() {
    // A ray starting exactly on the surface, pointing outward, must not
    // re-hit the surface it starts on.
    let sp = Sphere { center: Vec3::new(0, 0, -2 * S), radius: S / 2, material: grey() };
    let on_surface = Ray::new(Vec3::new(0, 0, -(2 * S - S / 2)), Vec3::new(0, 0, S));
    assert!(sp.hit(&on_surface).is_none());
    assert!(EPS > 0);
}
