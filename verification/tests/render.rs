use std::sync::Arc;
use raytracer::camera::Camera;
use raytracer::color::Color;
use raytracer::fixed::SCALE;
use raytracer::material::{BasicMetal, Material, Solid};
use raytracer::math::Vec3;
use raytracer::object::{Cylinder, Object, Sphere};
use raytracer::ray::Ray;
use raytracer::scene::{AmbientLight, Scene};
use raytracer::utils::Rng;

const S: i128 = SCALE;

fn ambient() -> AmbientLight {
    AmbientLight { ratio: S / 5, color: Color::rgb(4 * S / 5, 4 * S / 5, 4 * S / 5) }
}

fn diffuse(r: i128, g: i128, b: i128) -> Arc<Material> {
    Arc::new(Material::Solid(Solid { albedo: Color::rgb(r, g, b) }))
}

/// The sky gradient a miss must produce, recomputed independently.
fn expected_sky(dir: Vec3) -> (i128, i128, i128) {
    let uy = dir.unit().y;
    let mut a = (uy + S) / 2;
    if a < 0 {
        a = 0;
    }
    if a > S {
        a = S;
    }
    (S, S - a, S - a)
}

#[test]
fn camera_derives_the_viewport() {
    // Square image, 90 degree field of view: tan of the half angle is
    // exactly one.
    let cam = Camera::new(Vec3::new(0, 0, 0), S, S, 4);
    assert_eq!(cam.image_width, 4);
    assert_eq!(cam.image_height, 4);
    assert_eq!(cam.focal_length, S);
    assert_eq!((cam.viewport.u.x, cam.viewport.u.y, cam.viewport.u.z), (2 * S, 0, 0));
    assert_eq!((cam.viewport.v.x, cam.viewport.v.y, cam.viewport.v.z), (0, -2 * S, 0));
    assert_eq!(
        (cam.viewport.pdu.x, cam.viewport.pdu.y, cam.viewport.pdu.z),
        (S / 2, 0, 0)
    );
    assert_eq!(
        (cam.viewport.pdv.x, cam.viewport.pdv.y, cam.viewport.pdv.z),
        (0, -(S / 2), 0)
    );
    assert_eq!(
        (cam.viewport.p00.x, cam.viewport.p00.y, cam.viewport.p00.z),
        (-(3 * S / 4), 3 * S / 4, -S)
    );
}

#[test]
fn camera_height_respects_the_aspect_ratio() {
    // 16:9 at width 160 gives height 90.
    let aspect = 16 * S / 9;
    let cam = Camera::new(Vec3::new(0, 0, 0), S, aspect, 160);
    assert_eq!(cam.image_height as i128, 160 * S / aspect);
    assert_eq!(cam.image_height, 90);
}

#[test]
fn camera_center_ray_looks_down_the_axis() {
    // With a single pixel, its center falls exactly on the viewing axis.
    let cam = Camera::new(Vec3::new(0, 0, 0), S, S, 1);
    let ray = cam.get_ray(0, 0, 0, 0);
    assert_eq!((ray.o.x, ray.o.y, ray.o.z), (0, 0, 0));
    assert_eq!((ray.dir.x, ray.dir.y, ray.dir.z), (0, 0, -S));
}

#[test]
fn depth_zero_is_always_black() {
    // Depth-limited recursion: at depth zero the color is black whatever
    // the scene holds, even with geometry straight ahead.
    let mut scene = Scene::new(Camera::new(Vec3::new(0, 0, 0), S, S, 5), ambient());
    scene.add_object(Object::Sphere(Sphere {
        center: Vec3::new(0, 0, -2 * S),
        radius: S,
        material: diffuse(S, 0, 0),
    }));
    let ray = Ray::new(Vec3::new(0, 0, 0), Vec3::new(0, 0, -S));
    let mut rng = Rng::new(11);
    let c = scene.ray_color(&ray, 0, &mut rng);
    assert_eq!((c.x, c.y, c.z), (0, 0, 0));
}

#[test]
fn miss_gives_the_sky_gradient() {
    let scene = Scene::new(Camera::new(Vec3::new(0, 0, 0), S, S, 5), ambient());
    let mut rng = Rng::new(3);
    for dir in [
        Vec3::new(0, 0, -S),
        Vec3::new(S / 3, S / 2, -S),
        Vec3::new(-S, -S / 4, -S),
    ] {
        let ray = Ray::new(Vec3::new(0, 0, 0), dir.unit());
        let c = scene.ray_color(&ray, 4, &mut rng);
        assert_eq!((c.x, c.y, c.z), expected_sky(ray.dir));
    }
}

#[test]
fn center_pixel_hits_and_corner_pixel_sees_sky() {
    // One sphere of radius 0.5 at (0, 0, -1), a diffuse material, the
    // camera at the origin looking down the negative z axis with a 90
    // degree field of view, one bounce: the center pixel's ray hits (and
    // with depth one resolves to black, never the sky's form), while a
    // corner ray misses and reports the exact sky gradient.
    let mut cam = Camera::new(Vec3::new(0, 0, 0), S, S, 101);
    cam.sampling_rate = 1;
    cam.max_depth = 1;
    let mut scene = Scene::new(cam, ambient());
    scene.add_object(Object::Sphere(Sphere {
        center: Vec3::new(0, 0, -S),
        radius: S / 2,
        material: diffuse(S / 2, S / 2, S / 2),
    }));
    let mut rng = Rng::new(1);

    let center_ray = scene.camera.get_ray(50, 50, 0, 0);
    let hit = scene.cast(&center_ray).expect("the center ray hits the sphere");
    assert_eq!(hit.t, S / 2);
    let center_color = scene.ray_color(&center_ray, 1, &mut rng);
    let sky = expected_sky(center_ray.dir);
    assert_ne!((center_color.x, center_color.y, center_color.z), sky);
    assert_eq!((center_color.x, center_color.y, center_color.z), (0, 0, 0));

    let corner_ray = scene.camera.get_ray(0, 0, 0, 0);
    assert!(scene.cast(&corner_ray).is_none());
    let corner_color = scene.ray_color(&corner_ray, 1, &mut rng);
    assert_eq!(
        (corner_color.x, corner_color.y, corner_color.z),
        expected_sky(corner_ray.dir)
    );
}

#[test]
fn nearest_hit_takes_the_smallest_t() {
    let mut scene = Scene::new(Camera::new(Vec3::new(0, 0, 0), S, S, 5), ambient());
    scene.add_object(Object::Sphere(Sphere {
        center: Vec3::new(0, 0, -4 * S),
        radius: S / 2,
        material: diffuse(S, 0, 0),
    }));
    scene.add_object(Object::Sphere(Sphere {
        center: Vec3::new(0, 0, -2 * S),
        radius: S / 2,
        material: diffuse(0, S, 0),
    }));
    let ray = Ray::new(Vec3::new(0, 0, 0), Vec3::new(0, 0, -S));
    let hit = scene.cast(&ray).expect("both spheres line up");
    assert_eq!(hit.t, 2 * S - S / 2);
    match hit.material {
        Material::Solid(s) => assert_eq!(s.albedo.to_rgb_bytes(), 0x00FF00),
        _ => panic!("unexpected material"),
    }
}

#[test]
fn nearest_hit_is_independent_of_random_state() {
    // Two cylinders and two spheres sharing one material instance: the
    // selected nearest hit is a function of geometry and ray alone, so
    // consuming or reseeding any random state cannot change it.
    let shared = Arc::new(Material::Metal(BasicMetal {
        albedo: Color::rgb(4 * S / 5, 4 * S / 5, 4 * S / 5),
        fuzz: S / 20,
    }));
    let mut scene = Scene::new(Camera::new(Vec3::new(0, 0, 0), S, S, 5), ambient());
    scene.add_object(Object::Cylinder(Cylinder {
        center: Vec3::new(-S, 0, -3 * S),
        radius: S / 2,
        height: S,
        orientation: Vec3::new(0, S, 0),
        body_material: shared.clone(),
        top_material: shared.clone(),
        bottom_material: shared.clone(),
    }));
    scene.add_object(Object::Cylinder(Cylinder {
        center: Vec3::new(S, 0, -3 * S),
        radius: S / 2,
        height: S,
        orientation: Vec3::new(0, S, 0),
        body_material: shared.clone(),
        top_material: shared.clone(),
        bottom_material: shared.clone(),
    }));
    scene.add_object(Object::Sphere(Sphere {
        center: Vec3::new(0, 0, -2 * S),
        radius: S / 2,
        material: shared.clone(),
    }));
    scene.add_object(Object::Sphere(Sphere {
        center: Vec3::new(0, S, -4 * S),
        radius: S / 2,
        material: shared.clone(),
    }));
    let ray = Ray::new(Vec3::new(0, 0, 0), Vec3::new(0, 0, -S));

    let first = scene.cast(&ray).expect("the front sphere is hit");

    // Churn the global entropy source and run stochastic scatters in
    // between; the nearest hit must not move.
    for _ in 0..10 {
        let _ = raytracer::utils::random_double();
    }
    let mut rng = Rng::new(0xDEAD);
    let _ = scene.ray_color(&ray, 4, &mut rng);
    let second = scene.cast(&ray).expect("still hit");

    assert_eq!(first.t, second.t);
    assert_eq!(
        (first.point.x, first.point.y, first.point.z),
        (second.point.x, second.point.y, second.point.z)
    );
    assert_eq!(
        (first.normal.x, first.normal.y, first.normal.z),
        (second.normal.x, second.normal.y, second.normal.z)
    );
    assert_eq!(first.t, 2 * S - S / 2);
}

#[test]
fn render_frame_fills_every_pixel() {
    let mut cam = Camera::new(Vec3::new(0, 0, 0), S, S, 8);
    cam.sampling_rate = 2;
    cam.max_depth = 2;
    let mut scene = Scene::new(cam, ambient());
    scene.add_object(Object::Sphere(Sphere {
        center: Vec3::new(0, 0, -2 * S),
        radius: S,
        material: diffuse(S / 2, S / 4, S / 8),
    }));
    let mut rng = Rng::new(2024);
    let frame = scene.render_frame(&mut rng);
    assert_eq!(frame.width, 8);
    assert_eq!(frame.height, 8);
    assert_eq!(frame.buf.len(), 64);
    for k in 0..64 {
        // Every pixel is a packed 0x00RRGGBB value: the top byte is
        // unused.
        assert!(frame.buf[k] <= 0xFFFFFF);
    }
    // The frame is not uniformly black: the sky contributes.
    assert!(frame.buf.iter().any(|&p| p != 0));
}

#[test]
fn clear_empties_the_scene() {
    let mut scene = Scene::new(Camera::new(Vec3::new(0, 0, 0), S, S, 5), ambient());
    scene.add_object(Object::Sphere(Sphere {
        center: Vec3::new(0, 0, -2 * S),
        radius: S,
        material: diffuse(S, 0, 0),
    }));
    let ray = Ray::new(Vec3::new(0, 0, 0), Vec3::new(0, 0, -S));
    assert!(scene.cast(&ray).is_some());
    scene.clear();
    assert!(scene.cast(&ray).is_none());
}

#[test]
fn level_ray_sky_is_half_blend() {
    // A horizontal unit direction has zero height: the blend factor is
    // exactly one half, white and tint in equal parts.
    let scene = Scene::new(Camera::new(Vec3::new(0, 0, 0), S, S, 5), ambient());
    let mut rng = Rng::new(8);
    let ray = Ray::new(Vec3::new(0, 0, 0), Vec3::new(0, 0, -S));
    let c = scene.ray_color(&ray, 3, &mut rng);
    assert_eq!((c.x, c.y, c.z), (S, S / 2, S / 2));
}

#[test]
fn render_is_deterministic_for_a_seed() {
    let mut cam = Camera::new(Vec3::new(0, 0, 0), S, S, 6);
    cam.sampling_rate = 2;
    cam.max_depth = 3;
    let mut scene = Scene::new(cam, ambient());
    scene.add_object(Object::Sphere(Sphere {
        center: Vec3::new(0, 0, -2 * S),
        radius: S,
        material: Arc::new(Material::Metal(BasicMetal {
            albedo: Color::rgb(4 * S / 5, 3 * S / 5, S / 5),
            fuzz: S / 10,
        })),
    }));
    let mut rng1 = Rng::new(31337);
    let frame1 = scene.render_frame(&mut rng1);
    let mut rng2 = Rng::new(31337);
    let frame2 = scene.render_frame(&mut rng2);
    assert_eq!(frame1.buf, frame2.buf);
    let mut rng3 = Rng::new(99);
    let frame3 = scene.render_frame(&mut rng3);
    assert_eq!(frame3.buf.len(), frame1.buf.len());
}

#[test]
fn tilted_cylinder_is_hit_on_its_side() {
    // An axis away from the coordinate axes, normalized by the library
    // itself: the ray crosses the side between the caps.
    let axis = Vec3::new(S, S, 0).unit();
    let n2 = axis.length_squared();
    assert!(n2 >= S - 16 && n2 <= S + 16);
    let shared = diffuse(S / 2, S / 2, S / 2);
    let cy = Cylinder {
        center: Vec3::new(0, 0, -3 * S),
        radius: S / 2,
        height: 2 * S,
        orientation: axis,
        body_material: shared.clone(),
        top_material: shared.clone(),
        bottom_material: shared.clone(),
    };
    let ray = Ray::new(Vec3::new(0, 0, 0), Vec3::new(0, 0, -S));
    let hit = Object::Cylinder(cy).hit(&ray).expect("the ray meets the side");
    // The hit lies on the near side of the cylinder, between the caps.
    assert!(hit.t > 2 * S && hit.t < 3 * S);
    // The reported normal is unit length and faces back along the ray.
    let nn = hit.normal.length_squared();
    assert!(nn >= S - 16 && nn <= S + 16);
    assert!(hit.normal.z > 0);
}
