//! Integrator and whole-pipeline tests.

use pathtracer::object::Bvh;
use pathtracer::camera::{Camera, CameraConstructor};
use pathtracer::fixed::{Fx, SCALE};
use pathtracer::integrator::{color, finalize_channel, render_pixel, MAX_RECURSIVE_DEPTH};
use pathtracer::materials::{DiffuseLight, Lambertian, Material};
use pathtracer::object::{Object, Sphere};
use pathtracer::ray::Ray;
use pathtracer::scene::Scene;
use pathtracer::textures::{ConstantTexture, Texture};
use pathtracer::vector3::Vector;

fn fx(raw: i64) -> Fx {
    Fx { raw }
}

fn vec(x: i64, y: i64, z: i64) -> Vector {
    Vector { x: fx(x), y: fx(y), z: fx(z) }
}

fn lambertian(r: i64, g: i64, b: i64) -> Material {
    Material::Lambertian(Lambertian::new(Texture::Constant(ConstantTexture::new(vec(r, g, b)))))
}

fn sphere(cx: i64, cy: i64, cz: i64, radius: i64, m: Material) -> Object {
    Object::Sphere(Sphere::new(vec(cx, cy, cz), fx(radius), m))
}

fn test_camera() -> Camera {
    Camera::default(fx(SCALE))
}

fn ray(a: Vector, b: Vector) -> Ray {
    Ray { a, b, time: fx(0) }
}

#[test]
fn miss_returns_background_exactly() {
    let scene = Scene::from_objects_and_cam(
        vec![sphere(0, 0, -2 * SCALE, SCALE / 2, lambertian(SCALE / 2, SCALE / 2, SCALE / 2))],
        test_camera(),
    );
    let light = sphere(0, 0, -2 * SCALE, SCALE / 2, lambertian(SCALE / 2, SCALE / 2, SCALE / 2));
    let background = vec(6553, 13107, 19660);
    // A ray pointing away from all geometry: the background, exactly.
    let c = color(ray(vec(0, 0, 0), vec(0, SCALE, 0)), &scene, &light, background, 0);
    assert_eq!((c.x.raw, c.y.raw, c.z.raw), (6553, 13107, 19660));
    // The same holds at the recursion cap.
    let c2 = color(
        ray(vec(0, 0, 0), vec(0, SCALE, 0)),
        &scene,
        &light,
        background,
        MAX_RECURSIVE_DEPTH,
    );
    assert_eq!((c2.x.raw, c2.y.raw, c2.z.raw), (6553, 13107, 19660));
}

#[test]
fn depth_cap_returns_emission_only() {
    // A ray at the recursion cap hitting an emitter returns exactly the
    // emitted term, with no recursive contribution.
    let glow = Material::DiffuseLight(DiffuseLight::new(Texture::Constant(ConstantTexture::new(
        vec(52428, 45875, 39321),
    ))));
    let scene = Scene::from_objects_and_cam(
        vec![sphere(0, 0, -SCALE, SCALE / 2, glow)],
        test_camera(),
    );
    let light = sphere(0, 0, -SCALE, SCALE / 2, lambertian(SCALE, SCALE, SCALE));
    let background = vec(0, 0, 0);
    let c = color(
        ray(vec(0, 0, 0), vec(0, 0, -SCALE)),
        &scene,
        &light,
        background,
        MAX_RECURSIVE_DEPTH,
    );
    assert_eq!((c.x.raw, c.y.raw, c.z.raw), (52428, 45875, 39321));
    // A diffuse surface at the cap emits nothing: exactly black.
    let scene2 = Scene::from_objects_and_cam(
        vec![sphere(0, 0, -SCALE, SCALE / 2, lambertian(SCALE / 2, SCALE / 2, SCALE / 2))],
        test_camera(),
    );
    let c2 = color(
        ray(vec(0, 0, 0), vec(0, 0, -SCALE)),
        &scene2,
        &light,
        background,
        MAX_RECURSIVE_DEPTH,
    );
    assert_eq!((c2.x.raw, c2.y.raw, c2.z.raw), (0, 0, 0));
}

fn sample_spheres() -> Vec<Object> {
    let mut v = Vec::new();
    let coords: [(i64, i64, i64, i64); 6] = [
        (0, 0, -3, 1),
        (3, 1, -5, 1),
        (-2, -1, -4, 1),
        (1, 2, -8, 2),
        (-3, 2, -6, 1),
        (0, -2, -5, 1),
    ];
    for (i, &(x, y, z, r)) in coords.iter().enumerate() {
        let shade = SCALE / 8 * (i as i64 + 1);
        v.push(sphere(
            x * SCALE,
            y * SCALE,
            z * SCALE,
            r * SCALE / 2,
            lambertian(shade, shade, shade),
        ));
    }
    v
}

#[test]
fn bvh_query_matches_linear_scan() {
    // The hierarchy query and a brute-force scan agree on every probe:
    // same hit-or-miss answer, same parameter.
    let scan_scene = Scene::from_objects_and_cam(sample_spheres(), test_camera());
    let tree = Bvh::construct(sample_spheres(), fx(0), fx(0));
    let mut probes: Vec<Ray> = Vec::new();
    for ix in -4i64..5 {
        for iy in -4i64..5 {
            probes.push(ray(vec(0, 0, 2 * SCALE), vec(ix * SCALE / 2, iy * SCALE / 2, -2 * SCALE)));
            probes.push(ray(
                vec(ix * SCALE, iy * SCALE, 0),
                vec(-ix * SCALE / 4, SCALE / 8, -SCALE),
            ));
        }
    }
    let mut hits = 0;
    for r in probes {
        let linear = scan_scene.hit(r, fx(328), fx(1 << 40));
        let tree_hit = tree.hit(r, fx(328), fx(1 << 40));
        match (linear, tree_hit) {
            (None, None) => {},
            (Some((hl, _)), Some((ht, _))) => {
                assert_eq!(hl.t.raw, ht.t.raw);
                hits += 1;
            },
            _ => panic!("hierarchy and scan disagree on hit existence"),
        }
    }
    assert!(hits > 10);
}

#[test]
fn end_to_end_center_lit_corners_background() {
    // Ground sphere (0, -100.5, -1) radius 100, gray; foreground sphere
    // (0, 0, -1) radius one half, red.  A wide camera two units above
    // the foreground sphere looks straight down: every center-pixel ray
    // strikes geometry, while all four corner pixels see only the
    // background.
    let ground = sphere(0, -6586368, -SCALE, 100 * SCALE, lambertian(16384, 16384, 16384));
    let fg = sphere(0, 0, -SCALE, SCALE / 2, lambertian(26214, 6553, 6553));
    let camera = Camera::new(CameraConstructor {
        look_from: vec(0, 2 * SCALE, -SCALE),
        look_at: vec(0, 0, -SCALE),
        vup: vec(SCALE, 0, 0),
        half_width: fx(4 * SCALE),
        half_height: fx(4 * SCALE),
        aperture: fx(0),
        focus_dist: fx(SCALE),
        t0: fx(0),
        t1: fx(0),
    });
    let scene = Scene::from_objects_and_cam(vec![ground, fg], camera);
    let light = sphere(0, 0, -SCALE, SCALE / 2, lambertian(26214, 6553, 6553));
    let background = vec(SCALE, SCALE, SCALE);
    let n = 51;
    let corners = [(0, 0), (n - 1, 0), (0, n - 1), (n - 1, n - 1)];
    for &(x, y) in &corners {
        let p = render_pixel(&scene, &light, background, x, y, n, n, 4);
        assert_eq!((p.r, p.g, p.b), (255, 255, 255));
        assert_eq!((p.x, p.y), (x, y));
    }
    let center = render_pixel(&scene, &light, background, n / 2, n / 2, n, n, 4);
    assert!(
        (center.r, center.g, center.b) != (255, 255, 255),
        "center pixel must differ from the background"
    );
}

#[test]
fn scene_bounding_box_spans_objects() {
    let scene = Scene::from_objects_and_cam(
        vec![
            sphere(0, 0, -2 * SCALE, SCALE / 2, lambertian(SCALE / 2, SCALE / 2, SCALE / 2)),
            sphere(3 * SCALE, SCALE, -4 * SCALE, SCALE, lambertian(SCALE / 2, SCALE / 2, SCALE / 2)),
        ],
        test_camera(),
    );
    let b = scene.bounding_box(fx(0), fx(0)).expect("spheres always have boxes");
    assert_eq!(b.min.x.raw, -SCALE / 2);
    assert_eq!(b.max.x.raw, 4 * SCALE);
    assert_eq!(b.min.z.raw, -5 * SCALE);
    assert_eq!(b.max.z.raw, -3 * SCALE / 2);
    // An empty scene has no box.
    let empty = Scene::from_objects_and_cam(Vec::new(), test_camera());
    assert!(empty.bounding_box(fx(0), fx(0)).is_none());
}

#[test]
fn default_camera_center_ray_aims_forward() {
    let cam = test_camera();
    let r = cam.get_ray(fx(SCALE / 2), fx(SCALE / 2));
    // Zero aperture and a degenerate shutter: origin and time are exact.
    assert_eq!((r.a.x.raw, r.a.y.raw, r.a.z.raw), (0, 0, 0));
    assert_eq!(r.time.raw, 0);
    assert_eq!((r.b.x.raw, r.b.y.raw, r.b.z.raw), (0, 0, -SCALE));
}

#[test]
fn sphere_light_density_positive_toward_light() {
    let s = match sphere(0, 0, -2 * SCALE, SCALE, lambertian(SCALE / 2, SCALE / 2, SCALE / 2)) {
        Object::Sphere(s) => s,
        _ => unreachable!(),
    };
    // Aimed at the sphere: the reciprocal of the subtended solid angle.
    assert_eq!(s.pdf_value(vec(0, 0, 0), vec(0, 0, -SCALE)).raw, 77846);
    // Aimed away: zero.
    assert_eq!(s.pdf_value(vec(0, 0, 0), vec(0, SCALE, 0)).raw, 0);
}

#[test]
fn finalize_gamma_and_quantization() {
    assert_eq!(finalize_channel(fx(0)), 0);
    // A quarter of full scale gamma-corrects to one half: level 128.
    assert_eq!(finalize_channel(fx(SCALE / 4)), 128);
    assert_eq!(finalize_channel(fx(SCALE)), 255);
    // Overflowed radiance clamps to full brightness.
    assert_eq!(finalize_channel(fx(5 * SCALE)), 255);
}

#[test]
fn bvh_root_box_equals_scene_fold() {
    // The built hierarchy's root box is exactly the pairwise-union fold
    // of the input boxes, which is also what the scene reports.
    let scan_scene = Scene::from_objects_and_cam(sample_spheres(), test_camera());
    let tree = Bvh::construct(sample_spheres(), fx(0), fx(0));
    let scene_box = scan_scene.bounding_box(fx(0), fx(0)).expect("spheres have boxes");
    let root_box = tree.bounding_box(fx(0), fx(0)).expect("the tree has a box");
    assert_eq!(root_box.min.x.raw, scene_box.min.x.raw);
    assert_eq!(root_box.min.y.raw, scene_box.min.y.raw);
    assert_eq!(root_box.min.z.raw, scene_box.min.z.raw);
    assert_eq!(root_box.max.x.raw, scene_box.max.x.raw);
    assert_eq!(root_box.max.y.raw, scene_box.max.y.raw);
    assert_eq!(root_box.max.z.raw, scene_box.max.z.raw);
}

#[test]
fn camera_rays_focus_and_stay_in_shutter() {
    // A camera with an open lens and a real shutter: every ray's time
    // lies in the shutter interval, and origin plus direction always
    // lands on the same film point, whatever the lens sample.
    let camera = Camera::new(CameraConstructor {
        look_from: vec(0, 0, 0),
        look_at: vec(0, 0, -SCALE),
        vup: vec(0, SCALE, 0),
        half_width: fx(SCALE),
        half_height: fx(SCALE),
        aperture: fx(SCALE / 2),
        focus_dist: fx(2 * SCALE),
        t0: fx(0),
        t1: fx(SCALE),
    });
    let s = fx(SCALE / 4);
    let t = fx(3 * SCALE / 4);
    let mul = |a: i64, b: i64| -> i64 { ((a as i128) * (b as i128) / 65536) as i64 };
    let target_x = camera.lower_left_corner.x.raw + mul(camera.horizontal.x.raw, s.raw)
        + mul(camera.vertical.x.raw, t.raw);
    let target_y = camera.lower_left_corner.y.raw + mul(camera.horizontal.y.raw, s.raw)
        + mul(camera.vertical.y.raw, t.raw);
    let target_z = camera.lower_left_corner.z.raw + mul(camera.horizontal.z.raw, s.raw)
        + mul(camera.vertical.z.raw, t.raw);
    for _ in 0..50 {
        let r = camera.get_ray(s, t);
        assert!(0 <= r.time.raw && r.time.raw <= SCALE);
        assert_eq!(r.a.x.raw + r.b.x.raw, target_x);
        assert_eq!(r.a.y.raw + r.b.y.raw, target_y);
        assert_eq!(r.a.z.raw + r.b.z.raw, target_z);
    }
}
