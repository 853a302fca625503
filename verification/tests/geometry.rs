//! Geometry tests: boxes, primitives, decorators.

use pathtracer::aabb::Aabb;
use pathtracer::fixed::{Fx, SCALE};
use pathtracer::materials::{Lambertian, Material};
use pathtracer::object::{
    Block, MovingSphere, Object, RectPlane, Rectangle, Rotate, RotationAxis, Sphere, Translate,
};
use pathtracer::ray::Ray;
use pathtracer::textures::{ConstantTexture, Texture};
use pathtracer::vector3::Vector;

fn fx(raw: i64) -> Fx {
    Fx { raw }
}

fn vec(x: i64, y: i64, z: i64) -> Vector {
    Vector { x: fx(x), y: fx(y), z: fx(z) }
}

fn gray() -> Material {
    Material::Lambertian(Lambertian::new(Texture::Constant(ConstantTexture::new(vec(
        SCALE / 2,
        SCALE / 2,
        SCALE / 2,
    )))))
}

fn ray(a: Vector, b: Vector) -> Ray {
    Ray { a, b, time: fx(0) }
}

#[test]
fn surrounding_box_contains_both() {
    let a = Aabb { min: vec(-SCALE, 0, 0), max: vec(SCALE, SCALE, SCALE) };
    let b = Aabb { min: vec(0, -2 * SCALE, 0), max: vec(3 * SCALE, SCALE / 2, 2 * SCALE) };
    let u = Aabb::surrounding_box(a, b);
    assert_eq!(u.min.x.raw, -SCALE);
    assert_eq!(u.min.y.raw, -2 * SCALE);
    assert_eq!(u.min.z.raw, 0);
    assert_eq!(u.max.x.raw, 3 * SCALE);
    assert_eq!(u.max.y.raw, SCALE);
    assert_eq!(u.max.z.raw, 2 * SCALE);
    // containment of both inputs, axis by axis
    assert!(u.min.x.raw <= a.min.x.raw && a.max.x.raw <= u.max.x.raw);
    assert!(u.min.y.raw <= b.min.y.raw && b.max.y.raw <= u.max.y.raw);
}

#[test]
fn aabb_hit_through_interior() {
    let b = Aabb { min: vec(-SCALE, -SCALE, -SCALE), max: vec(SCALE, SCALE, SCALE) };
    let r = ray(vec(0, 0, -3 * SCALE), vec(0, 0, SCALE));
    assert!(b.hit(r, fx(0), fx(10 * SCALE)));
}

#[test]
fn aabb_miss_outside_axis() {
    let b = Aabb { min: vec(-SCALE, -SCALE, -SCALE), max: vec(SCALE, SCALE, SCALE) };
    // The ray keeps x == 3 for its whole run: outside the x slab.
    let r = ray(vec(3 * SCALE, 0, -3 * SCALE), vec(0, 0, SCALE));
    assert!(!b.hit(r, fx(0), fx(10 * SCALE)));
}

#[test]
fn aabb_zero_direction_axis() {
    let b = Aabb { min: vec(-SCALE, -SCALE, -SCALE), max: vec(SCALE, SCALE, SCALE) };
    // x constant inside the slab: the other axes decide; hit.
    let r = ray(vec(SCALE / 2, 0, -3 * SCALE), vec(0, 0, SCALE));
    assert!(b.hit(r, fx(0), fx(10 * SCALE)));
    // x constant outside the slab: miss no matter what.
    let r2 = ray(vec(2 * SCALE, 0, -3 * SCALE), vec(0, 0, SCALE));
    assert!(!b.hit(r2, fx(0), fx(10 * SCALE)));
}

#[test]
fn sphere_head_on_hit() {
    // Ray (0,0,0) -> (0,0,-1) against a sphere at (0,0,-1) with radius
    // one half: hit at one half, normal toward positive z.
    let s = Sphere::new(vec(0, 0, -SCALE), fx(SCALE / 2), gray());
    let r = ray(vec(0, 0, 0), vec(0, 0, -SCALE));
    let (h, _m) = s.hit(r, fx(0), fx(100 * SCALE)).expect("sphere should be hit");
    assert_eq!(h.t.raw, 32768);
    assert_eq!(h.p.x.raw, 0);
    assert_eq!(h.p.y.raw, 0);
    assert_eq!(h.p.z.raw, -32768);
    assert_eq!(h.normal.x.raw, 0);
    assert_eq!(h.normal.y.raw, 0);
    assert_eq!(h.normal.z.raw, SCALE);
}

#[test]
fn sphere_miss() {
    let s = Sphere::new(vec(0, 0, -SCALE), fx(SCALE / 2), gray());
    let r = ray(vec(0, 0, 0), vec(0, SCALE, 0));
    assert!(s.hit(r, fx(0), fx(100 * SCALE)).is_none());
}

#[test]
fn sphere_range_rejects_far_hit() {
    let s = Sphere::new(vec(0, 0, -SCALE), fx(SCALE / 2), gray());
    let r = ray(vec(0, 0, 0), vec(0, 0, -SCALE));
    // The near root sits at one half, beyond the allowed range.
    assert!(s.hit(r, fx(0), fx(SCALE / 4)).is_none());
}

#[test]
fn sphere_bounding_box_extents() {
    let s = Sphere::new(vec(SCALE, 0, -SCALE), fx(SCALE / 2), gray());
    let b = s.bounding_box();
    assert_eq!(b.min.x.raw, SCALE / 2);
    assert_eq!(b.max.x.raw, 3 * SCALE / 2);
    assert_eq!(b.min.y.raw, -SCALE / 2);
    assert_eq!(b.max.y.raw, SCALE / 2);
}

#[test]
fn moving_sphere_follows_time() {
    let s = MovingSphere::new(
        vec(0, 0, -SCALE),
        vec(SCALE, 0, -SCALE),
        fx(0),
        fx(SCALE),
        fx(SCALE / 2),
        gray(),
    );
    // At shutter start the sphere sits on the axis: head-on hit.
    let r0 = Ray { a: vec(0, 0, 0), b: vec(0, 0, -SCALE), time: fx(0) };
    let (h, _) = s.hit(r0, fx(0), fx(100 * SCALE)).expect("hit at start time");
    assert_eq!(h.t.raw, 32768);
    // At shutter end it has moved one unit along x: the same ray misses.
    let r1 = Ray { a: vec(0, 0, 0), b: vec(0, 0, -SCALE), time: fx(SCALE) };
    assert!(s.hit(r1, fx(0), fx(100 * SCALE)).is_none());
}

#[test]
fn rectangle_hit_and_extent() {
    let rc = Rectangle {
        plane: RectPlane::XY,
        a0: fx(-SCALE),
        a1: fx(SCALE),
        b0: fx(-SCALE),
        b1: fx(SCALE),
        k: fx(-2 * SCALE),
        norm: fx(SCALE),
        material: gray(),
    };
    let r = ray(vec(0, 0, 0), vec(0, 0, -SCALE));
    let (h, _) = rc.hit(r, fx(0), fx(100 * SCALE)).expect("rectangle should be hit");
    assert_eq!(h.t.raw, 2 * SCALE);
    assert_eq!(h.normal.z.raw, SCALE);
    // Outside the extent: shifted parallel ray misses.
    let r2 = ray(vec(3 * SCALE, 0, 0), vec(0, 0, -SCALE));
    assert!(rc.hit(r2, fx(0), fx(100 * SCALE)).is_none());
    // Parallel to the plane: no interaction.
    let r3 = ray(vec(0, 0, 0), vec(SCALE, 0, 0));
    assert!(rc.hit(r3, fx(0), fx(100 * SCALE)).is_none());
}

#[test]
fn rectangle_box_is_padded() {
    let rc = Rectangle {
        plane: RectPlane::XZ,
        a0: fx(0),
        a1: fx(SCALE),
        b0: fx(0),
        b1: fx(SCALE),
        k: fx(3 * SCALE),
        norm: fx(-SCALE),
        material: gray(),
    };
    let b = rc.bounding_box();
    assert!(b.min.y.raw < 3 * SCALE && 3 * SCALE < b.max.y.raw);
    assert_eq!(b.min.x.raw, 0);
    assert_eq!(b.max.x.raw, SCALE);
}

#[test]
fn block_near_face_wins() {
    let b = Block::new(vec(0, 0, 0), vec(SCALE, SCALE, SCALE), gray());
    let r = ray(vec(SCALE / 2, SCALE / 2, 3 * SCALE), vec(0, 0, -SCALE));
    let (h, _) = b.hit(r, fx(0), fx(100 * SCALE)).expect("block should be hit");
    assert_eq!(h.t.raw, 2 * SCALE);
    assert_eq!(h.normal.z.raw, SCALE);
    assert_eq!(h.p.z.raw, SCALE);
}

#[test]
fn translate_shifts_hit_point() {
    let inner = Object::Sphere(Sphere::new(vec(0, 0, -SCALE), fx(SCALE / 2), gray()));
    let t = Object::Translate(Translate {
        hittable: Box::new(inner),
        offset: vec(0, 0, -SCALE),
    });
    let r = ray(vec(0, 0, 0), vec(0, 0, -SCALE));
    let (h, _) = t.hit(r, fx(0), fx(100 * SCALE)).expect("translated sphere should be hit");
    assert_eq!(h.t.raw, 3 * SCALE / 2);
    assert_eq!(h.p.z.raw, -3 * SCALE / 2);
}

#[test]
fn rotate_turns_object_into_view() {
    // A sphere two units along x, turned a quarter turn about y, shows
    // up along the ray on the z axis; the parameter matches the
    // untransformed distance.
    let inner = Object::Sphere(Sphere::new(vec(2 * SCALE, 0, 0), fx(SCALE / 2), gray()));
    let ro = Rotate::new(inner, RotationAxis::Y, fx(SCALE), fx(0));
    let o = Object::Rotate(ro);
    let r = ray(vec(0, 0, -3 * SCALE), vec(0, 0, SCALE));
    let (h, _) = o.hit(r, fx(0), fx(100 * SCALE)).expect("rotated sphere should be hit");
    assert_eq!(h.t.raw, SCALE / 2);
    assert_eq!(h.p.z.raw, -5 * SCALE / 2);
}

#[test]
fn rotate_box_covers_turned_extents() {
    let inner = Object::Sphere(Sphere::new(vec(2 * SCALE, 0, 0), fx(SCALE / 2), gray()));
    let ro = Rotate::new(inner, RotationAxis::Y, fx(SCALE), fx(0));
    let b = ro.bounding_box.expect("rotated sphere has a box");
    // The turned center sits near (0, 0, -2): the box must cover it.
    assert!(b.min.z.raw <= -2 * SCALE && -2 * SCALE <= b.max.z.raw);
    assert!(b.min.x.raw <= 0 && 0 <= b.max.x.raw);
}

#[test]
fn zero_direction_ray_interacts_with_nothing() {
    let s = Sphere::new(vec(0, 0, -SCALE), fx(SCALE / 2), gray());
    let still = ray(vec(0, 0, 0), vec(0, 0, 0));
    assert!(s.hit(still, fx(0), fx(100 * SCALE)).is_none());
    let rc = Rectangle {
        plane: RectPlane::XY,
        a0: fx(-SCALE),
        a1: fx(SCALE),
        b0: fx(-SCALE),
        b1: fx(SCALE),
        k: fx(-2 * SCALE),
        norm: fx(SCALE),
        material: gray(),
    };
    assert!(rc.hit(still, fx(0), fx(100 * SCALE)).is_none());
}
