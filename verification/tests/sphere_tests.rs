use ray_tracer::fixed::SCALE;
use ray_tracer::hittable::{HitRecord, Hittable};
use ray_tracer::hittable_list::HittableList;
use ray_tracer::interval::Interval;
use ray_tracer::ray::{Ray, T_LIMIT};
use ray_tracer::sphere::Sphere;
use ray_tracer::vector::{Point3, Vector3};

#[test]
fn test_sphere_new() {
    let center = Point3::new(SCALE, 2 * SCALE, 3 * SCALE);
    let radius = 2 * SCALE;
    let sphere = Sphere::new(center, radius);

    assert_eq!(sphere.center, center);
    assert_eq!(sphere.radius, radius);
}

#[test]
fn test_sphere_hit_miss() {
    let sphere = Sphere::new(Point3::new(0, 0, 0), SCALE);
    let ray = Ray::new(Point3::new(0, 0, -5 * SCALE), Vector3::new(SCALE, SCALE, 0));
    let mut rec = HitRecord::new();

    assert!(!sphere.hit(&ray, Interval::new(0, T_LIMIT), &mut rec));
}

#[test]
fn test_sphere_hit_from_outside() {
    let sphere = Sphere::new(Point3::new(0, 0, 0), SCALE);
    let ray = Ray::new(Point3::new(0, 0, -5 * SCALE), Vector3::new(0, 0, SCALE));
    let mut rec = HitRecord::new();

    assert!(sphere.hit(&ray, Interval::new(0, T_LIMIT), &mut rec));
    assert_eq!(rec.t, 4 * SCALE);
    assert_eq!(rec.p, Point3::new(0, 0, -SCALE));
    assert_eq!(rec.normal, Vector3::new(0, 0, -SCALE));
    assert!(rec.front_face);
}

#[test]
fn test_sphere_hit_from_inside() {
    let sphere = Sphere::new(Point3::new(0, 0, 0), SCALE);
    let ray = Ray::new(Point3::new(0, 0, 0), Vector3::new(0, 0, SCALE));
    let mut rec = HitRecord::new();

    assert!(sphere.hit(&ray, Interval::new(0, T_LIMIT), &mut rec));
    assert_eq!(rec.t, SCALE);
    assert_eq!(rec.p, Point3::new(0, 0, SCALE));
    assert_eq!(rec.normal, Vector3::new(0, 0, -SCALE));
    assert!(!rec.front_face);
}

#[test]
fn test_sphere_hit_beyond_tmax() {
    let sphere = Sphere::new(Point3::new(0, 0, 0), SCALE);
    let ray = Ray::new(Point3::new(0, 0, -5 * SCALE), Vector3::new(0, 0, SCALE));
    let mut rec = HitRecord::new();

    assert!(!sphere.hit(&ray, Interval::new(0, 3 * SCALE), &mut rec));
}

#[test]
fn test_sphere_hit_before_tmin() {
    let sphere = Sphere::new(Point3::new(0, 0, 0), SCALE);
    let ray = Ray::new(Point3::new(0, 0, -SCALE / 2), Vector3::new(0, 0, SCALE));
    let mut rec = HitRecord::new();

    assert!(!sphere.hit(&ray, Interval::new(2 * SCALE, T_LIMIT), &mut rec));
}

#[test]
fn test_list_hit_reports_nearest_in_any_order() {
    let near = Hittable::Sphere(Sphere::new(Point3::new(0, 0, -2 * SCALE), SCALE / 2));
    let far = Hittable::Sphere(Sphere::new(Point3::new(0, 0, -6 * SCALE), SCALE / 2));
    let ray = Ray::new(Point3::new(0, 0, 0), Vector3::new(0, 0, -SCALE));

    let mut world_a = HittableList::new();
    world_a.add(near);
    world_a.add(far);
    let mut world_b = HittableList::new();
    world_b.add(far);
    world_b.add(near);

    let mut rec_a = HitRecord::new();
    let mut rec_b = HitRecord::new();
    assert!(world_a.hit(&ray, Interval::new(0, T_LIMIT), &mut rec_a));
    assert!(world_b.hit(&ray, Interval::new(0, T_LIMIT), &mut rec_b));
    assert_eq!(rec_a.t, rec_b.t);
    assert_eq!(rec_a.t, SCALE + SCALE / 2);
}

#[test]
fn test_list_miss_when_all_members_miss() {
    let mut world = HittableList::new();
    world.add(Hittable::Sphere(Sphere::new(Point3::new(0, 0, -2 * SCALE), SCALE / 2)));
    let ray = Ray::new(Point3::new(0, 0, 0), Vector3::new(0, 0, SCALE));
    let mut rec = HitRecord::new();
    let before = rec;
    assert!(!world.hit(&ray, Interval::new(0, T_LIMIT), &mut rec));
    assert_eq!(rec, before);
}

#[test]
fn test_list_overlapping_spheres_nearest_surface() {
    // Two overlapping spheres: the reported hit is the nearest surface of
    // either, never the farther one.
    let a = Hittable::Sphere(Sphere::new(Point3::new(0, 0, -3 * SCALE), SCALE));
    let b = Hittable::Sphere(Sphere::new(Point3::new(0, 0, -3 * SCALE - SCALE / 2), SCALE));
    let ray = Ray::new(Point3::new(0, 0, 0), Vector3::new(0, 0, -SCALE));

    let mut world = HittableList::new();
    world.add(b);
    world.add(a);
    let mut rec = HitRecord::new();
    assert!(world.hit(&ray, Interval::new(0, T_LIMIT), &mut rec));
    assert_eq!(rec.t, 2 * SCALE);
}

#[test]
fn test_sphere_tangent_grazing_hit() {
    // A grazing ray touches the unit sphere at exactly one parameter; the
    // outward normal there is perpendicular to the ray, so the strict
    // orientation test reports the back face.
    let sphere = Sphere::new(Point3::new(0, 0, 0), SCALE);
    let ray = Ray::new(Point3::new(0, SCALE, -5 * SCALE), Vector3::new(0, 0, SCALE));
    let mut rec = HitRecord::new();

    assert!(sphere.hit(&ray, Interval::new(0, T_LIMIT), &mut rec));
    assert_eq!(rec.t, 5 * SCALE);
    assert_eq!(rec.p, Point3::new(0, SCALE, 0));
    assert!(!rec.front_face);
    assert_eq!(rec.normal, Vector3::new(0, -SCALE, 0));
}

#[test]
fn test_sphere_hit_normal_near_unit_and_opposed() {
    // An off-axis hit: the normal is a genuine diagonal, its length stays
    // within rounding of one unit, and it opposes the ray direction.
    let sphere = Sphere::new(Point3::new(0, 0, 0), SCALE);
    let ray = Ray::new(
        Point3::new(2 * SCALE, 2 * SCALE, 2 * SCALE),
        Vector3::new(-SCALE, -SCALE, -SCALE),
    );
    let mut rec = HitRecord::new();

    assert!(sphere.hit(&ray, Interval::new(0, T_LIMIT), &mut rec));
    assert!(rec.front_face);
    let len = rec.normal.length();
    assert!((len - SCALE).abs() <= 64, "normal length {} strays from one unit", len);
    assert!(Vector3::dot(ray.direction(), &rec.normal) <= 0);
}
