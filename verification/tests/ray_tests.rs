use ray_tracer::color::Color;
use ray_tracer::fixed::SCALE;
use ray_tracer::hittable::Hittable;
use ray_tracer::hittable_list::HittableList;
use ray_tracer::random::RandomStream;
use ray_tracer::ray::Ray;
use ray_tracer::sphere::Sphere;
use ray_tracer::vector::{Point3, Vector3};

fn create_ray(origin: (i64, i64, i64), direction: (i64, i64, i64)) -> Ray {
    Ray {
        origin: Vector3::new(origin.0, origin.1, origin.2),
        direction: Vector3::new(direction.0, direction.1, direction.2),
    }
}

#[test]
fn test_ray_new() {
    let origin = Point3::new(SCALE, 2 * SCALE, 3 * SCALE);
    let direction = Vector3::new(4 * SCALE, 5 * SCALE, 6 * SCALE);
    let ray = Ray::new(origin, direction);
    assert_eq!(*ray.origin(), origin);
    assert_eq!(*ray.direction(), direction);
}

#[test]
fn test_ray_at() {
    let origin = Point3::new(SCALE, 2 * SCALE, 3 * SCALE);
    let direction = Vector3::new(4 * SCALE, 5 * SCALE, 6 * SCALE);
    let ray = Ray::new(origin, direction);
    let point = ray.at(2 * SCALE);
    assert_eq!(point, Vector3::new(9 * SCALE, 12 * SCALE, 15 * SCALE));
}

#[test]
fn test_ray_color_no_hit() {
    let ray = Ray::new(Point3::new(0, 0, 0), Vector3::new(0, SCALE, 0));
    let world = HittableList::new();
    let mut rng = RandomStream::new(1);
    let color = ray.color(1, &world, &mut rng);
    assert_eq!(color.red, SCALE / 2);
    assert_eq!(color.green, 45875);
    assert_eq!(color.blue, SCALE);
}

#[test]
fn test_ray_color_hit() {
    let ray = Ray::new(Point3::new(0, 0, 0), Vector3::new(0, 0, -SCALE));
    let mut world = HittableList::new();
    world.add(Hittable::Sphere(Sphere::new(Point3::new(0, 0, -2 * SCALE), SCALE)));
    let mut rng = RandomStream::new(1);
    let color = ray.color(1, &world, &mut rng);
    assert!(color.red >= 0 && color.red <= SCALE / 2);
    assert!(color.green >= 0 && color.green <= SCALE / 2);
    assert!(color.blue >= 0 && color.blue <= SCALE / 2);
}

#[test]
fn test_ray_color_max_depth() {
    let ray = Ray::new(Point3::new(0, 0, 0), Vector3::new(0, 0, -SCALE));
    let mut world = HittableList::new();
    world.add(Hittable::Sphere(Sphere::new(Point3::new(0, 0, -2 * SCALE), SCALE)));
    let mut rng = RandomStream::new(1);
    let color = ray.color(0, &world, &mut rng);
    assert_eq!(color, Color::new(0, 0, 0));
}

#[test]
fn test_ray_hits_sphere() {
    let ray = create_ray((0, 0, 0), (SCALE, 0, 0));
    let center = Vector3::new(3 * SCALE, 0, 0);
    let radius = SCALE;

    let t = ray.hit_sphere(center, radius);
    assert!(t > 0, "Ray should hit the sphere");
    assert_eq!(t, 2 * SCALE, "Intersection point should be at t = 2.0");
}

#[test]
fn test_ray_misses_sphere() {
    let ray = create_ray((0, 2 * SCALE, 0), (SCALE, 0, 0));
    let center = Vector3::new(3 * SCALE, 0, 0);
    let radius = SCALE;

    let t = ray.hit_sphere(center, radius);
    assert!(t < 0, "Ray should miss the sphere");
}

#[test]
fn test_ray_inside_sphere() {
    let ray = create_ray((3 * SCALE, 0, 0), (SCALE, 0, 0));
    let center = Vector3::new(3 * SCALE, 0, 0);
    let radius = SCALE;

    let t = ray.hit_sphere(center, radius);
    assert!(t < 0, "Ray inside sphere should return negative t");
    assert_eq!(t, -SCALE, "Intersection point should be at t = -1.0");
}

#[test]
fn test_ray_tangent_to_sphere() {
    let ray = create_ray((0, SCALE, 0), (SCALE, 0, 0));
    let center = Vector3::new(3 * SCALE, 0, 0);
    let radius = SCALE;

    let t = ray.hit_sphere(center, radius);
    assert!(t > 0, "Ray should be tangent to the sphere");
    assert_eq!(t, 3 * SCALE, "Tangent point should be at t = 3.0");
}

#[test]
fn test_ray_opposite_direction() {
    let ray = create_ray((0, 0, 0), (-SCALE, 0, 0));
    let center = Vector3::new(3 * SCALE, 0, 0);
    let radius = SCALE;

    let t = ray.hit_sphere(center, radius);
    assert!(t < 0, "Ray in opposite direction should miss the sphere");
}

#[test]
fn test_sphere_behind_ray_origin() {
    let ray = create_ray((5 * SCALE, 0, 0), (SCALE, 0, 0));
    let center = Vector3::new(3 * SCALE, 0, 0);
    let radius = SCALE;

    let t = ray.hit_sphere(center, radius);
    assert!(t < 0, "Sphere behind ray origin should not be hit");
}
