use ray_tracer::camera::Camera;
use ray_tracer::fixed::SCALE;
use ray_tracer::hittable::Hittable;
use ray_tracer::hittable_list::HittableList;
use ray_tracer::random::RandomStream;
use ray_tracer::sphere::Sphere;
use ray_tracer::vector::Point3;

// The aspect ratio 16:9 as a fixed-point value, rounded down.
const WIDE: i64 = 116508;

fn two_sphere_world() -> HittableList {
    let mut world = HittableList::new();
    world.add(Hittable::Sphere(Sphere::new(Point3::new(0, 0, -SCALE), SCALE / 2)));
    world.add(Hittable::Sphere(Sphere::new(
        Point3::new(0, -100 * SCALE - SCALE / 2, -SCALE),
        100 * SCALE,
    )));
    world
}

#[test]
fn test_camera_derives_height_from_aspect() {
    let camera = Camera::new(WIDE, 16, 1, 4);
    assert_eq!(camera.image_height, 9);
    let square = Camera::new(SCALE, 7, 1, 4);
    assert_eq!(square.image_height, 7);
    let narrow = Camera::new(4 * SCALE, 2, 1, 4);
    assert_eq!(narrow.image_height, 1);
}

#[test]
fn test_render_pixel_count() {
    let camera = Camera::new(WIDE, 16, 1, 4);
    let world = two_sphere_world();
    let mut rng = RandomStream::new(3);
    let pixels = camera.render(&world, &mut rng);
    assert_eq!(pixels.len(), 16 * 9);
}

#[test]
fn test_render_channels_stay_in_unit_range() {
    let camera = Camera::new(SCALE, 8, 2, 6);
    let world = two_sphere_world();
    let mut rng = RandomStream::new(5);
    let pixels = camera.render(&world, &mut rng);
    assert_eq!(pixels.len(), 64);
    for p in pixels.iter() {
        assert!(0 <= p.red && p.red <= SCALE);
        assert!(0 <= p.green && p.green <= SCALE);
        assert!(0 <= p.blue && p.blue <= SCALE);
    }
}

#[test]
fn test_render_is_reproducible_for_a_fixed_seed() {
    let camera = Camera::new(WIDE, 16, 1, 4);
    let world = two_sphere_world();
    let mut rng_one = RandomStream::new(42);
    let first = camera.render(&world, &mut rng_one);
    let mut rng_two = RandomStream::new(42);
    let second = camera.render(&world, &mut rng_two);
    assert_eq!(first, second);
    let mut rng_three = RandomStream::new(43);
    let other = camera.render(&world, &mut rng_three);
    assert_eq!(other.len(), first.len());
}

#[test]
fn test_render_sky_row_shows_background() {
    // With no scene at all, every pixel is a background blend: blue is the
    // strongest channel of the sky gradient everywhere.
    let camera = Camera::new(SCALE, 4, 1, 4);
    let world = HittableList::new();
    let mut rng = RandomStream::new(9);
    let pixels = camera.render(&world, &mut rng);
    assert_eq!(pixels.len(), 16);
    for p in pixels.iter() {
        assert!(p.blue >= p.red && p.blue >= p.green);
        assert!(p.blue > 0);
    }
}

#[test]
fn test_render_single_column_image() {
    let camera = Camera::new(4 * SCALE, 2, 1, 2);
    assert_eq!(camera.image_width, 2);
    assert_eq!(camera.image_height, 1);
    let world = two_sphere_world();
    let mut rng = RandomStream::new(21);
    let pixels = camera.render(&world, &mut rng);
    assert_eq!(pixels.len(), 2);
}

#[test]
fn test_camera_height_rounds_to_nearest() {
    // Width 3 at aspect 2.0: three halves of a row rounds up to two rows.
    let camera = Camera::new(2 * SCALE, 3, 1, 4);
    assert_eq!(camera.image_height, 2);
    // Width 5 at aspect 2.0: two and a half rounds up to three.
    let tall = Camera::new(2 * SCALE, 5, 1, 4);
    assert_eq!(tall.image_height, 3);
}
