use ray_tracer::fixed::SCALE;
use ray_tracer::random::RandomStream;
use ray_tracer::vector::Vector3;

#[test]
fn test_vector3_add() {
    let x = Vector3 { x: SCALE, y: SCALE, z: SCALE };
    let y = Vector3 { x: 2 * SCALE, y: 2 * SCALE, z: 2 * SCALE };

    let add = x.add(y);

    assert_eq!(add.x, 3 * SCALE);
    assert_eq!(add.y, 3 * SCALE);
    assert_eq!(add.z, 3 * SCALE);
}

#[test]
fn test_vector3_sub() {
    let x = Vector3 { x: 5 * SCALE, y: 5 * SCALE, z: 5 * SCALE };
    let y = Vector3 { x: 2 * SCALE, y: 2 * SCALE, z: 2 * SCALE };

    let sub = x.sub(y);

    assert_eq!(sub.x, 3 * SCALE);
    assert_eq!(sub.y, 3 * SCALE);
    assert_eq!(sub.z, 3 * SCALE);
}

#[test]
fn test_vector3_mul() {
    let x = Vector3 { x: 2 * SCALE, y: 2 * SCALE, z: 2 * SCALE };
    let y = Vector3 { x: 2 * SCALE, y: 2 * SCALE, z: 2 * SCALE };

    let mul = x.mul(y);

    assert_eq!(mul.x, 4 * SCALE);
    assert_eq!(mul.y, 4 * SCALE);
    assert_eq!(mul.z, 4 * SCALE);
}

#[test]
fn test_vector3_div() {
    let x = Vector3 { x: 10 * SCALE, y: 10 * SCALE, z: 10 * SCALE };
    let y = Vector3 { x: 2 * SCALE, y: 2 * SCALE, z: 2 * SCALE };

    let div = x.div(y);

    assert_eq!(div.x, 5 * SCALE);
    assert_eq!(div.y, 5 * SCALE);
    assert_eq!(div.z, 5 * SCALE);
}

#[test]
fn test_vector3_length() {
    let x = Vector3 { x: 3 * SCALE, y: 3 * SCALE, z: 3 * SCALE };

    let length = x.length();

    assert_eq!(length, 340535);
    let expected = 27f64.sqrt() * SCALE as f64;
    assert!((length as f64 - expected).abs() <= 1.0);
}

#[test]
fn test_vector3_unit() {
    let y = Vector3 { x: 3 * SCALE, y: 3 * SCALE, z: 3 * SCALE };

    let unit = Vector3::unit(&y);

    assert_eq!(unit, Vector3 { x: 37837, y: 37837, z: 37837 });
    let expected = (1.0f64 / 3f64.sqrt()) * SCALE as f64;
    assert!((unit.x as f64 - expected).abs() <= 1.0);
}

#[test]
fn test_vector3_mul_by_i64() {
    let x = Vector3 { x: 2 * SCALE, y: 2 * SCALE, z: 2 * SCALE };
    let y: i64 = 2;

    let mul = x.scale(y * SCALE);

    assert_eq!(mul.x, 4 * SCALE);
    assert_eq!(mul.y, 4 * SCALE);
    assert_eq!(mul.z, 4 * SCALE);
}

#[test]
fn test_vector3_mul_by_f64() {
    let x = Vector3 { x: 2 * SCALE, y: 2 * SCALE, z: 2 * SCALE };
    let y = 2 * SCALE;

    let mul = x.scale(y);

    assert_eq!(mul.x, 4 * SCALE);
    assert_eq!(mul.y, 4 * SCALE);
    assert_eq!(mul.z, 4 * SCALE);
}

#[test]
fn test_vector3_neg() {
    let x = Vector3 { x: 2 * SCALE, y: 2 * SCALE, z: 2 * SCALE };

    let neg = x.neg();

    assert_eq!(neg.x, -2 * SCALE);
    assert_eq!(neg.y, -2 * SCALE);
    assert_eq!(neg.z, -2 * SCALE);
}

#[test]
fn test_vector3_scalar_multiplication() {
    let v = Vector3::new(SCALE, 2 * SCALE, 3 * SCALE);
    let scalar = 2 * SCALE;

    let mul = v.scale(scalar);

    assert_eq!(mul.x, 2 * SCALE);
    assert_eq!(mul.y, 4 * SCALE);
    assert_eq!(mul.z, 6 * SCALE);
}

#[test]
fn test_random_components_in_range() {
    let mut rng = RandomStream::new(7);
    for _ in 0..100 {
        let v = Vector3::random(&mut rng);
        assert!(0 <= v.x && v.x < SCALE);
        assert!(0 <= v.y && v.y < SCALE);
        assert!(0 <= v.z && v.z < SCALE);
        let w = Vector3::random_range(&mut rng, -3 * SCALE, 5 * SCALE);
        assert!(-3 * SCALE <= w.x && w.x < 5 * SCALE);
        assert!(-3 * SCALE <= w.y && w.y < 5 * SCALE);
        assert!(-3 * SCALE <= w.z && w.z < 5 * SCALE);
    }
}

#[test]
fn test_random_draws_vary() {
    let mut rng = RandomStream::new(7);
    let first = Vector3::random(&mut rng);
    let mut saw_other = false;
    for _ in 0..100 {
        if Vector3::random(&mut rng) != first {
            saw_other = true;
        }
    }
    assert!(saw_other);
}

#[test]
fn test_random_unit_vector_near_unit_length() {
    let mut rng = RandomStream::new(11);
    for _ in 0..50 {
        let u = Vector3::random_unit_vector(&mut rng);
        let len = u.length();
        assert!((len - SCALE).abs() <= 32);
    }
}

#[test]
fn test_random_on_hemisphere_agrees_with_normal() {
    let mut rng = RandomStream::new(13);
    let normals = [
        Vector3::new(0, 0, SCALE),
        Vector3::new(0, -SCALE, 0),
        Vector3::new(SCALE, SCALE, 0),
        Vector3::new(-12345, 678, -90123),
    ];
    for normal in normals.iter() {
        for _ in 0..50 {
            let v = Vector3::random_on_hemisphere(&mut rng, normal);
            assert!(Vector3::dot(&v, normal) >= 0);
        }
    }
}

#[test]
fn test_dot_and_length_squared() {
    let a = Vector3::new(SCALE, 2 * SCALE, 3 * SCALE);
    let b = Vector3::new(4 * SCALE, -5 * SCALE, 6 * SCALE);
    assert_eq!(Vector3::dot(&a, &b), (4 - 10 + 18) * SCALE);
    assert_eq!(a.length_squared(), 14 * SCALE);
    assert_eq!(a.normalize(), 14 * SCALE);
}
