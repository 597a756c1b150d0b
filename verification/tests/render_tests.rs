use ray_tracer::color::Color;
use ray_tracer::fixed::SCALE;
use ray_tracer::render::render_pixel;

#[test]
fn test_render_pixel_white() {
    let mut buffer = Vec::new();
    let color = Color { red: SCALE, green: SCALE, blue: SCALE };
    render_pixel(&mut buffer, color);

    let result = buffer.join("");
    assert_eq!(result, "255 255 255\n");
}

#[test]
fn test_render_pixel_black() {
    let mut buffer = Vec::new();
    let color = Color { red: 0, green: 0, blue: 0 };
    render_pixel(&mut buffer, color);

    let result = buffer.join("");
    assert_eq!(result, "0 0 0\n");
}

#[test]
fn test_render_pixel_red() {
    let mut buffer = Vec::new();
    let color = Color { red: SCALE, green: 0, blue: 0 };
    render_pixel(&mut buffer, color);

    let result = buffer.join("");
    assert_eq!(result, "255 0 0\n");
}

#[test]
fn test_render_pixel_fractional() {
    let mut buffer = Vec::new();
    let color = Color { red: SCALE / 2, green: SCALE / 4, blue: 3 * SCALE / 4 };
    render_pixel(&mut buffer, color);

    let result = buffer.join("");
    assert_eq!(result, "128 64 192\n");
}

#[test]
fn test_render_pixel_rounding() {
    let mut buffer = Vec::new();
    // 0.999 and 0.001, as fixed-point values rounded down.
    let color = Color { red: 65470, green: 65, blue: SCALE / 2 };
    render_pixel(&mut buffer, color);

    let result = buffer.join("");
    assert_eq!(result, "255 0 128\n");
}

#[test]
fn test_render_pixel_clamping() {
    let mut buffer = Vec::new();
    // 1.1, -0.1 and 2.0: out-of-range channels clamp to the endpoints.
    let color = Color { red: 72090, green: -6554, blue: 2 * SCALE };
    render_pixel(&mut buffer, color);

    let result = buffer.join("");
    assert_eq!(result, "255 0 255\n");
}

#[test]
fn test_render_pixel_appends() {
    let mut buffer = vec![String::from("P3\n")];
    render_pixel(&mut buffer, Color { red: 0, green: SCALE / 2, blue: SCALE });
    assert_eq!(buffer.len(), 2);
    assert_eq!(buffer[0], "P3\n");
    assert_eq!(buffer[1], "0 128 255\n");
}

#[test]
fn test_color_ops() {
    let a = Color::new(SCALE / 2, SCALE / 4, 0);
    let b = Color::new(SCALE / 4, SCALE / 4, SCALE);
    let sum = a.add(b);
    assert_eq!(sum, Color::new(3 * SCALE / 4, SCALE / 2, SCALE));
    let halved = sum.mul(SCALE / 2);
    assert_eq!(halved, Color::new(3 * SCALE / 8, SCALE / 4, SCALE / 2));
}
