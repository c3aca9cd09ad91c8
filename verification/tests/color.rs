use raytracer::color::Color;

#[test]
fn test_new() {
    let color = Color::new(300, -20, 256);
    assert_eq!(color.red, 255);
    assert_eq!(color.green, 0);
    assert_eq!(color.blue, 255);
}

#[test]
fn test_from_hex() {
    let color = Color::from_hex(0xFF00FF);
    assert_eq!(color.red, 255);
    assert_eq!(color.green, 0);
    assert_eq!(color.blue, 255);
}

#[test]
fn test_to_hex() {
    let color = Color::new(255, 0, 255);
    assert_eq!(color.to_hex(), 0xFF00FF);
}

#[test]
fn test_add() {
    let color1 = Color::new(100, 150, 200);
    let color2 = Color::new(155, 105, 60);
    let result = color1 + color2;
    assert_eq!(result.red, 255);
    assert_eq!(result.green, 255);
    assert_eq!(result.blue, 255);
}

#[test]
fn test_display() {
    let color = Color::new(255, 0, 255);
    assert_eq!(color.to_string(), "Color: R=255, G=0, B=255");
}

#[test]
fn new_keeps_in_range_channels() {
    let color = Color::new(0, 128, 255);
    assert_eq!(color, Color { red: 0, green: 128, blue: 255 });
    let low = Color::new(i32::MIN, -1, i32::MAX);
    assert_eq!(low, Color { red: 0, green: 0, blue: 255 });
}

#[test]
fn black_is_all_zero() {
    assert_eq!(Color::black(), Color { red: 0, green: 0, blue: 0 });
}

#[test]
fn from_hex_ignores_high_byte() {
    let color = Color::from_hex(0xAB12_34CD);
    assert_eq!(color, Color { red: 0x12, green: 0x34, blue: 0xCD });
    assert_eq!(color.to_hex(), 0x0012_34CD);
}

#[test]
fn hex_round_trip() {
    let color = Color::new(1, 2, 3);
    assert_eq!(color.to_hex(), 0x010203);
    assert_eq!(Color::from_hex(color.to_hex()), color);
}

#[test]
fn add_without_saturation() {
    let sum = Color::new(10, 20, 30) + Color::new(1, 2, 3);
    assert_eq!(sum, Color { red: 11, green: 22, blue: 33 });
}

#[test]
fn add_laws_on_examples() {
    let a = Color::new(200, 10, 0);
    let b = Color::new(100, 20, 255);
    let c = Color::new(3, 250, 7);
    assert_eq!(a + b, b + a);
    assert_eq!((a + b) + c, a + (b + c));
    assert_eq!(a + Color::black(), a);
    assert_eq!(Color::black() + a, a);
}

#[test]
fn display_digit_counts() {
    assert_eq!(Color::new(0, 7, 42).to_string(), "Color: R=0, G=7, B=42");
    assert_eq!(Color::new(100, 10, 9).to_string(), "Color: R=100, G=10, B=9");
}
