use color_blender::color::Color;
use color_blender::color_blender::{
    distance_squared, distance_squared_checked, ColorBlender, ColorConverter,
};
use color_blender::error::ColorError;

#[test]
fn color_blending() {
    let blender = ColorBlender::new("#ff0000".to_string(), "#00ff00".to_string(), 5);
    let blended_colors = blender.blend_colors().unwrap();
    assert_eq!(blended_colors.len(), 7);
}

#[test]
fn hex_to_rgb_converting() {
    let rgb_result = ColorConverter::hex_to_rgb("#ff0000").unwrap();
    assert_eq!(rgb_result, (255, 0, 0));
}

#[test]
fn blend_colors_exact_values() {
    let blender = ColorBlender::new("#ff0000".to_string(), "#00ff00".to_string(), 5);
    let v = blender.blend_colors().unwrap();
    assert_eq!(
        v,
        vec![
            "#ff0000", "#d52b00", "#aa5500", "#808000", "#55aa00", "#2bd500", "#00ff00",
        ]
    );
}

#[test]
fn blend_colors_error_kinds() {
    let bad_start = ColorBlender::new("red".to_string(), "#00ff00".to_string(), 2);
    assert!(matches!(
        bad_start.blend_colors(),
        Err(ColorError::WrongFormat(_))
    ));
    let bad_end = ColorBlender::new("#ff0000".to_string(), "#zz0000".to_string(), 2);
    assert!(matches!(
        bad_end.blend_colors(),
        Err(ColorError::ParseError(_))
    ));
}

#[test]
fn default_blender() {
    let b = ColorBlender::default();
    assert_eq!(b.start_color, "#000000");
    assert_eq!(b.end_color, "#ffffff");
    assert_eq!(b.precision, 10);
    let v = b.blend_colors().unwrap();
    assert_eq!(v.len(), 12);
}

#[test]
fn rgb_to_hex_renders() {
    let c = Color::from((255u8, 0u8, 0u8));
    assert_eq!(ColorConverter::rgb_to_hex(c), "#ff0000");
}

#[test]
fn hex_to_rgb_rejects_missing_hash() {
    assert!(matches!(
        ColorConverter::hex_to_rgb("ff0000"),
        Err(ColorError::WrongFormat(_))
    ));
}

#[test]
fn distance_zero_for_identical() {
    let c = Color::from((7u8, 8u8, 9u8));
    let d = distance_squared(&c, &c);
    assert_eq!(d.num, 0);
}

#[test]
fn distance_symmetric() {
    let a = Color::from((255u8, 0u8, 0u8));
    let b = Color::from((0u8, 128u8, 64u8));
    let d1 = distance_squared(&a, &b);
    let d2 = distance_squared(&b, &a);
    assert_eq!(d1, d2);
}

#[test]
fn distance_red_to_green_is_two() {
    // the squared normalized distance between pure red and pure green is 2
    let a = Color::from((255u8, 0u8, 0u8));
    let b = Color::from((0u8, 255u8, 0u8));
    let d = distance_squared(&a, &b);
    assert_eq!(d.num, 2 * d.den);
}

#[test]
fn distance_checked_accepts_byte_colors() {
    let a = Color::from((1u8, 2u8, 3u8));
    let d = distance_squared_checked(&a, &a).unwrap();
    assert_eq!(d.num, 0);
}
