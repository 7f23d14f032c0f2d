use color_blender::color::{Blend, Color};
use color_blender::error::ColorError;
use color_blender::frac::Frac;

#[test]
fn from_u8_tuple() {
    let c = Color::from((128u8, 64u8, 255u8));
    let arr = c.to_array();
    assert_eq!(arr[0], Frac { num: 128, den: 255 });
    assert_eq!(arr[1], Frac { num: 64, den: 255 });
    assert_eq!(arr[2], Frac { num: 255, den: 255 });
}

#[test]
fn to_hex_and_from_hex_roundtrip() {
    let original = Color::from((200u8, 100u8, 50u8));
    let hex = original.to_hex();
    assert_eq!(hex, "#c86432");
    let parsed = Color::from_hex(&hex).unwrap();
    // parsing the rendered text returns the exact original channels
    assert_eq!(parsed.to_array()[0], original.to_array()[0]);
    assert_eq!(parsed.to_array()[1], original.to_array()[1]);
    assert_eq!(parsed.to_array()[2], original.to_array()[2]);
}

#[test]
fn invalid_hex_rejected() {
    assert!(Color::from_hex("ff0000").is_err()); // missing '#'
    assert!(Color::from_hex("#ff").is_err()); // too short
    assert!(Color::from_hex("#gg0000").is_err()); // invalid hex digits
}

#[test]
fn color_blend_length() {
    let start = Color::from((255u8, 0u8, 0u8)); // red
    let end = Color::from((0u8, 255u8, 0u8)); // green
    let blended = start.blend(end, 5);
    assert_eq!(blended.len(), 7);
    // first should be exactly start, last exactly end
    assert_eq!(blended.first().unwrap(), &start);
    assert_eq!(blended.last().unwrap(), &end);
}

#[test]
fn color_blend_unique() {
    let a = Color::from((10u8, 20u8, 30u8));
    let b = a; // same color
               // with zero midpoints, blend returns [a, b]; blend_unique dedupes to [a].
    let blended = a.blend_unique(b, 0);
    assert_eq!(blended.len(), 1);
    assert_eq!(blended[0], a);
}

#[test]
fn ordering_and_equality() {
    let c1 = Color::from((100u8, 150u8, 200u8));
    let c2 = Color::from((100u8, 150u8, 200u8));
    let c3 = Color::from((100u8, 150u8, 201u8));
    assert_eq!(c1, c2);
    assert!(c1 < c3);
}

#[test]
fn equality_by_value_not_representation() {
    // 1/2 and 2/4 denote the same channel value
    let a = Color::new(
        Frac { num: 1, den: 2 },
        Frac { num: 0, den: 1 },
        Frac { num: 1, den: 1 },
    )
    .unwrap();
    let b = Color::new(
        Frac { num: 2, den: 4 },
        Frac { num: 0, den: 3 },
        Frac { num: 5, den: 5 },
    )
    .unwrap();
    assert_eq!(a, b);
}

#[test]
fn new_rejects_out_of_range() {
    let good = Frac { num: 1, den: 2 };
    let above_one = Frac { num: 2, den: 1 };
    let zero_denominator = Frac { num: 0, den: 0 };
    assert!(matches!(
        Color::new(above_one, good, good),
        Err(ColorError::OutOfRange(_))
    ));
    assert!(matches!(
        Color::new(good, zero_denominator, good),
        Err(ColorError::OutOfRange(_))
    ));
    let ok = Color::new(good, good, good).unwrap();
    assert_eq!(ok.to_array()[0], good);
}

#[test]
fn wrong_format_and_parse_error_kinds() {
    assert!(matches!(
        Color::from_hex("ff0000"),
        Err(ColorError::WrongFormat(_))
    ));
    assert!(matches!(
        Color::from_hex("#gg0000"),
        Err(ColorError::ParseError(_))
    ));
}

#[test]
fn parse_error_names_offending_group() {
    match Color::from_hex("#aagg42") {
        Err(ColorError::ParseError(p)) => assert_eq!(p, "gg"),
        _ => panic!("expected a parse error"),
    }
}

#[test]
fn from_hex_uppercase_accepted() {
    let c = Color::from_hex("#C86432").unwrap();
    assert_eq!(c.to_hex(), "#c86432");
}

#[test]
fn to_u8_array_returns_bytes() {
    let c = Color::from((200u8, 100u8, 50u8));
    assert_eq!(c.to_u8_array(), [200, 100, 50]);
}

#[test]
fn blend_self_all_equal() {
    let c = Color::from((12u8, 34u8, 56u8));
    let v = c.blend(c, 4);
    assert_eq!(v.len(), 6);
    for x in &v {
        assert_eq!(x, &c);
    }
}

#[test]
fn blend_zero_midpoints_two_elements() {
    let a = Color::from((1u8, 2u8, 3u8));
    let b = Color::from((4u8, 5u8, 6u8));
    let v = a.blend(b, 0);
    assert_eq!(v.len(), 2);
    assert_eq!(v[0], a);
    assert_eq!(v[1], b);
}

#[test]
fn blend_unique_distinct_endpoints_keeps_all() {
    let a = Color::from((1u8, 2u8, 3u8));
    let b = Color::from((4u8, 5u8, 6u8));
    let v = a.blend_unique(b, 0);
    assert_eq!(v.len(), 2);
    assert_eq!(v[0], a);
    assert_eq!(v[1], b);
}
