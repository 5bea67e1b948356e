use roblox_mcp::json::{JsonNumber, JsonValue, json_text};
use roblox_mcp::props::{decode, decode_property, Decoded, DecodeError, PropertyValue, ONE_BITS};

/// A JSON number as the surrounding process would read it from a document.
fn jnum(x: f64) -> JsonValue {
    let int_val = if x.fract() == 0.0 && x >= i64::MIN as f64 && x <= i64::MAX as f64 {
        Some(x as i64)
    } else {
        None
    };
    let uint_val = if x.fract() == 0.0 && x >= 0.0 && x <= u64::MAX as f64 {
        Some(x as u64)
    } else {
        None
    };
    JsonValue::Num(JsonNumber { bits: x.to_bits(), int_val, uint_val, text: format!("{}", x) })
}

fn jstr(s: &str) -> JsonValue {
    JsonValue::Text(s.to_string())
}

fn arr(items: Vec<JsonValue>) -> JsonValue {
    JsonValue::Arr(items)
}

fn obj(fields: Vec<(&str, JsonValue)>) -> JsonValue {
    JsonValue::Obj(fields.into_iter().map(|(k, v)| (k.to_string(), v)).collect())
}

#[test]
fn vector3_array_roundtrips_components() {
    let v = arr(vec![jnum(10.0), jnum(5.0), jnum(10.0)]);
    match decode("Vector3", &v) {
        Ok(Decoded::Keep(PropertyValue::Vector3(bits))) => {
            assert_eq!(f64::from_bits(bits.x), 10.0);
            assert_eq!(f64::from_bits(bits.y), 5.0);
            assert_eq!(f64::from_bits(bits.z), 10.0);
            assert_eq!(f64::from_bits(bits.x) as f32, 10.0f32);
        }
        _ => panic!("expected a vector"),
    }
}

#[test]
fn vector3_object_form_with_defaults() {
    let v = obj(vec![("x", jnum(1.5)), ("z", jnum(-2.0))]);
    match decode("Vector3", &v) {
        Ok(Decoded::Keep(PropertyValue::Vector3(bits))) => {
            assert_eq!(f64::from_bits(bits.x), 1.5);
            assert_eq!(f64::from_bits(bits.y), 0.0);
            assert_eq!(f64::from_bits(bits.z), -2.0);
        }
        _ => panic!("expected a vector"),
    }
}

#[test]
fn color3_array_roundtrips_components() {
    let v = arr(vec![jnum(0.25), jnum(0.5), jnum(1.0)]);
    match decode("Color3", &v) {
        Ok(Decoded::Keep(PropertyValue::Color3 { r, g, b })) => {
            assert_eq!(f64::from_bits(r), 0.25);
            assert_eq!(f64::from_bits(g), 0.5);
            assert_eq!(f64::from_bits(b), 1.0);
        }
        _ => panic!("expected a color"),
    }
}

#[test]
fn unknown_tags_are_skipped_not_errors() {
    for tag in ["Color3uint8", "Vector2", "Ref", "Font", "NumberRange", ""] {
        match decode(tag, &jnum(1.0)) {
            Ok(Decoded::Skipped) => {}
            _ => panic!("tag {:?} should be skipped", tag),
        }
        match decode(tag, &jstr("anything")) {
            Ok(Decoded::Skipped) => {}
            _ => panic!("tag {:?} should be skipped", tag),
        }
    }
}

#[test]
fn cframe_without_rotation_uses_identity() {
    let v = obj(vec![("position", arr(vec![jnum(1.0), jnum(2.0), jnum(3.0)]))]);
    match decode("CFrame", &v) {
        Ok(Decoded::Keep(PropertyValue::CFrame { position, rotation })) => {
            assert_eq!(f64::from_bits(position.x), 1.0);
            assert_eq!(f64::from_bits(position.y), 2.0);
            assert_eq!(f64::from_bits(position.z), 3.0);
            assert_eq!(rotation.r00, ONE_BITS);
            assert_eq!(rotation.r11, ONE_BITS);
            assert_eq!(rotation.r22, ONE_BITS);
            assert_eq!(rotation.r01, 0);
            assert_eq!(rotation.r02, 0);
            assert_eq!(rotation.r10, 0);
            assert_eq!(rotation.r12, 0);
            assert_eq!(rotation.r20, 0);
            assert_eq!(rotation.r21, 0);
            assert_eq!(f64::from_bits(rotation.r00), 1.0);
        }
        _ => panic!("expected a cframe"),
    }
}

#[test]
fn cframe_with_full_rotation_matrix() {
    let rot: Vec<JsonValue> = [1.0, 0.0, 0.0, 0.0, 0.0, -1.0, 0.0, 1.0, 0.0]
        .iter()
        .map(|x| jnum(*x))
        .collect();
    let v = obj(vec![
        ("position", obj(vec![("x", jnum(4.0)), ("y", jnum(5.0)), ("z", jnum(6.0))])),
        ("rotation", arr(rot)),
    ]);
    match decode("CFrame", &v) {
        Ok(Decoded::Keep(PropertyValue::CFrame { position, rotation })) => {
            assert_eq!(f64::from_bits(position.x), 4.0);
            assert_eq!(f64::from_bits(rotation.r12), -1.0);
            assert_eq!(f64::from_bits(rotation.r21), 1.0);
            assert_eq!(f64::from_bits(rotation.r11), 0.0);
        }
        _ => panic!("expected a cframe"),
    }
}

#[test]
fn cframe_three_element_rotation_collapses_to_identity() {
    let v = obj(vec![
        ("position", arr(vec![jnum(0.0), jnum(0.0), jnum(0.0)])),
        ("rotation", arr(vec![jnum(90.0), jnum(0.0), jnum(0.0)])),
    ]);
    match decode("CFrame", &v) {
        Ok(Decoded::Keep(PropertyValue::CFrame { rotation, .. })) => {
            assert_eq!(rotation.r00, ONE_BITS);
            assert_eq!(rotation.r01, 0);
        }
        _ => panic!("expected a cframe"),
    }
}

#[test]
fn decode_error_inputs() {
    let cases: Vec<(&str, JsonValue, DecodeError)> = vec![
        ("Vector3", arr(vec![jnum(1.0), jnum(2.0)]), DecodeError::Vector3WrongLength),
        ("Vector3", jstr("no"), DecodeError::Vector3BadShape),
        (
            "CFrame",
            obj(vec![("position", arr(vec![jnum(1.0)]))]),
            DecodeError::CFramePositionWrongLength,
        ),
        (
            "CFrame",
            obj(vec![("position", JsonValue::Bool(true))]),
            DecodeError::CFramePositionBadShape,
        ),
        ("CFrame", obj(vec![]), DecodeError::CFrameMissingPosition),
        ("CFrame", arr(vec![]), DecodeError::CFrameBadShape),
        ("BrickColor", jnum(9999.0), DecodeError::BrickColorUnknown(9999)),
        ("BrickColor", jstr("red"), DecodeError::BrickColorBadShape),
        ("Bool", jnum(1.0), DecodeError::BoolBadShape),
        ("Number", jstr("x"), DecodeError::FloatBadShape),
        ("Float", JsonValue::Bool(false), DecodeError::FloatBadShape),
        ("Int", jstr("x"), DecodeError::IntBadShape),
        ("Enum", jstr("x"), DecodeError::EnumBadShape),
        ("Enum", jnum(5_000_000_000.0), DecodeError::EnumOutOfRange),
        ("Color3", arr(vec![jnum(1.0)]), DecodeError::Color3WrongLength),
        ("Color3", obj(vec![]), DecodeError::Color3BadShape),
        ("UDim2", arr(vec![jnum(1.0), jnum(2.0), jnum(3.0)]), DecodeError::UDim2WrongLength),
        ("UDim2", jnum(5.0), DecodeError::UDim2BadShape),
    ];
    for (tag, value, expected) in cases {
        match decode(tag, &value) {
            Err(e) => assert_eq!(e, expected),
            Ok(_) => panic!("tag {:?} should have failed", tag),
        }
    }
}

#[test]
fn brick_color_palette_numbers() {
    match decode("BrickColor", &jnum(194.0)) {
        Ok(Decoded::Keep(PropertyValue::BrickColor(n))) => assert_eq!(n, 194),
        _ => panic!("194 is a palette number"),
    }
    match decode("BrickColor", &jnum(1030.0)) {
        Ok(Decoded::Keep(PropertyValue::BrickColor(n))) => assert_eq!(n, 1030),
        _ => panic!("1030 is a palette number"),
    }
}

#[test]
fn bool_and_numeric_tags() {
    match decode("Bool", &JsonValue::Bool(true)) {
        Ok(Decoded::Keep(PropertyValue::Bool(b))) => assert!(b),
        _ => panic!("expected a bool"),
    }
    match decode("Float32", &jnum(2.5)) {
        Ok(Decoded::Keep(PropertyValue::Float32(bits))) => {
            assert_eq!(f64::from_bits(bits) as f32, 2.5f32)
        }
        _ => panic!("expected a float"),
    }
    match decode("Int32", &jnum(42.0)) {
        Ok(Decoded::Keep(PropertyValue::Int32(n))) => assert_eq!(n, 42),
        _ => panic!("expected an int"),
    }
    // A non-integral number reads as zero, as the signed reading is absent.
    match decode("Int", &jnum(3.7)) {
        Ok(Decoded::Keep(PropertyValue::Int32(n))) => assert_eq!(n, 0),
        _ => panic!("expected an int"),
    }
    match decode("Enum", &jnum(288.0)) {
        Ok(Decoded::Keep(PropertyValue::EnumValue(n))) => assert_eq!(n, 288),
        _ => panic!("expected an enum"),
    }
    // A non-integral number reads as one for an enum.
    match decode("Enum", &jnum(2.5)) {
        Ok(Decoded::Keep(PropertyValue::EnumValue(n))) => assert_eq!(n, 1),
        _ => panic!("expected an enum"),
    }
}

#[test]
fn udim2_scales_and_offsets() {
    let v = arr(vec![jnum(0.5), jnum(10.0), jnum(0.25), jnum(-5.0)]);
    match decode("UDim2", &v) {
        Ok(Decoded::Keep(PropertyValue::UDim2 { x_scale, x_offset, y_scale, y_offset })) => {
            assert_eq!(f64::from_bits(x_scale), 0.5);
            assert_eq!(x_offset, 10);
            assert_eq!(f64::from_bits(y_scale), 0.25);
            assert_eq!(y_offset, -5);
        }
        _ => panic!("expected a udim2"),
    }
}

#[test]
fn string_tag_keeps_text_and_coerces_the_rest() {
    match decode("String", &jstr("hello")) {
        Ok(Decoded::Keep(PropertyValue::Text(s))) => assert_eq!(s, "hello"),
        _ => panic!("expected text"),
    }
    match decode("String", &jnum(42.0)) {
        Ok(Decoded::Keep(PropertyValue::Text(s))) => assert_eq!(s, "42"),
        _ => panic!("expected text"),
    }
    match decode("String", &arr(vec![JsonValue::Bool(true), JsonValue::Null])) {
        Ok(Decoded::Keep(PropertyValue::Text(s))) => assert_eq!(s, "[true,null]"),
        _ => panic!("expected text"),
    }
}

#[test]
fn json_text_renders_compact_form() {
    let v = obj(vec![
        ("a", jstr("b\"c\\d")),
        ("b", arr(vec![JsonValue::Null, JsonValue::Bool(false), jnum(7.0)])),
    ]);
    assert_eq!(json_text(&v), "{\"a\":\"b\\\"c\\\\d\",\"b\":[null,false,7]}");
    assert_eq!(json_text(&jstr("tab\there")), "\"tab\\there\"");
    assert_eq!(json_text(&jstr("line\nfeed")), "\"line\\nfeed\"");
    assert_eq!(json_text(&jstr("ctl\u{1}x")), "\"ctl\\u0001x\"");
    assert_eq!(json_text(&jstr("esc\u{1f}y")), "\"esc\\u001fy\"");
    assert_eq!(json_text(&JsonValue::Null), "null");
    assert_eq!(json_text(&obj(vec![])), "{}");
    assert_eq!(json_text(&arr(vec![])), "[]");
}

#[test]
fn script_source_special_case() {
    // A string-valued Source property of a script class is taken as text,
    // whatever the declared tag says.
    match decode_property("Script", "Source", "Int", &jstr("print(1)")) {
        Ok(Decoded::Keep(PropertyValue::Text(s))) => assert_eq!(s, "print(1)"),
        _ => panic!("expected the source text"),
    }
    // On a non-script class the tag rules still apply.
    match decode_property("Part", "Source", "Int", &jstr("x")) {
        Err(DecodeError::IntBadShape) => {}
        _ => panic!("expected the tag rules"),
    }
    // A non-string Source falls back to the tag rules too.
    match decode_property("LocalScript", "Source", "Int", &jnum(5.0)) {
        Ok(Decoded::Keep(PropertyValue::Int32(n))) => assert_eq!(n, 5),
        _ => panic!("expected an int"),
    }
}

#[test]
fn decode_error_messages_name_the_shape() {
    assert_eq!(DecodeError::Vector3WrongLength.message(), "Vector3 must have 3 components");
    assert_eq!(DecodeError::CFrameMissingPosition.message(), "CFrame missing position");
    assert_eq!(DecodeError::Color3BadShape.message(), "Color3 must be an array");
}
