//! Typed property values and the codec that decodes them.
//!
//! A property arrives as a pair of a type tag and an untyped JSON value. The
//! codec turns the pair into one strongly typed value, rejects a malformed
//! value of a known tag, and skips a tag outside the supported set. Numeric
//! components are carried as 64-bit IEEE-754 bit patterns; the consumer that
//! hands the graph back to its persisted form narrows them to the native
//! widths of the target properties.

use vstd::prelude::*;
use crate::json::{JsonValue, JsonModel, JsonNumberModel, json_get, json_arr_model,
    json_text_model, lemma_json_arr_model};

verus! {

/// Three numeric components, each a 64-bit IEEE-754 bit pattern.
#[derive(Clone, Copy, PartialEq, Eq, Structural, Debug)]
pub struct Vector3Bits {
    pub x: u64,
    pub y: u64,
    pub z: u64,
}

/// A row-major 3-by-3 matrix of 64-bit IEEE-754 bit patterns.
#[derive(Clone, Copy, PartialEq, Eq, Structural, Debug)]
pub struct Matrix3Bits {
    pub r00: u64,
    pub r01: u64,
    pub r02: u64,
    pub r10: u64,
    pub r11: u64,
    pub r12: u64,
    pub r20: u64,
    pub r21: u64,
    pub r22: u64,
}

/// Bit pattern of 1.0 as a 64-bit IEEE-754 value.
pub const ONE_BITS: u64 = 0x3FF0_0000_0000_0000;

impl Matrix3Bits {
    /// The identity matrix.
    pub open spec fn spec_identity() -> Matrix3Bits {
        Matrix3Bits {
            r00: ONE_BITS,
            r01: 0,
            r02: 0,
            r10: 0,
            r11: ONE_BITS,
            r12: 0,
            r20: 0,
            r21: 0,
            r22: ONE_BITS,
        }
    }

    /// Builds the identity matrix.
    pub fn identity() -> (r: Matrix3Bits)
        ensures
            r == Matrix3Bits::spec_identity(),
    {
        Matrix3Bits {
            r00: ONE_BITS,
            r01: 0,
            r02: 0,
            r10: 0,
            r11: ONE_BITS,
            r12: 0,
            r20: 0,
            r21: 0,
            r22: ONE_BITS,
        }
    }
}

/// One decoded, strongly typed property value.
pub enum PropertyValue {
    /// A three-component vector.
    Vector3(Vector3Bits),
    /// A position together with a rotation matrix.
    CFrame { position: Vector3Bits, rotation: Matrix3Bits },
    /// An RGB triple of components in [0, 1].
    Color3 { r: u64, g: u64, b: u64 },
    /// A palette color, by its number.
    BrickColor(u16),
    Bool(bool),
    /// A number to be narrowed to a 32-bit float by the consumer.
    Float32(u64),
    Int32(i32),
    /// An enum value carrying its raw integer.
    EnumValue(u32),
    Text(String),
    /// Two (scale, offset) pairs, for the x and the y axis.
    UDim2 { x_scale: u64, x_offset: i32, y_scale: u64, y_offset: i32 },
}

/// Mathematical image of a [`PropertyValue`].
pub enum PropModel {
    Vector3(Vector3Bits),
    CFrame { position: Vector3Bits, rotation: Matrix3Bits },
    Color3 { r: u64, g: u64, b: u64 },
    BrickColor(u16),
    Bool(bool),
    Float32(u64),
    Int32(i32),
    EnumValue(u32),
    Text(Seq<char>),
    UDim2 { x_scale: u64, x_offset: i32, y_scale: u64, y_offset: i32 },
}

impl View for PropertyValue {
    type V = PropModel;

    open spec fn view(&self) -> PropModel {
        match *self {
            PropertyValue::Vector3(v) => PropModel::Vector3(v),
            PropertyValue::CFrame { position, rotation } => PropModel::CFrame {
                position,
                rotation,
            },
            PropertyValue::Color3 { r, g, b } => PropModel::Color3 { r, g, b },
            PropertyValue::BrickColor(n) => PropModel::BrickColor(n),
            PropertyValue::Bool(b) => PropModel::Bool(b),
            PropertyValue::Float32(n) => PropModel::Float32(n),
            PropertyValue::Int32(n) => PropModel::Int32(n),
            PropertyValue::EnumValue(n) => PropModel::EnumValue(n),
            PropertyValue::Text(ref s) => PropModel::Text(s@),
            PropertyValue::UDim2 { x_scale, x_offset, y_scale, y_offset } => PropModel::UDim2 {
                x_scale,
                x_offset,
                y_scale,
                y_offset,
            },
        }
    }
}

impl PropertyValue {
    /// Builds a value with the same image.
    pub fn duplicate(&self) -> (r: PropertyValue)
        ensures
            r@ == self@,
    {
        match self {
            PropertyValue::Vector3(v) => PropertyValue::Vector3(*v),
            PropertyValue::CFrame { position, rotation } => PropertyValue::CFrame {
                position: *position,
                rotation: *rotation,
            },
            PropertyValue::Color3 { r, g, b } => PropertyValue::Color3 { r: *r, g: *g, b: *b },
            PropertyValue::BrickColor(n) => PropertyValue::BrickColor(*n),
            PropertyValue::Bool(b) => PropertyValue::Bool(*b),
            PropertyValue::Float32(n) => PropertyValue::Float32(*n),
            PropertyValue::Int32(n) => PropertyValue::Int32(*n),
            PropertyValue::EnumValue(n) => PropertyValue::EnumValue(*n),
            PropertyValue::Text(s) => PropertyValue::Text(s.clone()),
            PropertyValue::UDim2 { x_scale, x_offset, y_scale, y_offset } => PropertyValue::UDim2 {
                x_scale: *x_scale,
                x_offset: *x_offset,
                y_scale: *y_scale,
                y_offset: *y_offset,
            },
        }
    }
}

/// Why a property value of a known type tag was rejected.
#[derive(Clone, Copy, PartialEq, Eq, Structural, Debug)]
pub enum DecodeError {
    /// A `Vector3` array without exactly three components.
    Vector3WrongLength,
    /// A `Vector3` value that is neither an array nor an object.
    Vector3BadShape,
    /// A `CFrame` position array without exactly three components.
    CFramePositionWrongLength,
    /// A `CFrame` position that is neither an array nor an object.
    CFramePositionBadShape,
    /// A `CFrame` object without a `position` field.
    CFrameMissingPosition,
    /// A `CFrame` value that is not an object.
    CFrameBadShape,
    /// A `BrickColor` number outside the known palette.
    BrickColorUnknown(u16),
    /// A `BrickColor` value that is not a number.
    BrickColorBadShape,
    /// A `Bool` value that is not a boolean.
    BoolBadShape,
    /// A `Number`, `Float` or `Float32` value that is not a number.
    FloatBadShape,
    /// An `Int` or `Int32` value that is not a number.
    IntBadShape,
    /// An `Enum` value that is not a number.
    EnumBadShape,
    /// An `Enum` number too large for a raw enum value.
    EnumOutOfRange,
    /// A `Color3` array without exactly three components.
    Color3WrongLength,
    /// A `Color3` value that is not an array.
    Color3BadShape,
    /// A `UDim2` array without exactly four components.
    UDim2WrongLength,
    /// A `UDim2` value that is not an array.
    UDim2BadShape,
}

impl DecodeError {
    /// A short human-readable complaint about the value's shape.
    pub fn message(&self) -> (r: &'static str) {
        match self {
            DecodeError::Vector3WrongLength => "Vector3 must have 3 components",
            DecodeError::Vector3BadShape => "Vector3 must be an array or object",
            DecodeError::CFramePositionWrongLength => "CFrame position must have 3 components",
            DecodeError::CFramePositionBadShape => "CFrame position must be an array or object",
            DecodeError::CFrameMissingPosition => "CFrame missing position",
            DecodeError::CFrameBadShape => "CFrame must be an object with position and rotation",
            DecodeError::BrickColorUnknown(_) => "Invalid BrickColor number",
            DecodeError::BrickColorBadShape => "BrickColor must be a number",
            DecodeError::BoolBadShape => "Bool must be a boolean",
            DecodeError::FloatBadShape => "Number must be a numeric value",
            DecodeError::IntBadShape => "Int must be a numeric value",
            DecodeError::EnumBadShape => "Enum must be a numeric value",
            DecodeError::EnumOutOfRange => "Enum value is out of range",
            DecodeError::Color3WrongLength => "Color3 must have 3 components",
            DecodeError::Color3BadShape => "Color3 must be an array",
            DecodeError::UDim2WrongLength => (
            "UDim2 must have 4 components [xScale, xOffset, yScale, yOffset]"),
            DecodeError::UDim2BadShape => "UDim2 must be an array",
        }
    }
}

/// What decoding one property yields: a value, nothing (an unsupported tag),
/// or a rejection.
pub enum DecodeOutcome {
    /// The type tag lies outside the supported set; the property is dropped.
    Skip,
    /// The decoded value.
    Value(PropModel),
    /// A malformed value of a known tag.
    Fail(DecodeError),
}

/// A decoded property, or word that the tag was unsupported.
pub enum Decoded {
    /// The type tag lies outside the supported set; the property is dropped.
    Skipped,
    /// The decoded value.
    Keep(PropertyValue),
}

/// The outcome an executable decode result stands for.
pub open spec fn decoded_outcome(r: Result<Decoded, DecodeError>) -> DecodeOutcome {
    match r {
        Ok(Decoded::Skipped) => DecodeOutcome::Skip,
        Ok(Decoded::Keep(p)) => DecodeOutcome::Value(p@),
        Err(e) => DecodeOutcome::Fail(e),
    }
}

/// The number's bits, a non-number reading as zero.
pub open spec fn num_bits_of(m: JsonModel) -> u64 {
    match m {
        JsonModel::Num(n) => n.bits,
        _ => 0,
    }
}

/// The bits of a numeric field of an object, absent or non-numeric fields
/// reading as zero.
pub open spec fn field_num_bits(m: JsonModel, key: Seq<char>) -> u64 {
    match json_get(m, key) {
        Some(f) => num_bits_of(f),
        None => 0,
    }
}

/// Three components from a three-element array.
pub open spec fn vec3_from_items(items: Seq<JsonModel>) -> Vector3Bits {
    Vector3Bits { x: num_bits_of(items[0]), y: num_bits_of(items[1]), z: num_bits_of(items[2]) }
}

/// Three components from an object's `x`, `y` and `z` fields, missing
/// components defaulting to zero.
pub open spec fn vec3_from_obj(m: JsonModel) -> Vector3Bits {
    Vector3Bits {
        x: field_num_bits(m, "x"@),
        y: field_num_bits(m, "y"@),
        z: field_num_bits(m, "z"@),
    }
}

/// The palette number a `BrickColor` value names: the unsigned reading,
/// narrowed to 16 bits, a non-integer reading as one.
pub open spec fn brick_index(n: JsonNumberModel) -> u16 {
    match n.uint_val {
        Some(u) => u as u16,
        None => 1u16,
    }
}

/// The signed reading narrowed to 32 bits, a non-integer reading as zero.
pub open spec fn int32_of(m: JsonModel) -> i32 {
    match m {
        JsonModel::Num(n) => match n.int_val {
            Some(x) => x as i32,
            None => 0,
        },
        _ => 0,
    }
}

/// The rotation part of a `CFrame` object: a nine-element array read row by
/// row; anything else, a wrong length or a missing field falls back to the
/// identity matrix, never an error.
pub open spec fn rotation_spec(m: JsonModel) -> Matrix3Bits {
    match json_get(m, "rotation"@) {
        Some(rot) => match rot {
            JsonModel::Arr(items) => if items.len() == 9 {
                Matrix3Bits {
                    r00: num_bits_of(items[0]),
                    r01: num_bits_of(items[1]),
                    r02: num_bits_of(items[2]),
                    r10: num_bits_of(items[3]),
                    r11: num_bits_of(items[4]),
                    r12: num_bits_of(items[5]),
                    r20: num_bits_of(items[6]),
                    r21: num_bits_of(items[7]),
                    r22: num_bits_of(items[8]),
                }
            } else {
                Matrix3Bits::spec_identity()
            },
            _ => Matrix3Bits::spec_identity(),
        },
        None => Matrix3Bits::spec_identity(),
    }
}

/// Decoding a `CFrame`: an object whose `position` is read as a vector and
/// whose `rotation` falls back to the identity matrix.
pub open spec fn cframe_spec(m: JsonModel) -> DecodeOutcome {
    match m {
        JsonModel::Obj(fields) => match json_get(m, "position"@) {
            Some(pos) => match pos {
                JsonModel::Arr(items) => if items.len() == 3 {
                    DecodeOutcome::Value(
                        PropModel::CFrame {
                            position: vec3_from_items(items),
                            rotation: rotation_spec(m),
                        },
                    )
                } else {
                    DecodeOutcome::Fail(DecodeError::CFramePositionWrongLength)
                },
                JsonModel::Obj(pf) => DecodeOutcome::Value(
                    PropModel::CFrame { position: vec3_from_obj(pos), rotation: rotation_spec(m) },
                ),
                _ => DecodeOutcome::Fail(DecodeError::CFramePositionBadShape),
            },
            None => DecodeOutcome::Fail(DecodeError::CFrameMissingPosition),
        },
        _ => DecodeOutcome::Fail(DecodeError::CFrameBadShape),
    }
}

/// What decoding a `(type tag, value)` pair yields, for every tag and value:
/// the supported tags follow their coercion rules, any other tag is skipped.
pub open spec fn decode_spec(tag: Seq<char>, m: JsonModel) -> DecodeOutcome {
    if tag == "Vector3"@ {
        match m {
            JsonModel::Arr(items) => if items.len() == 3 {
                DecodeOutcome::Value(PropModel::Vector3(vec3_from_items(items)))
            } else {
                DecodeOutcome::Fail(DecodeError::Vector3WrongLength)
            },
            JsonModel::Obj(fields) => DecodeOutcome::Value(PropModel::Vector3(vec3_from_obj(m))),
            _ => DecodeOutcome::Fail(DecodeError::Vector3BadShape),
        }
    } else if tag == "CFrame"@ {
        cframe_spec(m)
    } else if tag == "String"@ {
        match m {
            JsonModel::Text(s) => DecodeOutcome::Value(PropModel::Text(s)),
            _ => DecodeOutcome::Value(PropModel::Text(json_text_model(m))),
        }
    } else if tag == "BrickColor"@ {
        match m {
            JsonModel::Num(n) => if brick_color_known(brick_index(n)) {
                DecodeOutcome::Value(PropModel::BrickColor(brick_index(n)))
            } else {
                DecodeOutcome::Fail(DecodeError::BrickColorUnknown(brick_index(n)))
            },
            _ => DecodeOutcome::Fail(DecodeError::BrickColorBadShape),
        }
    } else if tag == "Bool"@ {
        match m {
            JsonModel::Bool(b) => DecodeOutcome::Value(PropModel::Bool(b)),
            _ => DecodeOutcome::Fail(DecodeError::BoolBadShape),
        }
    } else if tag == "Number"@ || tag == "Float"@ || tag == "Float32"@ {
        match m {
            JsonModel::Num(n) => DecodeOutcome::Value(PropModel::Float32(n.bits)),
            _ => DecodeOutcome::Fail(DecodeError::FloatBadShape),
        }
    } else if tag == "Int"@ || tag == "Int32"@ {
        match m {
            JsonModel::Num(n) => DecodeOutcome::Value(PropModel::Int32(int32_of(m))),
            _ => DecodeOutcome::Fail(DecodeError::IntBadShape),
        }
    } else if tag == "Enum"@ {
        match m {
            JsonModel::Num(n) => match n.uint_val {
                Some(u) => if u <= 0xFFFF_FFFFu64 {
                    DecodeOutcome::Value(PropModel::EnumValue(u as u32))
                } else {
                    DecodeOutcome::Fail(DecodeError::EnumOutOfRange)
                },
                None => DecodeOutcome::Value(PropModel::EnumValue(1)),
            },
            _ => DecodeOutcome::Fail(DecodeError::EnumBadShape),
        }
    } else if tag == "Color3"@ {
        match m {
            JsonModel::Arr(items) => if items.len() == 3 {
                DecodeOutcome::Value(
                    PropModel::Color3 {
                        r: num_bits_of(items[0]),
                        g: num_bits_of(items[1]),
                        b: num_bits_of(items[2]),
                    },
                )
            } else {
                DecodeOutcome::Fail(DecodeError::Color3WrongLength)
            },
            _ => DecodeOutcome::Fail(DecodeError::Color3BadShape),
        }
    } else if tag == "UDim2"@ {
        match m {
            JsonModel::Arr(items) => if items.len() == 4 {
                DecodeOutcome::Value(
                    PropModel::UDim2 {
                        x_scale: num_bits_of(items[0]),
                        x_offset: int32_of(items[1]),
                        y_scale: num_bits_of(items[2]),
                        y_offset: int32_of(items[3]),
                    },
                )
            } else {
                DecodeOutcome::Fail(DecodeError::UDim2WrongLength)
            },
            _ => DecodeOutcome::Fail(DecodeError::UDim2BadShape),
        }
    } else {
        DecodeOutcome::Skip
    }
}

/// Decoding a `Vector3` or `Color3` array of the correct length keeps every
/// numeric component's bit pattern exactly as it was read.
pub proof fn lemma_vector3_color3_roundtrip(items: Seq<JsonModel>)
    requires
        items.len() == 3,
    ensures
        decode_spec("Vector3"@, JsonModel::Arr(items)) == DecodeOutcome::Value(
            PropModel::Vector3(
                Vector3Bits {
                    x: num_bits_of(items[0]),
                    y: num_bits_of(items[1]),
                    z: num_bits_of(items[2]),
                },
            ),
        ),
        decode_spec("Color3"@, JsonModel::Arr(items)) == DecodeOutcome::Value(
            PropModel::Color3 {
                r: num_bits_of(items[0]),
                g: num_bits_of(items[1]),
                b: num_bits_of(items[2]),
            },
        ),
{
    reveal_strlit("Vector3");
    reveal_strlit("CFrame");
    reveal_strlit("String");
    reveal_strlit("BrickColor");
    reveal_strlit("Bool");
    reveal_strlit("Number");
    reveal_strlit("Float");
    reveal_strlit("Float32");
    reveal_strlit("Int");
    reveal_strlit("Int32");
    reveal_strlit("Enum");
    reveal_strlit("Color3");
    assert("Color3"@[1] == 'o');
    assert("CFrame"@[1] == 'F');
    assert("String"@[0] == 'S');
    assert("Number"@[0] == 'N');
    assert("Vector3"@.len() == 7);
    assert("Color3"@.len() == 6);
}

/// A type tag outside the supported set never yields an error: the property
/// is simply skipped.
pub proof fn lemma_unknown_tag_skipped(tag: Seq<char>, m: JsonModel)
    requires
        tag != "Vector3"@,
        tag != "CFrame"@,
        tag != "String"@,
        tag != "BrickColor"@,
        tag != "Bool"@,
        tag != "Number"@,
        tag != "Float"@,
        tag != "Float32"@,
        tag != "Int"@,
        tag != "Int32"@,
        tag != "Enum"@,
        tag != "Color3"@,
        tag != "UDim2"@,
    ensures
        decode_spec(tag, m) == DecodeOutcome::Skip,
{
}

/// Whether the class tag names a script.
pub open spec fn is_script_class(class: Seq<char>) -> bool {
    class == "Script"@ || class == "LocalScript"@ || class == "ModuleScript"@
}

/// Decoding one property of an instance description: a string-valued
/// `Source` property of a script class is taken as text whatever its tag;
/// everything else follows the tag's coercion rules.
pub open spec fn decode_property_spec(
    class: Seq<char>,
    prop_name: Seq<char>,
    tag: Seq<char>,
    m: JsonModel,
) -> DecodeOutcome {
    if is_script_class(class) && prop_name == "Source"@ && m is Text {
        DecodeOutcome::Value(PropModel::Text(m->Text_0))
    } else {
        decode_spec(tag, m)
    }
}

/// Whether the fixed palette of brick colors knows this number.
pub uninterp spec fn brick_color_known(n: u16) -> bool;

/// Relies on `rbx_dom_weak::types::BrickColor::from_number`: a fixed match
/// over the palette's numbers, `Some` exactly on them.
#[verifier::external_body]
fn brick_color_in_palette(n: u16) -> (r: bool)
    ensures
        r == brick_color_known(n),
{
    rbx_dom_weak::types::BrickColor::from_number(n).is_some()
}

/// The number's bits, a non-number reading as zero.
fn num_bits(v: &JsonValue) -> (r: u64)
    ensures
        r == num_bits_of(v@),
{
    match v {
        JsonValue::Num(n) => n.bits,
        _ => 0,
    }
}

/// The bits of a numeric field, absent or non-numeric fields reading as
/// zero.
fn field_bits(v: &JsonValue, key: &str) -> (r: u64)
    ensures
        r == field_num_bits(v@, key@),
{
    match v.get(key) {
        Some(f) => num_bits(f),
        None => 0,
    }
}

/// The signed reading narrowed to 32 bits, a non-integer reading as zero.
fn int32_exec(v: &JsonValue) -> (r: i32)
    ensures
        r == int32_of(v@),
{
    match v {
        JsonValue::Num(n) => match n.int_val {
            Some(x) => #[verifier::truncate] (x as i32),
            None => 0,
        },
        _ => 0,
    }
}

/// Reads the rotation part of a `CFrame` object, falling back to the
/// identity matrix.
fn decode_rotation(v: &JsonValue) -> (r: Matrix3Bits)
    ensures
        r == rotation_spec(v@),
{
    match v.get("rotation") {
        Some(rot) => match rot {
            JsonValue::Arr(items) => {
                proof {
                    lemma_json_arr_model(items@);
                }
                if items.len() == 9 {
                    Matrix3Bits {
                        r00: num_bits(&items[0]),
                        r01: num_bits(&items[1]),
                        r02: num_bits(&items[2]),
                        r10: num_bits(&items[3]),
                        r11: num_bits(&items[4]),
                        r12: num_bits(&items[5]),
                        r20: num_bits(&items[6]),
                        r21: num_bits(&items[7]),
                        r22: num_bits(&items[8]),
                    }
                } else {
                    Matrix3Bits::identity()
                }
            },
            _ => Matrix3Bits::identity(),
        },
        None => Matrix3Bits::identity(),
    }
}

/// Decodes a `CFrame` value: `position` is required, `rotation` optional.
fn decode_cframe(value: &JsonValue) -> (r: Result<Decoded, DecodeError>)
    ensures
        decoded_outcome(r) == cframe_spec(value@),
{
    match value {
        JsonValue::Obj(_) => {
            match value.get("position") {
                Some(pos) => {
                    let rotation = decode_rotation(value);
                    match pos {
                        JsonValue::Arr(items) => {
                            proof {
                                lemma_json_arr_model(items@);
                            }
                            if items.len() == 3 {
                                let position = Vector3Bits {
                                    x: num_bits(&items[0]),
                                    y: num_bits(&items[1]),
                                    z: num_bits(&items[2]),
                                };
                                Ok(Decoded::Keep(PropertyValue::CFrame { position, rotation }))
                            } else {
                                Err(DecodeError::CFramePositionWrongLength)
                            }
                        },
                        JsonValue::Obj(_) => {
                            let position = Vector3Bits {
                                x: field_bits(pos, "x"),
                                y: field_bits(pos, "y"),
                                z: field_bits(pos, "z"),
                            };
                            Ok(Decoded::Keep(PropertyValue::CFrame { position, rotation }))
                        },
                        _ => Err(DecodeError::CFramePositionBadShape),
                    }
                },
                None => Err(DecodeError::CFrameMissingPosition),
            }
        },
        _ => Err(DecodeError::CFrameBadShape),
    }
}

/// Decodes one `(type tag, value)` pair: a typed value for a supported tag
/// and a matching shape, `Skipped` for a tag outside the supported set, and
/// the exact rejection otherwise.
pub fn decode(tag: &str, value: &JsonValue) -> (r: Result<Decoded, DecodeError>)
    ensures
        decoded_outcome(r) == decode_spec(tag@, value@),
{
    if crate::text::str_eq(tag, "Vector3") {
        match value {
            JsonValue::Arr(items) => {
                proof {
                    lemma_json_arr_model(items@);
                }
                if items.len() == 3 {
                    let v = Vector3Bits {
                        x: num_bits(&items[0]),
                        y: num_bits(&items[1]),
                        z: num_bits(&items[2]),
                    };
                    Ok(Decoded::Keep(PropertyValue::Vector3(v)))
                } else {
                    Err(DecodeError::Vector3WrongLength)
                }
            },
            JsonValue::Obj(_) => {
                let v = Vector3Bits {
                    x: field_bits(value, "x"),
                    y: field_bits(value, "y"),
                    z: field_bits(value, "z"),
                };
                Ok(Decoded::Keep(PropertyValue::Vector3(v)))
            },
            _ => Err(DecodeError::Vector3BadShape),
        }
    } else if crate::text::str_eq(tag, "CFrame") {
        decode_cframe(value)
    } else if crate::text::str_eq(tag, "String") {
        match value {
            JsonValue::Text(s) => Ok(Decoded::Keep(PropertyValue::Text(s.clone()))),
            _ => Ok(Decoded::Keep(PropertyValue::Text(crate::json::json_text(value)))),
        }
    } else if crate::text::str_eq(tag, "BrickColor") {
        match value {
            JsonValue::Num(n) => {
                let idx: u16 = match n.uint_val {
                    Some(u) => #[verifier::truncate] (u as u16),
                    None => 1,
                };
                if brick_color_in_palette(idx) {
                    Ok(Decoded::Keep(PropertyValue::BrickColor(idx)))
                } else {
                    Err(DecodeError::BrickColorUnknown(idx))
                }
            },
            _ => Err(DecodeError::BrickColorBadShape),
        }
    } else if crate::text::str_eq(tag, "Bool") {
        match value {
            JsonValue::Bool(b) => Ok(Decoded::Keep(PropertyValue::Bool(*b))),
            _ => Err(DecodeError::BoolBadShape),
        }
    } else if crate::text::str_eq(tag, "Number") || crate::text::str_eq(tag, "Float")
        || crate::text::str_eq(tag, "Float32") {
        match value {
            JsonValue::Num(n) => Ok(Decoded::Keep(PropertyValue::Float32(n.bits))),
            _ => Err(DecodeError::FloatBadShape),
        }
    } else if crate::text::str_eq(tag, "Int") || crate::text::str_eq(tag, "Int32") {
        match value {
            JsonValue::Num(_) => Ok(Decoded::Keep(PropertyValue::Int32(int32_exec(value)))),
            _ => Err(DecodeError::IntBadShape),
        }
    } else if crate::text::str_eq(tag, "Enum") {
        match value {
            JsonValue::Num(n) => match n.uint_val {
                Some(u) => {
                    if u <= 0xFFFF_FFFFu64 {
                        Ok(Decoded::Keep(PropertyValue::EnumValue(u as u32)))
                    } else {
                        Err(DecodeError::EnumOutOfRange)
                    }
                },
                None => Ok(Decoded::Keep(PropertyValue::EnumValue(1))),
            },
            _ => Err(DecodeError::EnumBadShape),
        }
    } else if crate::text::str_eq(tag, "Color3") {
        match value {
            JsonValue::Arr(items) => {
                proof {
                    lemma_json_arr_model(items@);
                }
                if items.len() == 3 {
                    Ok(
                        Decoded::Keep(
                            PropertyValue::Color3 {
                                r: num_bits(&items[0]),
                                g: num_bits(&items[1]),
                                b: num_bits(&items[2]),
                            },
                        ),
                    )
                } else {
                    Err(DecodeError::Color3WrongLength)
                }
            },
            _ => Err(DecodeError::Color3BadShape),
        }
    } else if crate::text::str_eq(tag, "UDim2") {
        match value {
            JsonValue::Arr(items) => {
                proof {
                    lemma_json_arr_model(items@);
                }
                if items.len() == 4 {
                    Ok(
                        Decoded::Keep(
                            PropertyValue::UDim2 {
                                x_scale: num_bits(&items[0]),
                                x_offset: int32_exec(&items[1]),
                                y_scale: num_bits(&items[2]),
                                y_offset: int32_exec(&items[3]),
                            },
                        ),
                    )
                } else {
                    Err(DecodeError::UDim2WrongLength)
                }
            },
            _ => Err(DecodeError::UDim2BadShape),
        }
    } else {
        Ok(Decoded::Skipped)
    }
}

/// Decodes one property of an instance description, applying the script
/// `Source` special case before the tag rules.
pub fn decode_property(
    class: &str,
    prop_name: &str,
    tag: &str,
    value: &JsonValue,
) -> (r: Result<Decoded, DecodeError>)
    ensures
        decoded_outcome(r) == decode_property_spec(class@, prop_name@, tag@, value@),
{
    let script = crate::text::str_eq(class, "Script") || crate::text::str_eq(class, "LocalScript")
        || crate::text::str_eq(class, "ModuleScript");
    if script && crate::text::str_eq(prop_name, "Source") {
        if let JsonValue::Text(s) = value {
            return Ok(Decoded::Keep(PropertyValue::Text(s.clone())));
        }
    }
    decode(tag, value)
}

} // verus!
