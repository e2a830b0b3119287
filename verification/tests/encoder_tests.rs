use call_tracer::digits::{u128_to_decimal, u64_to_decimal};
use call_tracer::doc::Document;
use call_tracer::encoder::{
    input_value_to_json, is_non_empty_vector_u8, move_value_to_json, vec_to_vec_u8,
};
use call_tracer::value::{InputValue, MoveStruct, MoveValue};

fn text(s: &str) -> Document {
    Document::Text(s.to_string())
}

#[test]
fn byte_vector_encodes_as_hex() {
    let v = MoveValue::Vector(vec![MoveValue::U8(1), MoveValue::U8(2), MoveValue::U8(255)]);
    assert_eq!(move_value_to_json(&v, false), text("0x0102ff"));
    assert_eq!(move_value_to_json(&v, true), text("0x0102ff"));
}

#[test]
fn u16_vector_encodes_as_numeric_array() {
    let v = MoveValue::Vector(vec![MoveValue::U16(1), MoveValue::U16(2), MoveValue::U16(255)]);
    assert_eq!(
        move_value_to_json(&v, false),
        Document::Array(vec![
            Document::Number(1),
            Document::Number(2),
            Document::Number(255)
        ])
    );
}

#[test]
fn mixed_vector_ending_in_u8_is_not_bytes() {
    // Classification keys off every element's type, not just the last.
    let vals = vec![MoveValue::U16(7), MoveValue::U8(8)];
    assert!(!is_non_empty_vector_u8(&vals));
    assert!(vec_to_vec_u8(&vals).is_err());
    assert_eq!(
        move_value_to_json(&MoveValue::Vector(vals), false),
        Document::Array(vec![Document::Number(7), Document::Number(8)])
    );
}

#[test]
fn empty_vector_is_not_bytes() {
    let vals: Vec<MoveValue> = vec![];
    assert!(!is_non_empty_vector_u8(&vals));
    assert_eq!(vec_to_vec_u8(&vals).unwrap(), Vec::<u8>::new());
    assert_eq!(
        move_value_to_json(&MoveValue::Vector(vals), false),
        Document::Array(vec![])
    );
}

#[test]
fn homogeneous_u8_vector_classifies_and_extracts() {
    let vals = vec![MoveValue::U8(0), MoveValue::U8(16), MoveValue::U8(32)];
    assert!(is_non_empty_vector_u8(&vals));
    assert_eq!(vec_to_vec_u8(&vals).unwrap(), vec![0u8, 16, 32]);
    assert_eq!(
        move_value_to_json(&MoveValue::Vector(vals), false),
        text("0x001020")
    );
}

#[test]
fn max_u64_encodes_as_decimal_string() {
    let v = MoveValue::U64(18446744073709551615);
    assert_eq!(move_value_to_json(&v, false), text("18446744073709551615"));
}

#[test]
fn narrow_integers_encode_as_numbers() {
    assert_eq!(move_value_to_json(&MoveValue::U8(200), false), Document::Number(200));
    assert_eq!(move_value_to_json(&MoveValue::U16(65535), false), Document::Number(65535));
    assert_eq!(
        move_value_to_json(&MoveValue::U32(4294967295), false),
        Document::Number(4294967295)
    );
}

#[test]
fn wide_integers_encode_as_strings() {
    assert_eq!(move_value_to_json(&MoveValue::U64(0), false), text("0"));
    assert_eq!(
        move_value_to_json(&MoveValue::U128(340282366920938463463374607431768211455), false),
        text("340282366920938463463374607431768211455")
    );
    assert_eq!(
        move_value_to_json(&MoveValue::U256("123456789".to_string()), false),
        text("123456789")
    );
}

#[test]
fn decimal_rendering_is_exact() {
    assert_eq!(u64_to_decimal(0), "0");
    assert_eq!(u64_to_decimal(10), "10");
    assert_eq!(u64_to_decimal(90210), "90210");
    assert_eq!(u64_to_decimal(18446744073709551615), "18446744073709551615");
    assert_eq!(
        u128_to_decimal(340282366920938463463374607431768211455),
        "340282366920938463463374607431768211455"
    );
}

#[test]
fn bool_address_signer_variant_encode_directly() {
    assert_eq!(move_value_to_json(&MoveValue::Bool(true), false), Document::Bool(true));
    assert_eq!(
        move_value_to_json(&MoveValue::Address("0x2".to_string()), false),
        text("0x2")
    );
    assert_eq!(
        move_value_to_json(&MoveValue::Signer("0xbeef".to_string()), false),
        text("0xbeef")
    );
    assert_eq!(
        move_value_to_json(&MoveValue::Variant("Color::Red".to_string()), false),
        text("Color::Red")
    );
}

#[test]
fn record_renders_flat_under_v1_and_tagged_under_v2() {
    let s = MoveValue::Struct(MoveStruct {
        type_: "0x1::m::T".to_string(),
        fields: vec![("x".to_string(), MoveValue::U8(7))],
    });
    assert_eq!(
        move_value_to_json(&s, false),
        Document::Object(vec![("x".to_string(), Document::Number(7))])
    );
    assert_eq!(
        move_value_to_json(&s, true),
        Document::Object(vec![
            ("type".to_string(), text("0x1::m::T")),
            (
                "fields".to_string(),
                Document::Object(vec![("x".to_string(), Document::Number(7))])
            ),
        ])
    );
}

#[test]
fn nested_records_recurse() {
    let inner = MoveValue::Struct(MoveStruct {
        type_: "0x1::m::Inner".to_string(),
        fields: vec![("n".to_string(), MoveValue::U64(5))],
    });
    let outer = MoveValue::Struct(MoveStruct {
        type_: "0x1::m::Outer".to_string(),
        fields: vec![("i".to_string(), inner)],
    });
    assert_eq!(
        move_value_to_json(&outer, false),
        Document::Object(vec![(
            "i".to_string(),
            Document::Object(vec![("n".to_string(), text("5"))])
        )])
    );
}

#[test]
fn input_placeholder_passes_through_as_text() {
    assert_eq!(
        input_value_to_json(&InputValue::String("?".to_string()), false),
        text("?")
    );
    assert_eq!(
        input_value_to_json(&InputValue::MoveValue(MoveValue::U8(3)), false),
        Document::Number(3)
    );
}
