use bethkit_semantic::editor::{
    array_prefix_count, encode_integer, encode_packed_unsigned, encode_primitive,
    finish_string_encoding, handler_values_equal, integer_handler_value, owned_leaf_to_handler_value,
    owned_values_equal,
};
use bethkit_semantic::model::{FormId, SchemaNodeId};
use bethkit_semantic::schema::{
    ByteOrder, IntegerType, PrimitiveType, StringLengthPrefix, StringType,
};
use bethkit_semantic::value::{ByteSpan, FieldValue, NamedValue, OwnedFieldValue, SemanticError};

fn narrow(bits: u64) -> u32 {
    (f64::from_bits(bits) as f32).to_bits()
}

fn windows_1252_string(zero_terminated: bool) -> PrimitiveType {
    PrimitiveType::String {
        string: StringType {
            encoding: "windows_1252".to_owned(),
            localized: false,
            zero_terminated,
            fixed_length: None,
            length_prefix: None,
            trailing_terminator: None,
            allowed_values: Vec::new(),
        },
    }
}

fn integer(width: u8, signed: bool, byte_order: ByteOrder) -> IntegerType {
    IntegerType { width, signed, byte_order }
}

/// Emits canonical xEdit packed integer widths and rejects overflow.
#[test]
fn packed_unsigned_encoding_uses_minimum_width() {
    assert_eq!(encode_packed_unsigned(63, "TEST").unwrap(), vec![0xfc]);
    assert_eq!(encode_packed_unsigned(64, "TEST").unwrap(), vec![0x01, 0x01]);
    assert_eq!(
        encode_packed_unsigned(16_384, "TEST").unwrap(),
        vec![0x02, 0x00, 0x01, 0x00]
    );
    assert!(encode_packed_unsigned(0x4000_0000, "TEST").is_err());
    assert_eq!(array_prefix_count(16, true, "TEST").unwrap(), 4);
    assert!(array_prefix_count(15, true, "TEST").is_err());
}

#[test]
fn windows_1252_strings_encode_exact_bytes() {
    let bytes = encode_primitive(
        &windows_1252_string(true),
        &OwnedFieldValue::String("Grüße".to_owned()),
        false,
        "TEST",
        &narrow,
    )
    .expect("Windows-1252 string should encode");

    assert_eq!(bytes, b"Gr\xfc\xdfe\0");
}

#[test]
fn windows_1252_strings_reject_unrepresentable_characters() {
    let error = encode_primitive(
        &windows_1252_string(false),
        &OwnedFieldValue::String("Dragon 🐉".to_owned()),
        false,
        "TEST",
        &narrow,
    )
    .expect_err("unrepresentable character should fail");

    assert!(error.text().contains("cannot represent"));
}

#[test]
fn after_set_equality_matches_owned_and_decoded_integer_shapes() {
    let owned_shape = FieldValue::Struct(vec![NamedValue {
        node_id: SchemaNodeId(1),
        path: "TEST/0:Mode".to_owned(),
        effective_path: None,
        name: "Mode".to_owned(),
        span: ByteSpan { start: 0, end: 4 },
        value: FieldValue::Int(2),
    }]);
    let decoded_shape = FieldValue::Struct(vec![NamedValue {
        node_id: SchemaNodeId(1),
        path: "TEST/0:Mode".to_owned(),
        effective_path: None,
        name: "Mode".to_owned(),
        span: ByteSpan { start: 0, end: 4 },
        value: FieldValue::Enumeration {
            value: 2,
            name: Some("Reference".to_owned()),
        },
    }]);

    assert!(handler_values_equal(&owned_shape, &decoded_shape));
}

#[test]
fn after_set_equality_detects_nested_array_changes() {
    let old = FieldValue::Array(vec![FieldValue::UInt(1), FieldValue::UInt(2)]);
    let new = FieldValue::Array(vec![FieldValue::UInt(1), FieldValue::UInt(3)]);

    assert!(!handler_values_equal(&new, &old));
}

#[test]
fn length_prefixed_strings_include_padding_and_structural_terminator() {
    let primitive = PrimitiveType::String {
        string: StringType {
            encoding: "utf8".to_owned(),
            localized: false,
            zero_terminated: false,
            fixed_length: None,
            length_prefix: Some(StringLengthPrefix { width: 1, offset: 2 }),
            trailing_terminator: Some(b'|'),
            allowed_values: Vec::new(),
        },
    };

    let bytes = encode_primitive(
        &primitive,
        &OwnedFieldValue::String("abc".to_owned()),
        false,
        "TEST",
        &narrow,
    )
    .expect("length-prefixed string should encode");

    assert_eq!(bytes, b"\x03\0abc|");
}

#[test]
fn localized_strings_encode_as_table_ids() {
    let primitive = PrimitiveType::String {
        string: StringType {
            encoding: "windows_1252".to_owned(),
            localized: true,
            zero_terminated: true,
            fixed_length: None,
            length_prefix: None,
            trailing_terminator: Some(b'|'),
            allowed_values: Vec::new(),
        },
    };

    let bytes = encode_primitive(
        &primitive,
        &OwnedFieldValue::UInt(0x1234_5678),
        true,
        "TEST",
        &narrow,
    )
    .expect("localized string ID should encode");

    assert_eq!(bytes, 0x1234_5678_u32.to_le_bytes());
}

#[test]
fn integers_encode_with_width_and_byte_order() {
    assert_eq!(
        encode_integer(integer(2, false, ByteOrder::LittleEndian), 0x1234, "P").unwrap(),
        vec![0x34, 0x12]
    );
    assert_eq!(
        encode_integer(integer(4, false, ByteOrder::BigEndian), 0x0102_0304, "P").unwrap(),
        vec![1, 2, 3, 4]
    );
    match encode_integer(integer(1, false, ByteOrder::LittleEndian), 256, "P") {
        Err(SemanticError::Encode { path, message }) => {
            assert_eq!(path, "P");
            assert_eq!(message, "integer does not fit schema width");
        }
        _ => panic!("an integer wider than its schema width must fail"),
    }
}

#[test]
fn negative_integers_fit_only_eight_byte_fields() {
    let bytes = encode_primitive(
        &PrimitiveType::Integer { integer: integer(2, true, ByteOrder::LittleEndian) },
        &OwnedFieldValue::Int(-2),
        false,
        "P",
        &narrow,
    );
    // A negative value reinterpreted as unsigned does not fit two bytes.
    assert!(bytes.is_err());
    let bytes = encode_primitive(
        &PrimitiveType::Integer { integer: integer(8, true, ByteOrder::LittleEndian) },
        &OwnedFieldValue::Int(-2),
        false,
        "P",
        &narrow,
    )
    .unwrap();
    assert_eq!(bytes, (-2i64).to_le_bytes().to_vec());
}

#[test]
fn floats_narrow_to_four_bytes_or_keep_eight() {
    let four = encode_primitive(
        &PrimitiveType::Float { width: 4, byte_order: ByteOrder::LittleEndian },
        &OwnedFieldValue::Float(1.5f64.to_bits()),
        false,
        "P",
        &narrow,
    )
    .unwrap();
    assert_eq!(four, 1.5f32.to_le_bytes().to_vec());
    let eight = encode_primitive(
        &PrimitiveType::Float { width: 8, byte_order: ByteOrder::BigEndian },
        &OwnedFieldValue::Float(1.5f64.to_bits()),
        false,
        "P",
        &narrow,
    )
    .unwrap();
    assert_eq!(eight, 1.5f64.to_be_bytes().to_vec());
}

#[test]
fn form_ids_encode_little_endian() {
    let bytes = encode_primitive(
        &PrimitiveType::FormId { targets: Vec::new() },
        &OwnedFieldValue::FormId(FormId(0x0001_0203)),
        false,
        "P",
        &narrow,
    )
    .unwrap();
    assert_eq!(bytes, vec![3, 2, 1, 0]);
}

#[test]
fn mismatched_value_types_are_rejected() {
    match encode_primitive(
        &PrimitiveType::PackedUnsigned,
        &OwnedFieldValue::String("x".to_owned()),
        false,
        "P",
        &narrow,
    ) {
        Err(SemanticError::Encode { message, .. }) => {
            assert_eq!(message, "value type does not match schema type")
        }
        _ => panic!("a string cannot encode as a packed integer"),
    }
}

#[test]
fn fixed_length_strings_pad_and_reject_overflow() {
    let string = StringType {
        encoding: "utf8".to_owned(),
        localized: false,
        zero_terminated: true,
        fixed_length: Some(5),
        length_prefix: None,
        trailing_terminator: None,
        allowed_values: Vec::new(),
    };
    assert_eq!(
        finish_string_encoding(&string, b"ab".to_vec(), "P").unwrap(),
        b"ab\0\0\0".to_vec()
    );
    match finish_string_encoding(&string, b"abcde".to_vec(), "P") {
        Err(SemanticError::Encode { message, .. }) => {
            assert_eq!(message, "string exceeds fixed length")
        }
        _ => panic!("a body longer than the fixed length must fail"),
    }
}

#[test]
fn length_prefix_overflow_is_rejected() {
    let string = StringType {
        encoding: "utf8".to_owned(),
        localized: false,
        zero_terminated: false,
        fixed_length: None,
        length_prefix: Some(StringLengthPrefix { width: 1, offset: 1 }),
        trailing_terminator: None,
        allowed_values: Vec::new(),
    };
    assert!(finish_string_encoding(&string, vec![0u8; 256], "P").is_err());
    assert_eq!(
        finish_string_encoding(&string, vec![7u8; 2], "P").unwrap(),
        vec![2, 7, 7]
    );
}

#[test]
fn localized_plugin_strings_require_table_ids() {
    let primitive = PrimitiveType::String {
        string: StringType {
            encoding: "windows_1252".to_owned(),
            localized: true,
            zero_terminated: true,
            fixed_length: None,
            length_prefix: None,
            trailing_terminator: None,
            allowed_values: Vec::new(),
        },
    };
    match encode_primitive(
        &primitive,
        &OwnedFieldValue::String("text".to_owned()),
        true,
        "P",
        &narrow,
    ) {
        Err(SemanticError::Encode { message, .. }) => {
            assert_eq!(message, "localized plugin string requires a string-table ID")
        }
        _ => panic!("a localized plugin needs a string-table ID"),
    }
    assert!(encode_primitive(
        &primitive,
        &OwnedFieldValue::UInt(0x1_0000_0000),
        true,
        "P",
        &narrow
    )
    .is_err());
}

#[test]
fn handler_equality_compares_integers_by_value() {
    assert!(handler_values_equal(&FieldValue::UInt(7), &FieldValue::Int(7)));
    assert!(!handler_values_equal(&FieldValue::Int(-1), &FieldValue::UInt(u64::MAX)));
    assert!(handler_values_equal(
        &FieldValue::Float(f64::NAN.to_bits()),
        &FieldValue::Float(f64::NAN.to_bits())
    ));
    assert!(handler_values_equal(&FieldValue::Absent, &FieldValue::Absent));
    assert!(!handler_values_equal(
        &FieldValue::String("a".to_owned()),
        &FieldValue::String("b".to_owned())
    ));
    assert_eq!(integer_handler_value(&FieldValue::UInt(u64::MAX)), Some(u64::MAX as i128));
    assert_eq!(integer_handler_value(&FieldValue::String("1".to_owned())), None);
}

#[test]
fn owned_equality_is_structural() {
    let a = OwnedFieldValue::Array(vec![OwnedFieldValue::UInt(1), OwnedFieldValue::Absent]);
    let b = OwnedFieldValue::Array(vec![OwnedFieldValue::UInt(1), OwnedFieldValue::Absent]);
    let c = OwnedFieldValue::Array(vec![OwnedFieldValue::UInt(1)]);
    assert!(owned_values_equal(&a, &b));
    assert!(!owned_values_equal(&a, &c));
    assert!(owned_values_equal(&OwnedFieldValue::Int(1), &OwnedFieldValue::UInt(1)));
    assert!(!owned_values_equal(&OwnedFieldValue::Int(-1), &OwnedFieldValue::UInt(u64::MAX)));
}

#[test]
fn owned_leaves_convert_to_decoded_shapes() {
    match owned_leaf_to_handler_value(&OwnedFieldValue::FormId(FormId(5))) {
        FieldValue::FormId { value, targets } => {
            assert_eq!(value, FormId(5));
            assert!(targets.is_empty());
        }
        _ => panic!("a FormID stays a FormID"),
    }
    match owned_leaf_to_handler_value(&OwnedFieldValue::Struct(vec![OwnedFieldValue::Int(3)])) {
        FieldValue::Array(items) => assert!(matches!(items[..], [FieldValue::Int(3)])),
        _ => panic!("struct members become array items"),
    }
}
