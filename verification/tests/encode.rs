use bethkit_semantic::decoder::{DecoderRegistry, ZeroWidthIntegerDecoder};
use bethkit_semantic::encode::encode_node;
use bethkit_semantic::model::SchemaNodeId;
use bethkit_semantic::schema::{
    ArrayCount, ByteOrder, IntegerType, PrimitiveType, SchemaNode, SchemaNodeKind, UnionSelector,
    Expression,
};
use bethkit_semantic::value::{OwnedFieldValue, SemanticError};

fn narrow(bits: u64) -> u32 {
    (f64::from_bits(bits) as f32).to_bits()
}

fn no_union(_: &SchemaNode, _: usize, _: &Vec<u8>) -> Result<Option<i64>, SemanticError> {
    Ok(None)
}

fn registry() -> DecoderRegistry<ZeroWidthIntegerDecoder> {
    DecoderRegistry::builtin()
}

fn node(id: u32, path: &str, kind: SchemaNodeKind) -> SchemaNode {
    SchemaNode {
        id: SchemaNodeId(id),
        path: path.to_owned(),
        name: path.rsplit('/').next().unwrap_or(path).to_owned(),
        required: true,
        condition: None,
        kind,
    }
}

fn byte_node(id: u32, path: &str) -> SchemaNode {
    node(
        id,
        path,
        SchemaNodeKind::Primitive {
            primitive: PrimitiveType::Integer {
                integer: IntegerType { width: 1, signed: false, byte_order: ByteOrder::LittleEndian },
            },
        },
    )
}

fn encode(node: &SchemaNode, value: &OwnedFieldValue) -> Result<Vec<u8>, SemanticError> {
    encode_node(node, value, false, &registry(), &no_union, &narrow)
}

/// Appends the structural terminator after encoding the wrapped value.
#[test]
fn terminated_node_encoding_appends_terminator() {
    let node = node(
        10,
        "TEST/value",
        SchemaNodeKind::Terminated {
            terminator: 0xff,
            child: Box::new(byte_node(11, "TEST/value/body")),
        },
    );

    assert_eq!(encode(&node, &OwnedFieldValue::UInt(7)).unwrap(), vec![7, 0xff]);
}

#[test]
fn array_count_encoding_appends_prefix_terminator() {
    let node = node(
        12,
        "TEST/items",
        SchemaNodeKind::Array {
            element: Box::new(byte_node(13, "TEST/items/element")),
            count: ArrayCount::Prefixed {
                integer: IntegerType { width: 1, signed: false, byte_order: ByteOrder::LittleEndian },
                terminator: Some(0x7c),
            },
        },
    );

    assert_eq!(
        encode(
            &node,
            &OwnedFieldValue::Array(vec![OwnedFieldValue::UInt(1), OwnedFieldValue::UInt(2)]),
        )
        .unwrap(),
        vec![2, 0x7c, 1, 2]
    );
}

#[test]
fn structs_encode_members_in_order() {
    let node = node(
        1,
        "TEST/pair",
        SchemaNodeKind::Struct { fields: vec![byte_node(2, "TEST/pair/a"), byte_node(3, "TEST/pair/b")] },
    );
    assert_eq!(
        encode(
            &node,
            &OwnedFieldValue::Struct(vec![OwnedFieldValue::UInt(4), OwnedFieldValue::UInt(5)]),
        )
        .unwrap(),
        vec![4, 5]
    );
    match encode(&node, &OwnedFieldValue::Struct(vec![OwnedFieldValue::UInt(4)])) {
        Err(SemanticError::Encode { path, message }) => {
            assert_eq!(path, "TEST/pair");
            assert_eq!(message, "struct expects 2 fields, got 1");
        }
        _ => panic!("a struct value with too few members must fail"),
    }
    match encode(&node, &OwnedFieldValue::UInt(4)) {
        Err(SemanticError::Encode { message, .. }) => assert_eq!(message, "expected a struct value"),
        _ => panic!("a scalar cannot encode a struct"),
    }
}

#[test]
fn struct_encoding_stops_at_the_first_failing_member() {
    let node = node(
        1,
        "TEST/pair",
        SchemaNodeKind::Struct { fields: vec![byte_node(2, "TEST/pair/a"), byte_node(3, "TEST/pair/b")] },
    );
    match encode(
        &node,
        &OwnedFieldValue::Struct(vec![OwnedFieldValue::UInt(300), OwnedFieldValue::UInt(5)]),
    ) {
        Err(SemanticError::Encode { path, message }) => {
            assert_eq!(path, "TEST/pair/a");
            assert_eq!(message, "integer does not fit schema width");
        }
        _ => panic!("the first member does not fit one byte"),
    }
}

#[test]
fn fixed_arrays_check_their_length() {
    let node = node(
        1,
        "TEST/fixed",
        SchemaNodeKind::Array {
            element: Box::new(byte_node(2, "TEST/fixed/item")),
            count: ArrayCount::Fixed { count: 3 },
        },
    );
    match encode(&node, &OwnedFieldValue::Array(vec![OwnedFieldValue::UInt(1)])) {
        Err(SemanticError::Encode { message, .. }) => {
            assert_eq!(message, "array expects 3 elements, got 1")
        }
        _ => panic!("a fixed array checks its length"),
    }
    let items = vec![OwnedFieldValue::UInt(1), OwnedFieldValue::UInt(2), OwnedFieldValue::UInt(3)];
    assert_eq!(encode(&node, &OwnedFieldValue::Array(items)).unwrap(), vec![1, 2, 3]);
}

#[test]
fn square_arrays_store_their_side_length() {
    let node = node(
        1,
        "TEST/matrix",
        SchemaNodeKind::Array {
            element: Box::new(byte_node(2, "TEST/matrix/cell")),
            count: ArrayCount::PackedPrefixed { square: true, terminator: None },
        },
    );
    let items: Vec<OwnedFieldValue> = (0..4).map(OwnedFieldValue::UInt).collect();
    assert_eq!(
        encode(&node, &OwnedFieldValue::Array(items)).unwrap(),
        vec![2 << 2, 0, 1, 2, 3]
    );
    let items: Vec<OwnedFieldValue> = (0..3).map(OwnedFieldValue::UInt).collect();
    match encode(&node, &OwnedFieldValue::Array(items)) {
        Err(SemanticError::Encode { message, .. }) => {
            assert_eq!(message, "matrix array length is not a perfect square")
        }
        _ => panic!("three cells do not form a square"),
    }
}

#[test]
fn signed_count_prefixes_are_rejected() {
    let node = node(
        1,
        "TEST/items",
        SchemaNodeKind::Array {
            element: Box::new(byte_node(2, "TEST/items/item")),
            count: ArrayCount::SquaredPrefixed {
                integer: IntegerType { width: 2, signed: true, byte_order: ByteOrder::LittleEndian },
                terminator: None,
            },
        },
    );
    match encode(&node, &OwnedFieldValue::Array(Vec::new())) {
        Err(SemanticError::Encode { message, .. }) => {
            assert_eq!(message, "array count prefix must be unsigned")
        }
        _ => panic!("a signed count prefix is refused"),
    }
}

#[test]
fn unions_take_the_first_variant_the_selector_picks() {
    let union = node(
        1,
        "TEST/choice",
        SchemaNodeKind::Union {
            selector: UnionSelector::Expression(Expression::Int { value: 1 }),
            variants: vec![
                byte_node(2, "TEST/choice/narrow"),
                node(
                    3,
                    "TEST/choice/wide",
                    SchemaNodeKind::Primitive {
                        primitive: PrimitiveType::Integer {
                            integer: IntegerType {
                                width: 2,
                                signed: false,
                                byte_order: ByteOrder::BigEndian,
                            },
                        },
                    },
                ),
            ],
        },
    );
    let pick_second =
        |_: &SchemaNode, _: usize, _: &Vec<u8>| -> Result<Option<i64>, SemanticError> { Ok(Some(1)) };
    assert_eq!(
        encode_node(&union, &OwnedFieldValue::UInt(7), false, &registry(), &pick_second, &narrow)
            .unwrap(),
        vec![0, 7]
    );
    match encode(&union, &OwnedFieldValue::UInt(7)) {
        Err(SemanticError::Encode { path, message }) => {
            assert_eq!(path, "TEST/choice");
            assert_eq!(message, "value does not match the selected union variant");
        }
        _ => panic!("no variant is selected"),
    }
    let failing = |_: &SchemaNode, _: usize, _: &Vec<u8>| -> Result<Option<i64>, SemanticError> {
        Err(SemanticError::MissingHandler("selector".to_owned()))
    };
    assert!(matches!(
        encode_node(&union, &OwnedFieldValue::UInt(7), false, &registry(), &failing, &narrow),
        Err(SemanticError::MissingHandler(_))
    ));
}

#[test]
fn custom_nodes_use_the_registered_decoder() {
    let custom = node(
        1,
        "TEST/custom",
        SchemaNodeKind::Custom { decoder: "xedit.dtinteger".to_owned(), minimum_version: 1 },
    );
    assert_eq!(encode(&custom, &OwnedFieldValue::UInt(0)).unwrap(), Vec::<u8>::new());
    assert!(matches!(
        encode(&custom, &OwnedFieldValue::UInt(1)),
        Err(SemanticError::Decoder { .. })
    ));
    let missing = node(
        2,
        "TEST/other",
        SchemaNodeKind::Custom { decoder: "xedit.other".to_owned(), minimum_version: 1 },
    );
    match encode(&missing, &OwnedFieldValue::UInt(0)) {
        Err(SemanticError::MissingDecoder(id)) => assert_eq!(id, "xedit.other"),
        _ => panic!("an unregistered decoder is reported"),
    }
}

#[test]
fn grammar_nodes_need_a_specialized_encoder() {
    let sequence = node(1, "TEST/sequence", SchemaNodeKind::Sequence { children: Vec::new() });
    match encode(&sequence, &OwnedFieldValue::Absent) {
        Err(SemanticError::Encode { message, .. }) => {
            assert_eq!(message, "this schema node requires a specialized encoder")
        }
        _ => panic!("a sequence is not encoded here"),
    }
}
