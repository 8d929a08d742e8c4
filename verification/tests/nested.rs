use bethkit_semantic::decoder::{DecoderRegistry, ZeroWidthIntegerDecoder};
use bethkit_semantic::defaults::default_value_for_node;
use bethkit_semantic::model::SchemaNodeId;
use bethkit_semantic::nested::{nested_value_at, reset_nested_value, set_nested_value};
use bethkit_semantic::schema::{
    ArrayCount, ByteOrder, Expression, IntegerType, PrimitiveType, SchemaNode, SchemaNodeKind,
    UnionSelector,
};
use bethkit_semantic::value::{OwnedFieldValue, SemanticError};

fn narrow(bits: u64) -> u32 {
    (f64::from_bits(bits) as f32).to_bits()
}

fn no_union(_: &SchemaNode, _: usize, _: &Vec<u8>) -> Result<Option<i64>, SemanticError> {
    Ok(None)
}

fn second_variant(_: &SchemaNode, index: usize, _: &Vec<u8>) -> Result<Option<i64>, SemanticError> {
    Ok(if index == 1 { Some(1) } else { None })
}

fn registry() -> DecoderRegistry<ZeroWidthIntegerDecoder> {
    DecoderRegistry::builtin()
}

fn node(id: u32, path: &str, kind: SchemaNodeKind) -> SchemaNode {
    SchemaNode {
        id: SchemaNodeId(id),
        path: path.to_owned(),
        name: path.rsplit('/').next().unwrap_or(path).to_owned(),
        required: true,
        condition: None,
        kind,
    }
}

fn integer_node(id: u32, path: &str, width: u8) -> SchemaNode {
    node(
        id,
        path,
        SchemaNodeKind::Primitive {
            primitive: PrimitiveType::Integer {
                integer: IntegerType { width, signed: false, byte_order: ByteOrder::LittleEndian },
            },
        },
    )
}

/// A struct of a byte and a byte array with a one-byte count prefix.
fn record_node() -> SchemaNode {
    node(
        1,
        "TEST/data",
        SchemaNodeKind::Struct {
            fields: vec![
                integer_node(2, "TEST/data/flag", 1),
                node(
                    3,
                    "TEST/data/items",
                    SchemaNodeKind::Array {
                        element: Box::new(integer_node(4, "TEST/data/items/element", 1)),
                        count: ArrayCount::Prefixed {
                            integer: IntegerType {
                                width: 1,
                                signed: false,
                                byte_order: ByteOrder::LittleEndian,
                            },
                            terminator: None,
                        },
                    },
                ),
            ],
        },
    )
}

fn record_value() -> OwnedFieldValue {
    OwnedFieldValue::Struct(vec![
        OwnedFieldValue::UInt(1),
        OwnedFieldValue::Array(vec![
            OwnedFieldValue::UInt(10),
            OwnedFieldValue::UInt(20),
            OwnedFieldValue::UInt(30),
        ]),
    ])
}

fn uint(value: Option<&OwnedFieldValue>) -> Option<u64> {
    match value {
        Some(OwnedFieldValue::UInt(v)) => Some(*v),
        _ => None,
    }
}

fn items(value: &OwnedFieldValue) -> Vec<u64> {
    match value {
        OwnedFieldValue::Struct(members) => match &members[1] {
            OwnedFieldValue::Array(items) => items.iter().map(|item| uint(Some(item)).unwrap()).collect(),
            _ => panic!("items are not an array"),
        },
        _ => panic!("value is not a struct"),
    }
}

#[test]
fn nested_value_at_counts_matches_in_order() {
    let schema = record_node();
    let value = record_value();
    let mut occurrence = 1;
    let found = nested_value_at(
        &schema,
        &value,
        "TEST/data/items/element",
        &mut occurrence,
        false,
        &registry(),
        &no_union,
        &narrow,
    )
    .unwrap();
    assert_eq!(uint(found), Some(20));
    assert_eq!(occurrence, 0);
}

#[test]
fn nested_value_at_reports_unfound_matches() {
    let schema = record_node();
    let value = record_value();
    let mut occurrence = 5;
    let found = nested_value_at(
        &schema,
        &value,
        "TEST/data/items/element",
        &mut occurrence,
        false,
        &registry(),
        &no_union,
        &narrow,
    )
    .unwrap();
    assert!(found.is_none());
    assert_eq!(occurrence, 2);
}

#[test]
fn nested_value_at_finds_the_whole_value_at_its_own_path() {
    let schema = record_node();
    let value = record_value();
    let mut occurrence = 0;
    let found = nested_value_at(
        &schema,
        &value,
        "TEST/data",
        &mut occurrence,
        false,
        &registry(),
        &no_union,
        &narrow,
    )
    .unwrap()
    .unwrap();
    assert_eq!(items(found), vec![10, 20, 30]);
}

#[test]
fn nested_value_at_follows_the_selected_union_variant() {
    let schema = node(
        5,
        "TEST/choice",
        SchemaNodeKind::Union {
            selector: UnionSelector::Expression(Expression::Int { value: 1 }),
            variants: vec![
                integer_node(6, "TEST/choice/narrow", 1),
                integer_node(7, "TEST/choice/wide", 2),
            ],
        },
    );
    let value = OwnedFieldValue::UInt(7);
    let mut occurrence = 0;
    let found = nested_value_at(
        &schema,
        &value,
        "TEST/choice/wide",
        &mut occurrence,
        false,
        &registry(),
        &second_variant,
        &narrow,
    )
    .unwrap();
    assert_eq!(uint(found), Some(7));

    let mut occurrence = 0;
    let missing = nested_value_at(
        &schema,
        &value,
        "TEST/choice/narrow",
        &mut occurrence,
        false,
        &registry(),
        &second_variant,
        &narrow,
    )
    .unwrap();
    assert!(missing.is_none());
    assert_eq!(occurrence, 0);
}

#[test]
fn nested_value_at_reports_a_union_without_a_variant() {
    let schema = node(
        5,
        "TEST/choice",
        SchemaNodeKind::Union {
            selector: UnionSelector::Expression(Expression::Int { value: 1 }),
            variants: vec![integer_node(6, "TEST/choice/narrow", 1)],
        },
    );
    let value = OwnedFieldValue::UInt(7);
    let mut occurrence = 0;
    let error = nested_value_at(
        &schema,
        &value,
        "TEST/choice/narrow",
        &mut occurrence,
        false,
        &registry(),
        &no_union,
        &narrow,
    )
    .unwrap_err();
    assert!(matches!(
        error,
        SemanticError::Encode { ref path, ref message }
            if path == "TEST/choice" && message == "value does not match the selected union variant"
    ));
}

#[test]
fn set_nested_value_replaces_the_requested_match() {
    let schema = record_node();
    let mut value = record_value();
    let mut occurrence = 2;
    let mut replacement = Some(OwnedFieldValue::UInt(99));
    let written = set_nested_value(
        &schema,
        &mut value,
        "TEST/data/items/element",
        &mut occurrence,
        &mut replacement,
        false,
        &registry(),
        &no_union,
        &narrow,
    )
    .unwrap();
    assert!(written);
    assert!(replacement.is_none());
    assert_eq!(occurrence, 0);
    assert_eq!(items(&value), vec![10, 20, 99]);

    let mut probe = 2;
    let read = nested_value_at(
        &schema,
        &value,
        "TEST/data/items/element",
        &mut probe,
        false,
        &registry(),
        &no_union,
        &narrow,
    )
    .unwrap();
    assert_eq!(uint(read), Some(99));
}

#[test]
fn set_nested_value_leaves_the_value_when_no_match_remains() {
    let schema = record_node();
    let mut value = record_value();
    let mut occurrence = 4;
    let mut replacement = Some(OwnedFieldValue::UInt(99));
    let written = set_nested_value(
        &schema,
        &mut value,
        "TEST/data/items/element",
        &mut occurrence,
        &mut replacement,
        false,
        &registry(),
        &no_union,
        &narrow,
    )
    .unwrap();
    assert!(!written);
    assert_eq!(occurrence, 1);
    assert!(matches!(replacement, Some(OwnedFieldValue::UInt(99))));
    assert_eq!(items(&value), vec![10, 20, 30]);
}

#[test]
fn set_nested_value_without_a_replacement_fails_at_the_match() {
    let schema = record_node();
    let mut value = record_value();
    let mut occurrence = 0;
    let mut replacement = None;
    let error = set_nested_value(
        &schema,
        &mut value,
        "TEST/data/flag",
        &mut occurrence,
        &mut replacement,
        false,
        &registry(),
        &no_union,
        &narrow,
    )
    .unwrap_err();
    assert!(matches!(
        error,
        SemanticError::Handler { ref handler, ref message }
            if handler == "def.after_set" && message == "local mutation has no replacement value"
    ));
    assert_eq!(items(&value), vec![10, 20, 30]);
}

fn no_pick(_: &SchemaNode) -> Result<i64, SemanticError> {
    Ok(0)
}

fn keep(_: &SchemaNode, value: OwnedFieldValue, _: &Vec<usize>) -> Result<OwnedFieldValue, SemanticError> {
    Ok(value)
}

fn fixed_items_node() -> SchemaNode {
    node(
        1,
        "TEST/data",
        SchemaNodeKind::Struct {
            fields: vec![
                integer_node(2, "TEST/data/flag", 1),
                node(
                    3,
                    "TEST/data/items",
                    SchemaNodeKind::Array {
                        element: Box::new(integer_node(4, "TEST/data/items/element", 1)),
                        count: ArrayCount::Fixed { count: 3 },
                    },
                ),
            ],
        },
    )
}

#[test]
fn default_value_builds_zero_members_and_fixed_items() {
    let value = default_value_for_node(&fixed_items_node(), false, 0, &Vec::new(), &no_pick, &keep)
        .unwrap();
    assert_eq!(items(&value), vec![0, 0, 0]);
}

#[test]
fn default_value_hands_item_indices_to_callbacks() {
    let numbered = |node: &SchemaNode, value: OwnedFieldValue, indices: &Vec<usize>| {
        if node.path == "TEST/data/items/element" {
            Ok(OwnedFieldValue::UInt(indices[indices.len() - 1] as u64 * 10))
        } else {
            Ok(value)
        }
    };
    let value =
        default_value_for_node(&fixed_items_node(), false, 0, &Vec::new(), &no_pick, &numbered)
            .unwrap();
    assert_eq!(items(&value), vec![0, 10, 20]);
}

#[test]
fn default_value_stops_at_the_depth_limit() {
    let error = default_value_for_node(&fixed_items_node(), false, 128, &Vec::new(), &no_pick, &keep)
        .unwrap_err();
    assert!(matches!(
        error,
        SemanticError::Encode { ref path, ref message }
            if path == "TEST/data" && message == "schema default recursion exceeds 128 nodes"
    ));
}

#[test]
fn default_value_of_a_custom_node_is_refused() {
    let custom = node(
        8,
        "TEST/custom",
        SchemaNodeKind::Custom { decoder: "packed".to_owned(), minimum_version: 0 },
    );
    let error = default_value_for_node(&custom, false, 0, &Vec::new(), &no_pick, &keep).unwrap_err();
    assert!(matches!(
        error,
        SemanticError::Encode { ref message, .. }
            if message == "custom decoder packed has no schema-native default"
    ));
}

#[test]
fn default_value_uses_the_picked_union_variant() {
    let union = node(
        5,
        "TEST/choice",
        SchemaNodeKind::Union {
            selector: UnionSelector::Expression(Expression::Int { value: 1 }),
            variants: vec![
                integer_node(6, "TEST/choice/narrow", 1),
                node(
                    7,
                    "TEST/choice/text",
                    SchemaNodeKind::Primitive {
                        primitive: PrimitiveType::Bytes { length: Some(2) },
                    },
                ),
            ],
        },
    );
    let second = |_: &SchemaNode| Ok(1);
    let value = default_value_for_node(&union, false, 0, &Vec::new(), &second, &keep).unwrap();
    assert!(matches!(value, OwnedFieldValue::Bytes(ref bytes) if bytes == &vec![0, 0]));

    let negative = |_: &SchemaNode| Ok(-1);
    let error = default_value_for_node(&union, false, 0, &Vec::new(), &negative, &keep).unwrap_err();
    assert!(matches!(
        error,
        SemanticError::Encode { ref message, .. } if message == "default union selector returned a negative"
    ));

    let beyond = |_: &SchemaNode| Ok(2);
    let error = default_value_for_node(&union, false, 0, &Vec::new(), &beyond, &keep).unwrap_err();
    assert!(matches!(
        error,
        SemanticError::Encode { ref message, .. } if message == "default union selector is out of range"
    ));
}

#[test]
fn reset_nested_value_builds_a_fresh_value_at_the_match() {
    let schema = record_node();
    let mut value = record_value();
    let mut occurrence = 1;
    let seen = std::cell::RefCell::new(Vec::new());
    let recording = |node: &SchemaNode, value: OwnedFieldValue, indices: &Vec<usize>| {
        seen.borrow_mut().push((node.path.clone(), indices.clone()));
        Ok(value)
    };
    let written = reset_nested_value(
        &schema,
        &mut value,
        "TEST/data/items/element",
        &mut occurrence,
        &Vec::new(),
        false,
        &registry(),
        &no_union,
        &narrow,
        &no_pick,
        &recording,
    )
    .unwrap();
    assert!(written);
    assert_eq!(occurrence, 0);
    assert_eq!(items(&value), vec![10, 0, 30]);
    assert_eq!(*seen.borrow(), vec![("TEST/data/items/element".to_owned(), vec![1])]);
}

#[test]
fn reset_nested_value_leaves_the_value_when_no_match_remains() {
    let schema = record_node();
    let mut value = record_value();
    let mut occurrence = 3;
    let written = reset_nested_value(
        &schema,
        &mut value,
        "TEST/data/items/element",
        &mut occurrence,
        &Vec::new(),
        false,
        &registry(),
        &no_union,
        &narrow,
        &no_pick,
        &keep,
    )
    .unwrap();
    assert!(!written);
    assert_eq!(occurrence, 0);
    assert_eq!(items(&value), vec![10, 20, 30]);
}

#[test]
fn reset_nested_value_reports_a_failed_default() {
    let schema = record_node();
    let mut value = record_value();
    let mut occurrence = 0;
    let refusing = |node: &SchemaNode, _: OwnedFieldValue, _: &Vec<usize>| {
        Err(SemanticError::Handler { handler: node.path.clone(), message: "refused".to_owned() })
    };
    let error = reset_nested_value(
        &schema,
        &mut value,
        "TEST/data/flag",
        &mut occurrence,
        &Vec::new(),
        false,
        &registry(),
        &no_union,
        &narrow,
        &no_pick,
        &refusing,
    )
    .unwrap_err();
    assert!(matches!(error, SemanticError::Handler { ref handler, .. } if handler == "TEST/data/flag"));
    assert_eq!(items(&value), vec![10, 20, 30]);
}
