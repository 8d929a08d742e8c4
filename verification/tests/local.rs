use bethkit_semantic::decoder::{DecoderRegistry, ZeroWidthIntegerDecoder};
use bethkit_semantic::local::{apply_local_default_mutations, apply_local_set_mutations};
use bethkit_semantic::mutation::{mutation_path, HandlerMutation};
use bethkit_semantic::model::{SchemaNodeId, Signature};
use bethkit_semantic::schema::{
    ArrayCount, ByteOrder, IntegerType, PrimitiveType, SchemaNode, SchemaNodeKind,
};
use bethkit_semantic::value::{OwnedFieldValue, SemanticError};

fn narrow(bits: u64) -> u32 {
    (f64::from_bits(bits) as f32).to_bits()
}

fn no_union(_: &SchemaNode, _: usize, _: &Vec<u8>) -> Result<Option<i64>, SemanticError> {
    Ok(None)
}

fn registry() -> DecoderRegistry<ZeroWidthIntegerDecoder> {
    DecoderRegistry::builtin()
}

fn node(id: u32, path: &str, kind: SchemaNodeKind) -> SchemaNode {
    SchemaNode {
        id: SchemaNodeId(id),
        path: path.to_owned(),
        name: path.rsplit('/').next().unwrap_or(path).to_owned(),
        required: true,
        condition: None,
        kind,
    }
}

fn integer_node(id: u32, path: &str, width: u8) -> SchemaNode {
    node(
        id,
        path,
        SchemaNodeKind::Primitive {
            primitive: PrimitiveType::Integer {
                integer: IntegerType { width, signed: false, byte_order: ByteOrder::LittleEndian },
            },
        },
    )
}

/// A struct of a byte and a byte array with a one-byte count prefix.
fn record_node() -> SchemaNode {
    node(
        1,
        "TEST/data",
        SchemaNodeKind::Struct {
            fields: vec![
                integer_node(2, "TEST/data/flag", 1),
                node(
                    3,
                    "TEST/data/items",
                    SchemaNodeKind::Array {
                        element: Box::new(integer_node(4, "TEST/data/items/element", 1)),
                        count: ArrayCount::Prefixed {
                            integer: IntegerType {
                                width: 1,
                                signed: false,
                                byte_order: ByteOrder::LittleEndian,
                            },
                            terminator: None,
                        },
                    },
                ),
            ],
        },
    )
}

fn record_value() -> OwnedFieldValue {
    OwnedFieldValue::Struct(vec![
        OwnedFieldValue::UInt(1),
        OwnedFieldValue::Array(vec![
            OwnedFieldValue::UInt(10),
            OwnedFieldValue::UInt(20),
            OwnedFieldValue::UInt(30),
        ]),
    ])
}

fn uint(value: Option<&OwnedFieldValue>) -> Option<u64> {
    match value {
        Some(OwnedFieldValue::UInt(v)) => Some(*v),
        _ => None,
    }
}

fn items(value: &OwnedFieldValue) -> Vec<u64> {
    match value {
        OwnedFieldValue::Struct(members) => match &members[1] {
            OwnedFieldValue::Array(items) => items.iter().map(|item| uint(Some(item)).unwrap()).collect(),
            _ => panic!("items are not an array"),
        },
        _ => panic!("value is not a struct"),
    }
}

fn no_pick(_: &SchemaNode) -> Result<i64, SemanticError> {
    Ok(0)
}

fn keep(_: &SchemaNode, value: OwnedFieldValue, _: &Vec<usize>) -> Result<OwnedFieldValue, SemanticError> {
    Ok(value)
}

fn paths(mutations: &[HandlerMutation]) -> Vec<String> {
    mutations.iter().map(|m| mutation_path(m).to_owned()).collect()
}

#[test]
fn mutation_path_names_the_path_of_every_kind() {
    let mutations = vec![
        HandlerMutation::SetRecordFlags { path: "ARMO".to_owned(), flags: 4 },
        HandlerMutation::RemoveAllBySignature {
            path: "ARMO/KWDA".to_owned(),
            signature: Signature(*b"KWDA"),
        },
        HandlerMutation::SynchronizeCount {
            path: "ARMO/KSIZ".to_owned(),
            occurrence: 0,
            value: 2,
            remove_when_zero: true,
        },
        HandlerMutation::InsertDefault { path: "ARMO/DATA".to_owned() },
    ];
    assert_eq!(paths(&mutations), vec!["ARMO", "ARMO/KWDA", "ARMO/KSIZ", "ARMO/DATA"]);
}

#[test]
fn local_writes_apply_inside_the_node_and_keep_the_rest_in_order() {
    let schema = record_node();
    let mut value = record_value();
    let mut mutations = vec![
        HandlerMutation::RemoveAll { path: "TEST/other".to_owned() },
        HandlerMutation::SetValue {
            path: "TEST/data/items/element".to_owned(),
            occurrence: 0,
            value: OwnedFieldValue::UInt(11),
        },
        HandlerMutation::SetValue {
            path: "TEST/database".to_owned(),
            occurrence: 0,
            value: OwnedFieldValue::UInt(1),
        },
        HandlerMutation::SetIfEqual {
            path: "TEST/data/items/element".to_owned(),
            occurrence: 1,
            expected: OwnedFieldValue::Int(20),
            value: OwnedFieldValue::UInt(22),
        },
        HandlerMutation::SetIfEqual {
            path: "TEST/data/items/element".to_owned(),
            occurrence: 2,
            expected: OwnedFieldValue::UInt(31),
            value: OwnedFieldValue::UInt(33),
        },
    ];
    apply_local_set_mutations(&schema, &mut value, &mut mutations, false, &registry(), &no_union, &narrow)
        .unwrap();
    assert_eq!(items(&value), vec![11, 22, 30]);
    assert_eq!(paths(&mutations), vec!["TEST/other", "TEST/database"]);
}

#[test]
fn local_write_to_a_missing_occurrence_reports_the_remaining_count() {
    let schema = record_node();
    let mut value = record_value();
    let mut mutations = vec![
        HandlerMutation::SetValue {
            path: "TEST/data/items/element".to_owned(),
            occurrence: 0,
            value: OwnedFieldValue::UInt(11),
        },
        HandlerMutation::SetValue {
            path: "TEST/data/items/element".to_owned(),
            occurrence: 5,
            value: OwnedFieldValue::UInt(1),
        },
        HandlerMutation::RemoveAll { path: "TEST/other".to_owned() },
    ];
    let error = apply_local_set_mutations(
        &schema,
        &mut value,
        &mut mutations,
        false,
        &registry(),
        &no_union,
        &narrow,
    )
    .unwrap_err();
    assert!(matches!(
        error,
        SemanticError::MissingOccurrence { ref path, occurrence: 2 } if path == "TEST/data/items/element"
    ));
    assert!(mutations.is_empty());
    assert_eq!(items(&value), vec![11, 20, 30]);
}

#[test]
fn conditional_local_write_to_a_missing_occurrence_reports_that_occurrence() {
    let schema = record_node();
    let mut value = record_value();
    let mut mutations = vec![HandlerMutation::SetIfEqual {
        path: "TEST/data/items/element".to_owned(),
        occurrence: 4,
        expected: OwnedFieldValue::UInt(0),
        value: OwnedFieldValue::UInt(1),
    }];
    let error = apply_local_set_mutations(
        &schema,
        &mut value,
        &mut mutations,
        false,
        &registry(),
        &no_union,
        &narrow,
    )
    .unwrap_err();
    assert!(matches!(
        error,
        SemanticError::MissingOccurrence { ref path, occurrence: 4 } if path == "TEST/data/items/element"
    ));
}

#[test]
fn local_resets_rebuild_defaults_and_keep_the_rest() {
    let schema = record_node();
    let mut value = record_value();
    let mut mutations = vec![
        HandlerMutation::ResetToDefault { path: "TEST/data/items/element".to_owned(), occurrence: 2 },
        HandlerMutation::SetValue {
            path: "TEST/data/flag".to_owned(),
            occurrence: 0,
            value: OwnedFieldValue::UInt(1),
        },
        HandlerMutation::ResetToDefault { path: "TEST/elsewhere".to_owned(), occurrence: 0 },
    ];
    apply_local_default_mutations(
        &schema,
        &mut value,
        &mut mutations,
        false,
        &registry(),
        &no_union,
        &narrow,
        &no_pick,
        &keep,
    )
    .unwrap();
    assert_eq!(items(&value), vec![10, 20, 0]);
    assert_eq!(paths(&mutations), vec!["TEST/data/flag", "TEST/elsewhere"]);
}

#[test]
fn local_reset_of_a_missing_occurrence_fails() {
    let schema = record_node();
    let mut value = record_value();
    let mut mutations = vec![HandlerMutation::ResetToDefault {
        path: "TEST/data/items/element".to_owned(),
        occurrence: 3,
    }];
    let error = apply_local_default_mutations(
        &schema,
        &mut value,
        &mut mutations,
        false,
        &registry(),
        &no_union,
        &narrow,
        &no_pick,
        &keep,
    )
    .unwrap_err();
    assert!(matches!(
        error,
        SemanticError::MissingOccurrence { ref path, occurrence: 3 } if path == "TEST/data/items/element"
    ));
    assert!(mutations.is_empty());
}
