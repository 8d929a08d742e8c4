use bethkit_semantic::apply::apply_mutations_with_values;
use bethkit_semantic::assignment::{Assignment, GrammarMatch};
use bethkit_semantic::convert::owned_to_handler_value;
use bethkit_semantic::decoded::DecodedValues;
use bethkit_semantic::decoder::{DecoderRegistry, ZeroWidthIntegerDecoder};
use bethkit_semantic::model::{FormId, SchemaNodeId, Signature, WritableRecord, WritableSubRecord};
use bethkit_semantic::mutation::HandlerMutation;
use bethkit_semantic::nested_edit::{apply_nested_set, apply_nested_set_if_equal};
use bethkit_semantic::schema::{ByteOrder, IntegerType, PrimitiveType, SchemaNode, SchemaNodeKind};
use bethkit_semantic::value::{owned_from_decoded, OwnedFieldValue, SemanticError};

const COUNT_PATH: &str = "TEST/0:IDLC/payload/0:Animation Count";
const UNUSED_PATH: &str = "TEST/0:IDLC/payload/1:Unused";

fn narrow(bits: u64) -> u32 {
    (f64::from_bits(bits) as f32).to_bits()
}

fn no_union(_: &SchemaNode, _: usize, _: &Vec<u8>) -> Result<Option<i64>, SemanticError> {
    Ok(None)
}

fn no_pick(_: &SchemaNode) -> Result<i64, SemanticError> {
    Ok(0)
}

fn keep(_: &SchemaNode, value: OwnedFieldValue, _: &Vec<usize>) -> Result<OwnedFieldValue, SemanticError> {
    Ok(value)
}

fn registry() -> DecoderRegistry<ZeroWidthIntegerDecoder> {
    DecoderRegistry::builtin()
}

fn node(id: u32, path: &str, kind: SchemaNodeKind) -> SchemaNode {
    SchemaNode { id: SchemaNodeId(id), path: path.to_owned(), name: path.to_owned(), required: true, condition: None, kind }
}

/// An animation control struct of a one-byte count and three unused bytes.
fn payload() -> SchemaNode {
    node(
        2,
        "TEST/0:IDLC/payload",
        SchemaNodeKind::Struct {
            fields: vec![
                node(
                    3,
                    COUNT_PATH,
                    SchemaNodeKind::Primitive {
                        primitive: PrimitiveType::Integer {
                            integer: IntegerType { width: 1, signed: false, byte_order: ByteOrder::LittleEndian },
                        },
                    },
                ),
                node(4, UNUSED_PATH, SchemaNodeKind::Primitive { primitive: PrimitiveType::Unused { length: 3 } }),
            ],
        },
    )
}

fn schema() -> SchemaNode {
    node(
        0,
        "TEST",
        SchemaNodeKind::Sequence {
            children: vec![node(
                1,
                "TEST/0:IDLC",
                SchemaNodeKind::Subrecord { signature: Signature(*b"IDLC"), payload: Box::new(payload()) },
            )],
        },
    )
}

fn grammar(record: &WritableRecord) -> Result<GrammarMatch, SemanticError> {
    let mut assignments = Vec::new();
    let mut repeat_scopes = Vec::new();
    for sub in &record.subrecords {
        assignments.push(if &sub.signature.0 == b"IDLC" {
            Some(Assignment { id: SchemaNodeId(1), path: "TEST/0:IDLC".to_owned() })
        } else {
            None
        });
        repeat_scopes.push(Vec::new());
    }
    Ok(GrammarMatch { assignments, repeat_scopes })
}

/// The record with its animation control and the control's decoded value.
fn nested_counter() -> (WritableRecord, DecodedValues) {
    let record = WritableRecord {
        signature: Signature(*b"TEST"),
        flags: 0,
        form_id: FormId(0),
        form_version: 44,
        subrecords: vec![WritableSubRecord { signature: Signature(*b"IDLC"), data: vec![1, 0xaa, 0xbb, 0xcc] }],
    };
    let decoded_value = owned_to_handler_value(
        &payload(),
        &OwnedFieldValue::Struct(vec![OwnedFieldValue::UInt(1), OwnedFieldValue::Bytes(vec![0xaa, 0xbb, 0xcc])]),
        false,
        &registry(),
        &no_union,
        &narrow,
    )
    .unwrap();
    let mut decoded = DecodedValues::new();
    decoded.insert("TEST/0:IDLC".to_owned(), 0, decoded_value);
    (record, decoded)
}

fn apply(record: &mut WritableRecord, decoded: &mut DecodedValues, mutations: Vec<HandlerMutation>) -> Result<(), SemanticError> {
    apply_mutations_with_values(
        &schema(),
        "TEST",
        record,
        decoded,
        mutations,
        false,
        &registry(),
        &no_union,
        &narrow,
        &no_pick,
        &keep,
        &grammar,
    )
}

#[test]
fn callback_mutations_update_nested_fields_transactionally() {
    let (mut record, mut decoded) = nested_counter();
    apply(
        &mut record,
        &mut decoded,
        vec![
            HandlerMutation::SetValue { path: COUNT_PATH.to_owned(), occurrence: 0, value: OwnedFieldValue::UInt(7) },
            HandlerMutation::SetValue {
                path: UNUSED_PATH.to_owned(),
                occurrence: 0,
                value: OwnedFieldValue::Bytes(vec![9, 8, 7]),
            },
        ],
    )
    .unwrap();
    assert_eq!(record.subrecords[0].data, vec![7, 9, 8, 7]);
    let cached = decoded.get("TEST/0:IDLC", 0).expect("the control keeps its decoded value");
    match owned_from_decoded(cached) {
        OwnedFieldValue::Struct(members) => {
            assert_eq!(members.len(), 2);
            assert!(matches!(members[0], OwnedFieldValue::UInt(7)));
            assert!(matches!(members[1], OwnedFieldValue::Bytes(ref b) if b == &vec![9, 8, 7]));
        },
        other => panic!("the control is not a struct: {other:?}"),
    }
}

#[test]
fn conditional_mutation_preserves_changed_nested_fields() {
    let (mut record, mut decoded) = nested_counter();
    apply(
        &mut record,
        &mut decoded,
        vec![HandlerMutation::SetIfEqual {
            path: COUNT_PATH.to_owned(),
            occurrence: 0,
            expected: OwnedFieldValue::UInt(1),
            value: OwnedFieldValue::UInt(7),
        }],
    )
    .unwrap();
    assert_eq!(record.subrecords[0].data, vec![7, 0xaa, 0xbb, 0xcc]);
    apply(
        &mut record,
        &mut decoded,
        vec![HandlerMutation::SetIfEqual {
            path: COUNT_PATH.to_owned(),
            occurrence: 0,
            expected: OwnedFieldValue::UInt(1),
            value: OwnedFieldValue::UInt(9),
        }],
    )
    .unwrap();
    assert_eq!(record.subrecords[0].data, vec![7, 0xaa, 0xbb, 0xcc]);
}

#[test]
fn nested_set_if_equal_accepts_an_integer_of_the_other_sign() {
    let (mut record, mut decoded) = nested_counter();
    apply_nested_set_if_equal(
        &schema(),
        &mut record,
        &mut decoded,
        COUNT_PATH,
        0,
        &OwnedFieldValue::Int(1),
        OwnedFieldValue::UInt(4),
        false,
        &registry(),
        &no_union,
        &narrow,
        &grammar,
    )
    .unwrap();
    assert_eq!(record.subrecords[0].data, vec![4, 0xaa, 0xbb, 0xcc]);
}

#[test]
fn nested_set_failures_leave_the_record_and_values_unchanged() {
    let (mut record, mut decoded) = nested_counter();
    let missing = apply_nested_set(
        &schema(),
        &mut record,
        &mut decoded,
        COUNT_PATH,
        1,
        OwnedFieldValue::UInt(5),
        false,
        &registry(),
        &no_union,
        &narrow,
        &grammar,
    )
    .unwrap_err();
    assert!(matches!(missing, SemanticError::MissingOccurrence { ref path, occurrence: 1 } if path == COUNT_PATH));
    let unknown = apply_nested_set(
        &schema(),
        &mut record,
        &mut decoded,
        "TEST/OTHER/value",
        0,
        OwnedFieldValue::UInt(5),
        false,
        &registry(),
        &no_union,
        &narrow,
        &grammar,
    )
    .unwrap_err();
    assert!(matches!(unknown, SemanticError::MissingPath(ref path) if path == "TEST/OTHER/value"));
    let too_wide = apply_nested_set(
        &schema(),
        &mut record,
        &mut decoded,
        COUNT_PATH,
        0,
        OwnedFieldValue::UInt(300),
        false,
        &registry(),
        &no_union,
        &narrow,
        &grammar,
    )
    .unwrap_err();
    assert!(matches!(too_wide, SemanticError::Encode { .. }));
    assert_eq!(record.subrecords[0].data, vec![1, 0xaa, 0xbb, 0xcc]);
    assert!(decoded.get("TEST/0:IDLC", 0).is_some());
}
