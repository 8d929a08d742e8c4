use bethkit_semantic::address::RepeatScope;
use bethkit_semantic::apply::apply_mutations_with_values;
use bethkit_semantic::assignment::{Assignment, GrammarMatch};
use bethkit_semantic::decoded::DecodedValues;
use bethkit_semantic::decoder::{DecoderRegistry, ZeroWidthIntegerDecoder};
use bethkit_semantic::model::{FormId, SchemaNodeId, Signature, WritableRecord, WritableSubRecord};
use bethkit_semantic::mutation::HandlerMutation;
use bethkit_semantic::schema::{ByteOrder, IntegerType, PrimitiveType, SchemaNode, SchemaNodeKind};
use bethkit_semantic::value::{OwnedFieldValue, SemanticError};

fn narrow(bits: u64) -> u32 {
    (f64::from_bits(bits) as f32).to_bits()
}

fn no_union(_: &SchemaNode, _: usize, _: &Vec<u8>) -> Result<Option<i64>, SemanticError> {
    Ok(None)
}

fn no_pick(_: &SchemaNode) -> Result<i64, SemanticError> {
    Ok(0)
}

fn keep(_: &SchemaNode, value: OwnedFieldValue, _: &Vec<usize>) -> Result<OwnedFieldValue, SemanticError> {
    Ok(value)
}

fn payload_node(id: u32, path: &str, primitive: PrimitiveType) -> SchemaNode {
    SchemaNode {
        id: SchemaNodeId(id),
        path: path.to_owned(),
        name: path.to_owned(),
        required: true,
        condition: None,
        kind: SchemaNodeKind::Primitive { primitive },
    }
}

fn subrecord(id: u32, path: &str, signature: &[u8; 4], required: bool, primitive: PrimitiveType) -> SchemaNode {
    SchemaNode {
        id: SchemaNodeId(id),
        path: path.to_owned(),
        name: path.to_owned(),
        required,
        condition: None,
        kind: SchemaNodeKind::Subrecord {
            signature: Signature(*signature),
            payload: Box::new(payload_node(id + 100, &format!("{path}/payload"), primitive)),
        },
    }
}

/// Two subrecords that share a signature, an optional counter and the counted values.
fn reused_signature_schema() -> SchemaNode {
    SchemaNode {
        id: SchemaNodeId(0),
        path: "TEST".to_owned(),
        name: "Test".to_owned(),
        required: true,
        condition: None,
        kind: SchemaNodeKind::Sequence {
            children: vec![
                subrecord(1, "TEST/first", b"AAAA", true, PrimitiveType::Bytes { length: None }),
                subrecord(2, "TEST/second", b"AAAA", true, PrimitiveType::Bytes { length: None }),
                subrecord(
                    3,
                    "TEST/2:Value Count",
                    b"VCNT",
                    false,
                    PrimitiveType::Integer {
                        integer: IntegerType { width: 4, signed: false, byte_order: ByteOrder::LittleEndian },
                    },
                ),
                subrecord(4, "TEST/3:Values", b"VALU", true, PrimitiveType::Bytes { length: None }),
            ],
        },
    }
}

/// Matches the schema's sequence in order: the first `AAAA` is `first`, the next one
/// `second`.
fn reused_signature_grammar(record: &WritableRecord) -> Result<GrammarMatch, SemanticError> {
    let mut seen_first = false;
    let mut assignments = Vec::new();
    let mut repeat_scopes = Vec::new();
    for sub in &record.subrecords {
        let (id, path) = match &sub.signature.0 {
            b"AAAA" if !seen_first => {
                seen_first = true;
                (1, "TEST/first")
            },
            b"AAAA" => (2, "TEST/second"),
            b"VCNT" => (3, "TEST/2:Value Count"),
            _ => (4, "TEST/3:Values"),
        };
        assignments.push(Some(Assignment { id: SchemaNodeId(id), path: path.to_owned() }));
        repeat_scopes.push(Vec::new());
    }
    Ok(GrammarMatch { assignments, repeat_scopes })
}

fn reused_signature_record() -> WritableRecord {
    WritableRecord {
        signature: Signature(*b"TEST"),
        flags: 0,
        form_id: FormId(0),
        form_version: 44,
        subrecords: vec![
            WritableSubRecord { signature: Signature(*b"AAAA"), data: vec![1] },
            WritableSubRecord { signature: Signature(*b"AAAA"), data: vec![2] },
            WritableSubRecord { signature: Signature(*b"VALU"), data: Vec::new() },
        ],
    }
}

fn apply(
    record: &mut WritableRecord,
    decoded_values: &mut DecodedValues,
    mutations: Vec<HandlerMutation>,
) -> Result<(), SemanticError> {
    apply_mutations_with_values(
        &reused_signature_schema(),
        "TEST",
        record,
        decoded_values,
        mutations,
        false,
        &DecoderRegistry::<ZeroWidthIntegerDecoder>::builtin(),
        &no_union,
        &narrow,
        &no_pick,
        &keep,
        &reused_signature_grammar,
    )
}

/// Synchronizes an optional counter, inserting it in schema order and removing it at zero.
#[test]
fn editor_synchronizes_optional_counter_transactionally() {
    let mut record = reused_signature_record();
    let mut decoded_values = DecodedValues::new();

    apply(
        &mut record,
        &mut decoded_values,
        vec![HandlerMutation::SynchronizeCount {
            path: "TEST/2:Value Count".to_owned(),
            occurrence: 0,
            value: 3,
            remove_when_zero: true,
        }],
    )
    .unwrap();

    assert_eq!(
        record.subrecords.iter().map(|subrecord| subrecord.signature).collect::<Vec<_>>(),
        vec![Signature(*b"AAAA"), Signature(*b"AAAA"), Signature(*b"VCNT"), Signature(*b"VALU")]
    );
    assert_eq!(record.subrecords[2].data, 3_u32.to_le_bytes());

    apply(
        &mut record,
        &mut decoded_values,
        vec![HandlerMutation::SynchronizeCount {
            path: "TEST/2:Value Count".to_owned(),
            occurrence: 0,
            value: 0,
            remove_when_zero: true,
        }],
    )
    .unwrap();
    assert_eq!(
        record.subrecords.iter().map(|subrecord| subrecord.signature).collect::<Vec<_>>(),
        vec![Signature(*b"AAAA"), Signature(*b"AAAA"), Signature(*b"VALU")]
    );
}

/// Synchronizes optional field presence without duplicates or missing-field errors.
#[test]
fn editor_synchronizes_optional_presence_idempotently() {
    let mut record = reused_signature_record();
    let mut decoded_values = DecodedValues::new();
    let present = || HandlerMutation::SynchronizePresence {
        path: "TEST/2:Value Count".to_owned(),
        occurrence: 0,
        present: true,
        value: OwnedFieldValue::UInt(0),
    };

    apply(&mut record, &mut decoded_values, vec![present(), present()]).unwrap();
    assert_eq!(
        record
            .subrecords
            .iter()
            .filter(|subrecord| subrecord.signature == Signature(*b"VCNT"))
            .count(),
        1
    );

    let absent = || HandlerMutation::SynchronizePresence {
        path: "TEST/2:Value Count".to_owned(),
        occurrence: 0,
        present: false,
        value: OwnedFieldValue::UInt(0),
    };
    apply(&mut record, &mut decoded_values, vec![absent(), absent()]).unwrap();
    assert!(record.subrecords.iter().all(|subrecord| subrecord.signature != Signature(*b"VCNT")));
}
