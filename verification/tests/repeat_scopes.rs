use bethkit_semantic::address::RepeatScope;
use bethkit_semantic::assignment::{changed_field_at, Assignment, GrammarMatch};
use bethkit_semantic::changes::apply_local_mutations_with_scope;
use bethkit_semantic::decoded::{remove_decoded_occurrence, DecodedValues};
use bethkit_semantic::decoder::{DecoderRegistry, ZeroWidthIntegerDecoder};
use bethkit_semantic::model::{FormId, SchemaNodeId, Signature, WritableRecord, WritableSubRecord};
use bethkit_semantic::mutation::HandlerMutation;
use bethkit_semantic::schema::{ByteOrder, IntegerType, PrimitiveType, SchemaNode, SchemaNodeKind};
use bethkit_semantic::value::{FieldValue, OwnedFieldValue, SemanticError};

const GROUP_PATH: &str = "TEST/0:Groups/repeat/0:Group";
const COUNTER_PATH: &str = "TEST/0:Groups/repeat/0:Group/0:Count";
const VALUE_PATH: &str = "TEST/0:Groups/repeat/0:Group/1:Values";

fn narrow(bits: u64) -> u32 {
    (f64::from_bits(bits) as f32).to_bits()
}

fn no_union(_: &SchemaNode, _: usize, _: &Vec<u8>) -> Result<Option<i64>, SemanticError> {
    Ok(None)
}

fn no_pick(_: &SchemaNode) -> Result<i64, SemanticError> {
    Ok(0)
}

fn keep(_: &SchemaNode, value: OwnedFieldValue, _: &Vec<usize>) -> Result<OwnedFieldValue, SemanticError> {
    Ok(value)
}

fn node(id: u32, path: &str, required: bool, kind: SchemaNodeKind) -> SchemaNode {
    SchemaNode { id: SchemaNodeId(id), path: path.to_owned(), name: path.to_owned(), required, condition: None, kind }
}

fn subrecord(id: u32, path: &str, signature: [u8; 4], required: bool, primitive: PrimitiveType) -> SchemaNode {
    node(
        id,
        path,
        required,
        SchemaNodeKind::Subrecord {
            signature: Signature(signature),
            payload: Box::new(node(id + 100, &format!("{path}/payload"), true, SchemaNodeKind::Primitive { primitive })),
        },
    )
}

/// Repeated groups of a four-byte counter and an optional byte value.
fn schema() -> SchemaNode {
    let counter = PrimitiveType::Integer {
        integer: IntegerType { width: 4, signed: false, byte_order: ByteOrder::LittleEndian },
    };
    node(
        0,
        "TEST",
        true,
        SchemaNodeKind::Repeat {
            minimum: 0,
            maximum: None,
            child: Box::new(node(
                1,
                GROUP_PATH,
                false,
                SchemaNodeKind::Sequence {
                    children: vec![
                        subrecord(2, COUNTER_PATH, *b"VCNT", true, counter),
                        subrecord(3, VALUE_PATH, *b"VALU", false, PrimitiveType::Bytes { length: None }),
                    ],
                },
            )),
        },
    )
}

/// Each counter opens the next group; a value belongs to the group it follows.
fn grammar(record: &WritableRecord) -> Result<GrammarMatch, SemanticError> {
    let mut assignments = Vec::new();
    let mut repeat_scopes = Vec::new();
    let mut group: Option<u32> = None;
    for sub in &record.subrecords {
        let (id, path) = if &sub.signature.0 == b"VCNT" {
            group = Some(group.map_or(0, |g| g + 1));
            (2, COUNTER_PATH)
        } else {
            if group.is_none() {
                group = Some(0);
            }
            (3, VALUE_PATH)
        };
        assignments.push(Some(Assignment { id: SchemaNodeId(id), path: path.to_owned() }));
        repeat_scopes.push(vec![RepeatScope { path: GROUP_PATH.to_owned(), occurrence: group.unwrap() }]);
    }
    Ok(GrammarMatch { assignments, repeat_scopes })
}

fn sub(signature: &[u8; 4], data: Vec<u8>) -> WritableSubRecord {
    WritableSubRecord { signature: Signature(*signature), data }
}

fn counter_groups() -> (WritableRecord, DecodedValues) {
    let record = WritableRecord {
        signature: Signature(*b"TEST"),
        flags: 0,
        form_id: FormId(0),
        form_version: 44,
        subrecords: vec![
            sub(b"VCNT", 1_u32.to_le_bytes().to_vec()),
            sub(b"VALU", vec![1]),
            sub(b"VCNT", 1_u32.to_le_bytes().to_vec()),
            sub(b"VALU", vec![2]),
        ],
    };
    let mut decoded = DecodedValues::new();
    decoded.insert(COUNTER_PATH.to_owned(), 0, FieldValue::UInt(1));
    decoded.insert(COUNTER_PATH.to_owned(), 1, FieldValue::UInt(1));
    decoded.insert(VALUE_PATH.to_owned(), 0, FieldValue::Bytes(vec![1]));
    decoded.insert(VALUE_PATH.to_owned(), 1, FieldValue::Bytes(vec![2]));
    (record, decoded)
}

fn apply(
    record: &mut WritableRecord,
    decoded: &mut DecodedValues,
    index: usize,
    mutations: Vec<HandlerMutation>,
) -> Result<(), SemanticError> {
    let changed = changed_field_at("TEST", &grammar(record)?, index)?;
    apply_local_mutations_with_scope(
        &schema(),
        "TEST",
        record,
        decoded,
        &changed,
        mutations,
        false,
        &DecoderRegistry::<ZeroWidthIntegerDecoder>::builtin(),
        &no_union,
        &narrow,
        &no_pick,
        &keep,
        &grammar,
    )
}

fn layout(record: &WritableRecord) -> Vec<([u8; 4], Vec<u8>)> {
    record.subrecords.iter().map(|s| (s.signature.0, s.data.clone())).collect()
}

fn bytes(decoded: &DecodedValues, path: &str, occurrence: usize) -> Option<Vec<u8>> {
    match decoded.get(path, occurrence) {
        Some(FieldValue::Bytes(b)) => Some(b.clone()),
        _ => None,
    }
}

#[test]
fn local_callback_set_targets_changed_repeat_scope() {
    let (mut record, mut decoded) = counter_groups();
    apply(
        &mut record,
        &mut decoded,
        2,
        vec![HandlerMutation::SetValue {
            path: COUNTER_PATH.to_owned(),
            occurrence: 0,
            value: OwnedFieldValue::UInt(7),
        }],
    )
    .unwrap();
    assert_eq!(record.subrecords[0].data, 1_u32.to_le_bytes());
    assert_eq!(record.subrecords[2].data, 7_u32.to_le_bytes());
    assert!(matches!(decoded.get(COUNTER_PATH, 0), Some(FieldValue::UInt(1))));
    assert!(matches!(decoded.get(COUNTER_PATH, 1), Some(FieldValue::UInt(7))));
}

#[test]
fn local_callback_presence_inserts_inside_changed_repeat_scope() {
    let (mut record, mut decoded) = counter_groups();
    record.subrecords.remove(1);
    remove_decoded_occurrence(&mut decoded, VALUE_PATH, 0);
    apply(
        &mut record,
        &mut decoded,
        0,
        vec![HandlerMutation::SynchronizePresence {
            path: VALUE_PATH.to_owned(),
            occurrence: 0,
            present: true,
            value: OwnedFieldValue::Bytes(vec![9]),
        }],
    )
    .unwrap();
    assert_eq!(
        layout(&record),
        vec![
            (*b"VCNT", 1_u32.to_le_bytes().to_vec()),
            (*b"VALU", vec![9]),
            (*b"VCNT", 1_u32.to_le_bytes().to_vec()),
            (*b"VALU", vec![2]),
        ]
    );
    assert_eq!(bytes(&decoded, VALUE_PATH, 0), Some(vec![9]));
    assert_eq!(bytes(&decoded, VALUE_PATH, 1), Some(vec![2]));
}

#[test]
fn local_callback_remove_all_preserves_other_repeat_scopes() {
    let (mut record, mut decoded) = counter_groups();
    apply(&mut record, &mut decoded, 0, vec![HandlerMutation::RemoveAll { path: VALUE_PATH.to_owned() }]).unwrap();
    assert_eq!(
        layout(&record),
        vec![
            (*b"VCNT", 1_u32.to_le_bytes().to_vec()),
            (*b"VCNT", 1_u32.to_le_bytes().to_vec()),
            (*b"VALU", vec![2]),
        ]
    );
    assert_eq!(bytes(&decoded, VALUE_PATH, 0), Some(vec![2]));
    assert_eq!(decoded.get(VALUE_PATH, 1).is_none(), true);
}

#[test]
fn local_mutations_outside_every_repetition_apply_to_the_whole_record() {
    let (mut record, mut decoded) = counter_groups();
    apply(
        &mut record,
        &mut decoded,
        0,
        vec![HandlerMutation::SetRecordFlags { path: "TEST".to_owned(), flags: 2 }],
    )
    .unwrap();
    assert_eq!(record.flags, 2);
}
