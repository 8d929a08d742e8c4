use bethkit_semantic::address::RepeatScope;
use bethkit_semantic::apply::apply_mutations_with_values;
use bethkit_semantic::assignment::{Assignment, GrammarMatch};
use bethkit_semantic::context::{CallbackBinding, CallbackImplementation, HandlerOutput};
use bethkit_semantic::decoded::DecodedValues;
use bethkit_semantic::decoder::{DecoderRegistry, ZeroWidthIntegerDecoder};
use bethkit_semantic::record_editor::RecordEditor;
use bethkit_semantic::model::{FormId, SchemaNodeId, Signature, WritableRecord, WritableSubRecord};
use bethkit_semantic::mutation::HandlerMutation;
use bethkit_semantic::schema::{ByteOrder, IntegerType, PrimitiveType, SchemaNode, SchemaNodeKind};
use bethkit_semantic::value::{FieldValue, OwnedFieldValue, SemanticError};

const GROUP_PATH: &str = "TEST/0:Groups/repeat/0:Group";
const COUNTER_PATH: &str = "TEST/0:Groups/repeat/0:Group/0:Count";
const VALUE_PATH: &str = "TEST/0:Groups/repeat/0:Group/1:Values";

fn narrow(bits: u64) -> u32 {
    (f64::from_bits(bits) as f32).to_bits()
}

fn no_union(_: &SchemaNode, _: usize, _: &Vec<u8>) -> Result<Option<i64>, SemanticError> {
    Ok(None)
}

fn no_pick(_: &SchemaNode) -> Result<i64, SemanticError> {
    Ok(0)
}

fn keep(_: &SchemaNode, value: OwnedFieldValue, _: &Vec<usize>) -> Result<OwnedFieldValue, SemanticError> {
    Ok(value)
}

fn registry() -> DecoderRegistry<ZeroWidthIntegerDecoder> {
    DecoderRegistry::builtin()
}

fn node(id: u32, path: &str, required: bool, kind: SchemaNodeKind) -> SchemaNode {
    SchemaNode { id: SchemaNodeId(id), path: path.to_owned(), name: path.to_owned(), required, condition: None, kind }
}

fn subrecord(id: u32, path: &str, signature: &[u8; 4], required: bool, primitive: PrimitiveType) -> SchemaNode {
    node(
        id,
        path,
        required,
        SchemaNodeKind::Subrecord {
            signature: Signature(*signature),
            payload: Box::new(node(id + 100, &format!("{path}/payload"), true, SchemaNodeKind::Primitive { primitive })),
        },
    )
}

/// Repeated groups of a four-byte value count and a raw value.
fn schema() -> SchemaNode {
    let count = PrimitiveType::Integer {
        integer: IntegerType { width: 4, signed: false, byte_order: ByteOrder::LittleEndian },
    };
    node(
        0,
        "TEST",
        true,
        SchemaNodeKind::Repeat {
            minimum: 0,
            maximum: None,
            child: Box::new(node(
                1,
                GROUP_PATH,
                false,
                SchemaNodeKind::Sequence {
                    children: vec![
                        subrecord(2, COUNTER_PATH, b"VCNT", true, count),
                        subrecord(3, VALUE_PATH, b"VALU", false, PrimitiveType::Bytes { length: None }),
                    ],
                },
            )),
        },
    )
}

/// Each VCNT opens a new group; its VALU belongs to the same group.
fn grammar(record: &WritableRecord) -> Result<GrammarMatch, SemanticError> {
    let mut assignments = Vec::new();
    let mut repeat_scopes = Vec::new();
    let mut group: Option<u32> = None;
    for sub in &record.subrecords {
        let (id, path) = if &sub.signature.0 == b"VCNT" {
            group = Some(group.map_or(0, |g| g + 1));
            (2, COUNTER_PATH)
        } else {
            (3, VALUE_PATH)
        };
        assignments.push(Some(Assignment { id: SchemaNodeId(id), path: path.to_owned() }));
        repeat_scopes.push(vec![RepeatScope { path: GROUP_PATH.to_owned(), occurrence: group.unwrap_or(0) }]);
    }
    Ok(GrammarMatch { assignments, repeat_scopes })
}

fn sub(signature: &[u8; 4], data: Vec<u8>) -> WritableSubRecord {
    WritableSubRecord { signature: Signature(*signature), data }
}

fn repeated_counter_groups() -> (WritableRecord, DecodedValues) {
    let record = WritableRecord {
        signature: Signature(*b"TEST"),
        flags: 0,
        form_id: FormId(0),
        form_version: 44,
        subrecords: vec![
            sub(b"VCNT", 1_u32.to_le_bytes().to_vec()),
            sub(b"VALU", vec![1]),
            sub(b"VCNT", 1_u32.to_le_bytes().to_vec()),
            sub(b"VALU", vec![2]),
        ],
    };
    let mut decoded = DecodedValues::new();
    decoded.insert(COUNTER_PATH.to_owned(), 0, FieldValue::UInt(1));
    decoded.insert(COUNTER_PATH.to_owned(), 1, FieldValue::UInt(1));
    decoded.insert(VALUE_PATH.to_owned(), 0, FieldValue::Bytes(vec![1]));
    decoded.insert(VALUE_PATH.to_owned(), 1, FieldValue::Bytes(vec![2]));
    (record, decoded)
}

/// Sets a group's value count to the number of values the group is shown to hold.
fn sync_counts(
    _: &CallbackBinding,
    shown: &WritableRecord,
    _: Option<usize>,
    _: Option<&FieldValue>,
    _: Option<&FieldValue>,
) -> Result<HandlerOutput, SemanticError> {
    let values = shown.subrecords.iter().filter(|s| &s.signature.0 == b"VALU").count() as u64;
    Ok(HandlerOutput::Mutations(vec![HandlerMutation::SetValue {
        path: COUNTER_PATH.to_owned(),
        occurrence: 0,
        value: OwnedFieldValue::UInt(values),
    }]))
}

#[test]
fn editor_removes_all_repeated_subrecords_transactionally() {
    let (mut record, mut decoded) = repeated_counter_groups();
    apply_mutations_with_values(
        &schema(),
        "TEST",
        &mut record,
        &mut decoded,
        vec![HandlerMutation::RemoveAll { path: VALUE_PATH.to_owned() }],
        false,
        &registry(),
        &no_union,
        &narrow,
        &no_pick,
        &keep,
        &grammar,
    )
    .unwrap();
    assert!(record.subrecords.iter().all(|s| s.signature != Signature(*b"VALU")));
    assert_eq!(record.subrecords.iter().filter(|s| s.signature == Signature(*b"VCNT")).count(), 2);
}

#[test]
fn repeated_container_callbacks_preserve_other_occurrences() {
    let (record, decoded_values) = repeated_counter_groups();
    let mut editor = RecordEditor {
        root: schema(),
        record,
        decoded_values,
        bindings: vec![CallbackBinding {
            path: GROUP_PATH.to_owned(),
            callback_id: "def.after_set".to_owned(),
            implementation: CallbackImplementation::BuiltIn,
        }],
        localized: false,
        after_load_migrations: 0,
    };
    editor
        .remove(VALUE_PATH, 0, &registry(), &no_union, &narrow, &no_pick, &keep, &grammar, &sync_counts)
        .unwrap();
    let record = editor.into_writable_record();
    assert_eq!(
        record.subrecords.iter().map(|s| (s.signature, s.data.clone())).collect::<Vec<_>>(),
        vec![
            (Signature(*b"VCNT"), 0_u32.to_le_bytes().to_vec()),
            (Signature(*b"VCNT"), 1_u32.to_le_bytes().to_vec()),
            (Signature(*b"VALU"), vec![2]),
        ]
    );
}
