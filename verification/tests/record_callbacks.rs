use bethkit_semantic::assignment::{Assignment, GrammarMatch};
use bethkit_semantic::context::{CallbackBinding, CallbackImplementation, HandlerOutput};
use bethkit_semantic::decoded::DecodedValues;
use bethkit_semantic::decoder::{DecoderRegistry, ZeroWidthIntegerDecoder};
use bethkit_semantic::record_editor::RecordEditor;
use bethkit_semantic::model::{FormId, SchemaNodeId, Signature, WritableRecord, WritableSubRecord};
use bethkit_semantic::mutation::HandlerMutation;
use bethkit_semantic::schema::{ByteOrder, IntegerType, PrimitiveType, SchemaNode, SchemaNodeKind};
use bethkit_semantic::value::{FieldValue, OwnedFieldValue, SemanticError};

const COUNT_PATH: &str = "TEST/2:Value Count";
const VALUES_PATH: &str = "TEST/3:Values";

fn narrow(bits: u64) -> u32 {
    (f64::from_bits(bits) as f32).to_bits()
}

fn no_union(_: &SchemaNode, _: usize, _: &Vec<u8>) -> Result<Option<i64>, SemanticError> {
    Ok(None)
}

fn no_pick(_: &SchemaNode) -> Result<i64, SemanticError> {
    Ok(0)
}

fn keep(_: &SchemaNode, value: OwnedFieldValue, _: &Vec<usize>) -> Result<OwnedFieldValue, SemanticError> {
    Ok(value)
}

fn registry() -> DecoderRegistry<ZeroWidthIntegerDecoder> {
    DecoderRegistry::builtin()
}

fn subrecord(id: u32, path: &str, signature: &[u8; 4], required: bool, primitive: PrimitiveType) -> SchemaNode {
    SchemaNode {
        id: SchemaNodeId(id),
        path: path.to_owned(),
        name: path.to_owned(),
        required,
        condition: None,
        kind: SchemaNodeKind::Subrecord {
            signature: Signature(*signature),
            payload: Box::new(SchemaNode {
                id: SchemaNodeId(id + 100),
                path: format!("{path}/payload"),
                name: "Payload".to_owned(),
                required: true,
                condition: None,
                kind: SchemaNodeKind::Primitive { primitive },
            }),
        },
    }
}

/// Two AAAA subrecords at different paths, an optional value count and the values.
fn schema() -> SchemaNode {
    let raw = || PrimitiveType::Bytes { length: None };
    let count = PrimitiveType::Integer {
        integer: IntegerType { width: 4, signed: false, byte_order: ByteOrder::LittleEndian },
    };
    SchemaNode {
        id: SchemaNodeId(0),
        path: "TEST".to_owned(),
        name: "Test".to_owned(),
        required: true,
        condition: None,
        kind: SchemaNodeKind::Sequence {
            children: vec![
                subrecord(1, "TEST/first", b"AAAA", true, raw()),
                subrecord(2, "TEST/second", b"AAAA", true, raw()),
                subrecord(3, COUNT_PATH, b"VCNT", false, count),
                subrecord(4, VALUES_PATH, b"VALU", true, raw()),
            ],
        },
    }
}

fn grammar(record: &WritableRecord) -> Result<GrammarMatch, SemanticError> {
    let mut assignments = Vec::new();
    let mut repeat_scopes = Vec::new();
    let mut seen_first = false;
    for sub in &record.subrecords {
        let (id, path) = match &sub.signature.0 {
            b"AAAA" if !seen_first => {
                seen_first = true;
                (1, "TEST/first")
            },
            b"AAAA" => (2, "TEST/second"),
            b"VCNT" => (3, COUNT_PATH),
            _ => (4, VALUES_PATH),
        };
        assignments.push(Some(Assignment { id: SchemaNodeId(id), path: path.to_owned() }));
        repeat_scopes.push(Vec::new());
    }
    Ok(GrammarMatch { assignments, repeat_scopes })
}

/// Sets the value count to the number of four-byte values the record holds.
fn sync_counts(
    _: &CallbackBinding,
    shown: &WritableRecord,
    _: Option<usize>,
    _: Option<&FieldValue>,
    _: Option<&FieldValue>,
) -> Result<HandlerOutput, SemanticError> {
    let bytes: usize = shown.subrecords.iter().filter(|s| &s.signature.0 == b"VALU").map(|s| s.data.len()).sum();
    Ok(HandlerOutput::Mutations(vec![HandlerMutation::SetValue {
        path: COUNT_PATH.to_owned(),
        occurrence: 0,
        value: OwnedFieldValue::UInt((bytes / 4) as u64),
    }]))
}

#[test]
fn editor_dispatches_record_after_set_callbacks() {
    let record = WritableRecord {
        signature: Signature(*b"TEST"),
        flags: 0,
        form_id: FormId(0),
        form_version: 44,
        subrecords: vec![
            WritableSubRecord { signature: Signature(*b"AAAA"), data: vec![1] },
            WritableSubRecord { signature: Signature(*b"AAAA"), data: vec![2] },
            WritableSubRecord { signature: Signature(*b"VCNT"), data: 2_u32.to_le_bytes().to_vec() },
            WritableSubRecord { signature: Signature(*b"VALU"), data: Vec::new() },
        ],
    };
    let mut editor = RecordEditor {
        root: schema(),
        record,
        decoded_values: DecodedValues::new(),
        bindings: vec![CallbackBinding {
            path: "TEST".to_owned(),
            callback_id: "def.after_set".to_owned(),
            implementation: CallbackImplementation::BuiltIn,
        }],
        localized: false,
        after_load_migrations: 0,
    };
    editor
        .remove(VALUES_PATH, 0, &registry(), &no_union, &narrow, &no_pick, &keep, &grammar, &sync_counts)
        .unwrap();
    assert_eq!(
        editor.record.subrecords.iter().map(|s| s.signature).collect::<Vec<_>>(),
        vec![Signature(*b"AAAA"), Signature(*b"AAAA"), Signature(*b"VCNT")]
    );
    assert_eq!(editor.record.subrecords[2].data, 0_u32.to_le_bytes());
}
