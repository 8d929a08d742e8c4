use bethkit_semantic::after_load::{apply_after_load_callbacks, apply_after_load_output};
use bethkit_semantic::assignment::{Assignment, GrammarMatch};
use bethkit_semantic::context::{CallbackBinding, CallbackImplementation, HandlerOutput};
use bethkit_semantic::decoded::DecodedValues;
use bethkit_semantic::decoder::{DecoderRegistry, ZeroWidthIntegerDecoder};
use bethkit_semantic::model::{FormId, SchemaNodeId, Signature, WritableRecord, WritableSubRecord};
use bethkit_semantic::mutation::HandlerMutation;
use bethkit_semantic::record_editor::RecordEditor;
use bethkit_semantic::schema::{PrimitiveType, SchemaNode, SchemaNodeKind};
use bethkit_semantic::value::{FieldValue, OwnedFieldValue, SemanticError};

fn narrow(bits: u64) -> u32 {
    (f64::from_bits(bits) as f32).to_bits()
}

fn no_union(_: &SchemaNode, _: usize, _: &Vec<u8>) -> Result<Option<i64>, SemanticError> {
    Ok(None)
}

fn no_pick(_: &SchemaNode) -> Result<i64, SemanticError> {
    Ok(0)
}

fn keep(_: &SchemaNode, value: OwnedFieldValue, _: &Vec<usize>) -> Result<OwnedFieldValue, SemanticError> {
    Ok(value)
}

fn registry() -> DecoderRegistry<ZeroWidthIntegerDecoder> {
    DecoderRegistry::builtin()
}

fn raw_subrecord(id: u32, path: &str, signature: &[u8; 4]) -> SchemaNode {
    SchemaNode {
        id: SchemaNodeId(id),
        path: path.to_owned(),
        name: path.to_owned(),
        required: false,
        condition: None,
        kind: SchemaNodeKind::Subrecord {
            signature: Signature(*signature),
            payload: Box::new(SchemaNode {
                id: SchemaNodeId(id + 10),
                path: format!("{path}/payload"),
                name: "Raw data".to_owned(),
                required: true,
                condition: None,
                kind: SchemaNodeKind::Primitive { primitive: PrimitiveType::Bytes { length: None } },
            }),
        },
    }
}

/// A main file header of a header and an author.
fn schema() -> SchemaNode {
    SchemaNode {
        id: SchemaNodeId(0),
        path: "TES4".to_owned(),
        name: "Main File Header".to_owned(),
        required: true,
        condition: None,
        kind: SchemaNodeKind::Sequence {
            children: vec![raw_subrecord(1, "TES4/0:Header", b"HEDR"), raw_subrecord(2, "TES4/1:Author", b"CNAM")],
        },
    }
}

fn grammar(record: &WritableRecord) -> Result<GrammarMatch, SemanticError> {
    let mut assignments = Vec::new();
    let mut repeat_scopes = Vec::new();
    for sub in &record.subrecords {
        assignments.push(match &sub.signature.0 {
            b"HEDR" => Some(Assignment { id: SchemaNodeId(1), path: "TES4/0:Header".to_owned() }),
            b"CNAM" => Some(Assignment { id: SchemaNodeId(2), path: "TES4/1:Author".to_owned() }),
            _ => None,
        });
        repeat_scopes.push(Vec::new());
    }
    Ok(GrammarMatch { assignments, repeat_scopes })
}

fn no_suffix(_: &CallbackBinding) -> Option<String> {
    None
}

/// Drops the first offset table of the header before anything is decoded.
fn remove_offset_data(
    _: &CallbackBinding,
    _: &WritableRecord,
    _: Option<usize>,
    _: Option<&FieldValue>,
    _: Option<&FieldValue>,
) -> Result<HandlerOutput, SemanticError> {
    Ok(HandlerOutput::Mutations(vec![HandlerMutation::RemoveFirstBySignature {
        path: "TES4".to_owned(),
        signature: Signature(*b"OFST"),
    }]))
}

fn sub(signature: &[u8; 4], data: Vec<u8>) -> WritableSubRecord {
    WritableSubRecord { signature: Signature(*signature), data }
}

fn header() -> WritableRecord {
    WritableRecord {
        signature: Signature(*b"TES4"),
        flags: 0,
        form_id: FormId(0),
        form_version: 0,
        subrecords: vec![
            sub(b"HEDR", (0_u8..12).collect()),
            sub(b"OFST", vec![1, 2, 3]),
            sub(b"OFST", vec![4, 5]),
            sub(b"CNAM", b"Author\0".to_vec()),
        ],
    }
}

fn binding(implementation: CallbackImplementation) -> CallbackBinding {
    CallbackBinding { path: "TES4".to_owned(), callback_id: "def.after_load".to_owned(), implementation }
}

fn run(
    record: &mut WritableRecord,
    bindings: &Vec<CallbackBinding>,
    invoke: &dyn Fn(
        &CallbackBinding,
        &WritableRecord,
        Option<usize>,
        Option<&FieldValue>,
        Option<&FieldValue>,
    ) -> Result<HandlerOutput, SemanticError>,
) -> Result<usize, SemanticError> {
    apply_after_load_callbacks(
        &schema(),
        "TES4",
        record,
        bindings,
        false,
        &registry(),
        &no_union,
        &narrow,
        &no_pick,
        &keep,
        &grammar,
        &no_suffix,
        &invoke,
    )
}

#[test]
fn editor_removes_first_offset_data_by_signature_before_decoding() {
    let source = header();
    let decode = |_: &WritableRecord| -> Result<DecodedValues, SemanticError> { Ok(DecodedValues::new()) };
    let editor = RecordEditor::new(
        schema(),
        header(),
        false,
        vec![binding(CallbackImplementation::BuiltIn)],
        &registry(),
        &no_union,
        &narrow,
        &no_pick,
        &keep,
        &grammar,
        &no_suffix,
        &remove_offset_data,
        &decode,
    )
    .unwrap();
    assert_eq!(source.subrecords.len(), 4);
    assert_eq!(editor.after_load_migration_count(), 1);
    assert!(!editor.is_localized());
    let record = editor.into_writable_record();
    assert_eq!(record.subrecords.len(), 3);
    assert_eq!(record.subrecords[0].signature, Signature(*b"HEDR"));
    assert_eq!(record.subrecords[0].data, (0_u8..12).collect::<Vec<_>>());
    assert_eq!(record.subrecords[1].signature, Signature(*b"OFST"));
    assert_eq!(record.subrecords[1].data, vec![4, 5]);
    assert_eq!(record.subrecords[2].signature, Signature(*b"CNAM"));
    assert_eq!(record.subrecords[2].data, b"Author\0".to_vec());
}

#[test]
fn after_load_callbacks_run_once_on_the_whole_record() {
    let mut record = header();
    let migrations = run(&mut record, &vec![binding(CallbackImplementation::BuiltIn)], &remove_offset_data).unwrap();
    assert_eq!(migrations, 1);
    assert_eq!(record.subrecords.len(), 3);
}

#[test]
fn after_load_callbacks_of_other_records_do_not_run() {
    let mut record = header();
    let other = CallbackBinding {
        path: "TES40".to_owned(),
        callback_id: "def.after_load".to_owned(),
        implementation: CallbackImplementation::BuiltIn,
    };
    assert_eq!(run(&mut record, &vec![other], &remove_offset_data).unwrap(), 0);
    assert_eq!(record.subrecords.len(), 4);
}

#[test]
fn an_unexecutable_after_load_callback_is_an_error() {
    let mut record = header();
    let err = run(&mut record, &vec![binding(CallbackImplementation::Unsupported)], &remove_offset_data).unwrap_err();
    assert!(matches!(err, SemanticError::Handler { ref message, .. } if message == "after-load callback is not executable"));
}

#[test]
fn anchored_after_load_callbacks_rewrite_each_anchor_subrecord() {
    let mut record = header();
    let author = CallbackBinding {
        path: "TES4/1:Author".to_owned(),
        callback_id: "def.after_load".to_owned(),
        implementation: CallbackImplementation::CustomHandler,
    };
    let rewrite = |_: &CallbackBinding,
                   _: &WritableRecord,
                   target: Option<usize>,
                   _: Option<&FieldValue>,
                   _: Option<&FieldValue>|
     -> Result<HandlerOutput, SemanticError> {
        assert_eq!(target, Some(3));
        Ok(HandlerOutput::SubrecordPayload(b"Editor\0".to_vec()))
    };
    assert_eq!(run(&mut record, &vec![author], &rewrite).unwrap(), 1);
    assert_eq!(record.subrecords[3].data, b"Editor\0".to_vec());
}

#[test]
fn after_load_outputs_that_do_not_fit_are_refused() {
    let mut record = header();
    let b = binding(CallbackImplementation::BuiltIn);
    let apply = |record: &mut WritableRecord, target: Option<usize>, output: HandlerOutput| {
        apply_after_load_output(
            &schema(),
            "TES4",
            record,
            &b,
            target,
            output,
            false,
            &registry(),
            &no_union,
            &narrow,
            &no_pick,
            &keep,
            &grammar,
        )
    };
    let bytes = apply(&mut record, None, HandlerOutput::SubrecordPayload(vec![1])).unwrap_err();
    assert!(matches!(bytes, SemanticError::Handler { ref message, .. }
        if message == "record-level after-load callback returned payload bytes"));
    let other = apply(&mut record, None, HandlerOutput::Integer(3)).unwrap_err();
    assert!(matches!(other, SemanticError::Handler { ref message, .. }
        if message == "after-load callback returned an invalid result"));
    assert!(!apply(&mut record, None, HandlerOutput::Mutations(Vec::new())).unwrap());
    assert!(!apply(&mut record, None, HandlerOutput::Nothing).unwrap());
    assert_eq!(record.subrecords.len(), 4);
    assert_eq!(record.subrecords[1].data, vec![1, 2, 3]);
}
