use bethkit_semantic::assignment::{Assignment, GrammarMatch};
use bethkit_semantic::convert::owned_to_handler_value;
use bethkit_semantic::decoded::DecodedValues;
use bethkit_semantic::decoder::{DecoderRegistry, ZeroWidthIntegerDecoder};
use bethkit_semantic::model::{FormId, SchemaNodeId, Signature, WritableRecord, WritableSubRecord};
use bethkit_semantic::context::{CallbackBinding, HandlerOutput};
use bethkit_semantic::editing::{insert_field, remove_field, set_value};
use bethkit_semantic::mutation::HandlerMutation;
use bethkit_semantic::parsed_edit::set_parsed_value;
use bethkit_semantic::value::FieldValue;
use bethkit_semantic::schema::{ByteOrder, IntegerType, PrimitiveType, SchemaNode, SchemaNodeKind};
use bethkit_semantic::value::{owned_from_decoded, OwnedFieldValue, SemanticError};

const COUNT_PATH: &str = "TEST/0:IDLC/payload/0:Animation Count";
const UNUSED_PATH: &str = "TEST/0:IDLC/payload/1:Unused";

fn narrow(bits: u64) -> u32 {
    (f64::from_bits(bits) as f32).to_bits()
}

fn no_union(_: &SchemaNode, _: usize, _: &Vec<u8>) -> Result<Option<i64>, SemanticError> {
    Ok(None)
}

fn no_pick(_: &SchemaNode) -> Result<i64, SemanticError> {
    Ok(0)
}

fn keep(_: &SchemaNode, value: OwnedFieldValue, _: &Vec<usize>) -> Result<OwnedFieldValue, SemanticError> {
    Ok(value)
}

fn registry() -> DecoderRegistry<ZeroWidthIntegerDecoder> {
    DecoderRegistry::builtin()
}

fn node(id: u32, path: &str, kind: SchemaNodeKind) -> SchemaNode {
    SchemaNode { id: SchemaNodeId(id), path: path.to_owned(), name: path.to_owned(), required: true, condition: None, kind }
}

/// An animation control struct of a one-byte count and three unused bytes.
fn payload() -> SchemaNode {
    node(
        2,
        "TEST/0:IDLC/payload",
        SchemaNodeKind::Struct {
            fields: vec![
                node(
                    3,
                    COUNT_PATH,
                    SchemaNodeKind::Primitive {
                        primitive: PrimitiveType::Integer {
                            integer: IntegerType { width: 1, signed: false, byte_order: ByteOrder::LittleEndian },
                        },
                    },
                ),
                node(4, UNUSED_PATH, SchemaNodeKind::Primitive { primitive: PrimitiveType::Unused { length: 3 } }),
            ],
        },
    )
}

fn schema() -> SchemaNode {
    node(
        0,
        "TEST",
        SchemaNodeKind::Sequence {
            children: vec![node(
                1,
                "TEST/0:IDLC",
                SchemaNodeKind::Subrecord { signature: Signature(*b"IDLC"), payload: Box::new(payload()) },
            )],
        },
    )
}

fn grammar(record: &WritableRecord) -> Result<GrammarMatch, SemanticError> {
    let mut assignments = Vec::new();
    let mut repeat_scopes = Vec::new();
    for sub in &record.subrecords {
        assignments.push(if &sub.signature.0 == b"IDLC" {
            Some(Assignment { id: SchemaNodeId(1), path: "TEST/0:IDLC".to_owned() })
        } else {
            None
        });
        repeat_scopes.push(Vec::new());
    }
    Ok(GrammarMatch { assignments, repeat_scopes })
}

/// The record with its animation control and the control's decoded value.
fn nested_counter() -> (WritableRecord, DecodedValues) {
    let record = WritableRecord {
        signature: Signature(*b"TEST"),
        flags: 0,
        form_id: FormId(0),
        form_version: 44,
        subrecords: vec![WritableSubRecord { signature: Signature(*b"IDLC"), data: vec![1, 0xaa, 0xbb, 0xcc] }],
    };
    let decoded_value = owned_to_handler_value(
        &payload(),
        &OwnedFieldValue::Struct(vec![OwnedFieldValue::UInt(1), OwnedFieldValue::Bytes(vec![0xaa, 0xbb, 0xcc])]),
        false,
        &registry(),
        &no_union,
        &narrow,
    )
    .unwrap();
    let mut decoded = DecodedValues::new();
    decoded.insert("TEST/0:IDLC".to_owned(), 0, decoded_value);
    (record, decoded)
}


fn same(_: &str, value: &OwnedFieldValue) -> Result<OwnedFieldValue, SemanticError> {
    Ok(value.clone())
}

fn refuse(path: &str, _: &OwnedFieldValue) -> Result<OwnedFieldValue, SemanticError> {
    Err(SemanticError::MissingPath(path.to_owned()))
}

fn quiet(_: &CallbackBinding, _: &FieldValue, _: Option<&FieldValue>) -> Result<HandlerOutput, SemanticError> {
    Ok(HandlerOutput::Nothing)
}

fn quiet_record(
    _: &CallbackBinding,
    _: &WritableRecord,
    _: Option<usize>,
    _: Option<&FieldValue>,
    _: Option<&FieldValue>,
) -> Result<HandlerOutput, SemanticError> {
    Ok(HandlerOutput::Nothing)
}

fn control(count: u64, unused: Vec<u8>) -> OwnedFieldValue {
    OwnedFieldValue::Struct(vec![OwnedFieldValue::UInt(count), OwnedFieldValue::Bytes(unused)])
}

fn set(
    record: &mut WritableRecord,
    decoded: &mut DecodedValues,
    path: &str,
    occurrence: usize,
    value: &OwnedFieldValue,
    normalize: &dyn Fn(&str, &OwnedFieldValue) -> Result<OwnedFieldValue, SemanticError>,
) -> Result<(), SemanticError> {
    set_value(
        &schema(),
        "TEST",
        record,
        decoded,
        path,
        occurrence,
        value,
        &Vec::new(),
        false,
        &registry(),
        &no_union,
        &narrow,
        &no_pick,
        &keep,
        &grammar,
        &normalize,
        &quiet,
        &quiet_record,
    )
}

#[test]
fn set_value_replaces_the_payload_and_the_decoded_value() {
    let (mut record, mut decoded) = nested_counter();
    set(&mut record, &mut decoded, "TEST/0:IDLC", 0, &control(5, vec![1, 2, 3]), &same).unwrap();
    assert_eq!(record.subrecords.len(), 1);
    assert_eq!(record.subrecords[0].data, vec![5, 1, 2, 3]);
    let cached = decoded.get("TEST/0:IDLC", 0).expect("the control keeps its decoded value");
    match owned_from_decoded(cached) {
        OwnedFieldValue::Struct(members) => {
            assert!(matches!(members[0], OwnedFieldValue::UInt(5)));
            assert!(matches!(members[1], OwnedFieldValue::Bytes(ref b) if b == &vec![1, 2, 3]));
        },
        other => panic!("the control is not a struct: {other:?}"),
    }
}

#[test]
fn set_value_failures_leave_the_record_and_values_unchanged() {
    let (mut record, mut decoded) = nested_counter();
    let nested = set(&mut record, &mut decoded, COUNT_PATH, 0, &OwnedFieldValue::UInt(5), &same).unwrap_err();
    assert!(matches!(nested, SemanticError::Encode { ref path, ref message }
        if path == COUNT_PATH && message == "only top-level subrecords can be replaced"));
    let missing = set(&mut record, &mut decoded, "TEST/0:IDLC", 1, &control(5, vec![1, 2, 3]), &same).unwrap_err();
    assert!(matches!(missing, SemanticError::MissingOccurrence { ref path, occurrence: 1 } if path == "TEST/0:IDLC"));
    let refused = set(&mut record, &mut decoded, "TEST/0:IDLC", 0, &control(5, vec![1, 2, 3]), &refuse).unwrap_err();
    assert!(matches!(refused, SemanticError::MissingPath(ref path) if path == "TEST/0:IDLC/payload"));
    let too_wide = set(&mut record, &mut decoded, "TEST/0:IDLC", 0, &control(300, vec![1, 2, 3]), &same).unwrap_err();
    assert!(matches!(too_wide, SemanticError::Encode { .. }));
    assert_eq!(record.subrecords[0].data, vec![1, 0xaa, 0xbb, 0xcc]);
    match owned_from_decoded(decoded.get("TEST/0:IDLC", 0).unwrap()) {
        OwnedFieldValue::Struct(members) => assert!(matches!(members[0], OwnedFieldValue::UInt(1))),
        other => panic!("the control is not a struct: {other:?}"),
    }
}

#[test]
fn remove_field_drops_the_subrecord_and_its_decoded_value() {
    let (mut record, mut decoded) = nested_counter();
    remove_field(
        &schema(),
        "TEST",
        &mut record,
        &mut decoded,
        "TEST/0:IDLC",
        0,
        &Vec::new(),
        false,
        &registry(),
        &no_union,
        &narrow,
        &no_pick,
        &keep,
        &grammar,
        &quiet_record,
    )
    .unwrap();
    assert!(record.subrecords.is_empty());
    assert!(decoded.get("TEST/0:IDLC", 0).is_none());
}

#[test]
fn remove_field_of_a_missing_occurrence_changes_nothing() {
    let (mut record, mut decoded) = nested_counter();
    let err = remove_field(
        &schema(),
        "TEST",
        &mut record,
        &mut decoded,
        "TEST/0:IDLC",
        1,
        &Vec::new(),
        false,
        &registry(),
        &no_union,
        &narrow,
        &no_pick,
        &keep,
        &grammar,
        &quiet_record,
    )
    .unwrap_err();
    assert!(matches!(err, SemanticError::MissingOccurrence { occurrence: 1, .. }));
    assert_eq!(record.subrecords.len(), 1);
    assert_eq!(record.subrecords[0].data, vec![1, 0xaa, 0xbb, 0xcc]);
    assert!(decoded.get("TEST/0:IDLC", 0).is_some());
}

fn insert(
    record: &mut WritableRecord,
    decoded: &mut DecodedValues,
    path: &str,
    value: &OwnedFieldValue,
) -> Result<(), SemanticError> {
    insert_field(
        &schema(),
        "TEST",
        record,
        decoded,
        path,
        value,
        &Vec::new(),
        false,
        &registry(),
        &no_union,
        &narrow,
        &no_pick,
        &keep,
        &grammar,
        &same,
        &quiet,
        &quiet_record,
    )
}

#[test]
fn insert_field_adds_the_next_occurrence() {
    let (mut record, mut decoded) = nested_counter();
    insert(&mut record, &mut decoded, "TEST/0:IDLC", &control(2, vec![4, 5, 6])).unwrap();
    assert_eq!(record.subrecords.len(), 2);
    assert_eq!(record.subrecords[0].data, vec![1, 0xaa, 0xbb, 0xcc]);
    assert_eq!(record.subrecords[1].signature, Signature(*b"IDLC"));
    assert_eq!(record.subrecords[1].data, vec![2, 4, 5, 6]);
    assert!(decoded.get("TEST/0:IDLC", 1).is_some());
}

#[test]
fn insert_field_below_a_subrecord_is_refused() {
    let (mut record, mut decoded) = nested_counter();
    let err = insert(&mut record, &mut decoded, COUNT_PATH, &OwnedFieldValue::UInt(2)).unwrap_err();
    assert!(matches!(err, SemanticError::Encode { ref message, .. } if message == "only top-level subrecords can be inserted"));
    assert_eq!(record.subrecords.len(), 1);
    assert!(decoded.get("TEST/0:IDLC", 1).is_none());
}

fn set_parsed(
    record: &mut WritableRecord,
    decoded: &mut DecodedValues,
    path: &str,
    occurrence: usize,
    value: &OwnedFieldValue,
    extra: Vec<HandlerMutation>,
) -> Result<(), SemanticError> {
    set_parsed_value(
        &schema(),
        "TEST",
        record,
        decoded,
        path,
        occurrence,
        value,
        extra,
        &Vec::new(),
        false,
        &registry(),
        &no_union,
        &narrow,
        &no_pick,
        &keep,
        &grammar,
        &same,
        &quiet,
        &quiet_record,
    )
}

#[test]
fn set_parsed_value_writes_inside_the_containing_subrecord() {
    let (mut record, mut decoded) = nested_counter();
    set_parsed(&mut record, &mut decoded, COUNT_PATH, 0, &OwnedFieldValue::UInt(9), Vec::new()).unwrap();
    assert_eq!(record.subrecords[0].data, vec![9, 0xaa, 0xbb, 0xcc]);
    match owned_from_decoded(decoded.get("TEST/0:IDLC", 0).unwrap()) {
        OwnedFieldValue::Struct(members) => assert!(matches!(members[0], OwnedFieldValue::UInt(9))),
        other => panic!("the control is not a struct: {other:?}"),
    }
}

#[test]
fn set_parsed_value_applies_the_parsed_mutations_last() {
    let (mut record, mut decoded) = nested_counter();
    let extra = vec![HandlerMutation::SetValue {
        path: UNUSED_PATH.to_owned(),
        occurrence: 0,
        value: OwnedFieldValue::Bytes(vec![1, 2, 3]),
    }];
    set_parsed(&mut record, &mut decoded, COUNT_PATH, 0, &OwnedFieldValue::UInt(9), extra).unwrap();
    assert_eq!(record.subrecords[0].data, vec![9, 1, 2, 3]);
}

#[test]
fn set_parsed_value_failures_leave_the_record_and_values_unchanged() {
    let (mut record, mut decoded) = nested_counter();
    let missing = set_parsed(&mut record, &mut decoded, COUNT_PATH, 1, &OwnedFieldValue::UInt(9), Vec::new()).unwrap_err();
    assert!(matches!(missing, SemanticError::MissingOccurrence { ref path, occurrence: 1 } if path == COUNT_PATH));
    let outside = set_parsed(&mut record, &mut decoded, "TEST", 0, &OwnedFieldValue::UInt(9), Vec::new()).unwrap_err();
    assert!(matches!(outside, SemanticError::MissingPath(ref path) if path == "TEST"));
    let too_wide = set_parsed(&mut record, &mut decoded, COUNT_PATH, 0, &OwnedFieldValue::UInt(300), Vec::new()).unwrap_err();
    assert!(matches!(too_wide, SemanticError::Encode { .. }));
    assert_eq!(record.subrecords[0].data, vec![1, 0xaa, 0xbb, 0xcc]);
}

#[test]
fn record_editor_commits_each_edit_as_one_transaction() {
    let (record, decoded_values) = nested_counter();
    let mut editor = bethkit_semantic::record_editor::RecordEditor {
        root: schema(),
        record,
        decoded_values,
        bindings: Vec::new(),
        localized: false,
        after_load_migrations: 0,
    };
    editor
        .set("TEST/0:IDLC", 0, &control(5, vec![1, 2, 3]), &registry(), &no_union, &narrow, &no_pick, &keep, &grammar, &same, &quiet, &quiet_record)
        .unwrap();
    assert_eq!(editor.record.subrecords[0].data, vec![5, 1, 2, 3]);
    editor
        .set_parsed_value(COUNT_PATH, 0, &OwnedFieldValue::UInt(6), Vec::new(), &registry(), &no_union, &narrow, &no_pick, &keep, &grammar, &same, &quiet, &quiet_record)
        .unwrap();
    assert_eq!(editor.record.subrecords[0].data, vec![6, 1, 2, 3]);
    editor
        .insert("TEST/0:IDLC", &control(2, vec![4, 5, 6]), &registry(), &no_union, &narrow, &no_pick, &keep, &grammar, &same, &quiet, &quiet_record)
        .unwrap();
    let refused = editor
        .set("TEST/0:IDLC", 0, &control(5, vec![1, 2, 3]), &registry(), &no_union, &narrow, &no_pick, &keep, &grammar, &refuse, &quiet, &quiet_record)
        .unwrap_err();
    assert!(matches!(refused, SemanticError::MissingPath(_)));
    editor
        .remove("TEST/0:IDLC", 0, &registry(), &no_union, &narrow, &no_pick, &keep, &grammar, &quiet_record)
        .unwrap();
    let record = editor.into_writable_record();
    assert_eq!(record.subrecords.len(), 1);
    assert_eq!(record.subrecords[0].data, vec![2, 4, 5, 6]);
}

fn editor_with(bindings: Vec<bethkit_semantic::context::CallbackBinding>) -> bethkit_semantic::record_editor::RecordEditor {
    let (record, decoded_values) = nested_counter();
    bethkit_semantic::record_editor::RecordEditor {
        root: schema(),
        record,
        decoded_values,
        bindings,
        localized: false,
        after_load_migrations: 0,
    }
}

fn editor_id_binding() -> CallbackBinding {
    CallbackBinding {
        path: "TEST".to_owned(),
        callback_id: "record.set_editor_id".to_owned(),
        implementation: bethkit_semantic::context::CallbackImplementation::BuiltIn,
    }
}

/// Stores the editor ID's length as the animation count.
fn count_editor_id(
    _: &CallbackBinding,
    _: &WritableRecord,
    _: Option<usize>,
    value: Option<&FieldValue>,
    _: Option<&FieldValue>,
) -> Result<HandlerOutput, SemanticError> {
    let length = match value {
        Some(FieldValue::String(text)) => text.len() as u64,
        _ => 0,
    };
    Ok(HandlerOutput::Mutations(vec![HandlerMutation::SetValue {
        path: COUNT_PATH.to_owned(),
        occurrence: 0,
        value: OwnedFieldValue::UInt(length),
    }]))
}

#[test]
fn record_editor_id_is_set_through_its_callback() {
    let mut editor = editor_with(vec![editor_id_binding()]);
    assert!(editor.set_record_editor_id("abc", &registry(), &no_union, &narrow, &grammar, &count_editor_id).unwrap());
    assert_eq!(editor.record.subrecords[0].data, vec![3, 0xaa, 0xbb, 0xcc]);

    let mut unbound = editor_with(Vec::new());
    assert!(!unbound.set_record_editor_id("abc", &registry(), &no_union, &narrow, &grammar, &count_editor_id).unwrap());
    assert_eq!(unbound.record.subrecords[0].data, vec![1, 0xaa, 0xbb, 0xcc]);
}

#[test]
fn record_editor_id_callbacks_that_do_not_fit_are_refused() {
    let mut twice = editor_with(vec![editor_id_binding(), editor_id_binding()]);
    let err = twice.set_record_editor_id("abc", &registry(), &no_union, &narrow, &grammar, &count_editor_id).unwrap_err();
    assert!(matches!(err, SemanticError::Handler { ref message, .. } if message == "record editor-ID callback is bound more than once"));

    let mut editor = editor_with(vec![editor_id_binding()]);
    let nothing = |_: &CallbackBinding, _: &WritableRecord, _: Option<usize>, _: Option<&FieldValue>, _: Option<&FieldValue>| {
        Ok(HandlerOutput::Nothing)
    };
    let err = editor.set_record_editor_id("abc", &registry(), &no_union, &narrow, &grammar, &nothing).unwrap_err();
    assert!(matches!(err, SemanticError::Handler { ref message, .. } if message == "record editor-ID callback returned invalid mutations"));

    let two = |_: &CallbackBinding, _: &WritableRecord, _: Option<usize>, _: Option<&FieldValue>, _: Option<&FieldValue>| {
        let set = || HandlerMutation::SetValue { path: COUNT_PATH.to_owned(), occurrence: 0, value: OwnedFieldValue::UInt(2) };
        Ok(HandlerOutput::Mutations(vec![set(), set()]))
    };
    let err = editor.set_record_editor_id("abc", &registry(), &no_union, &narrow, &grammar, &two).unwrap_err();
    assert!(matches!(err, SemanticError::Handler { ref message, .. } if message == "record editor-ID callback must return one set mutation"));
    assert_eq!(editor.record.subrecords[0].data, vec![1, 0xaa, 0xbb, 0xcc]);
}
