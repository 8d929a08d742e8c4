use bethkit_semantic::address::RepeatScope;
use bethkit_semantic::apply::{apply_mutation, apply_mutations_with_values};
use bethkit_semantic::scoped::apply_mutation_in_scope;
use bethkit_semantic::assignment::{Assignment, ChangedField, GrammarMatch};
use bethkit_semantic::container::remove_container_occurrence;
use bethkit_semantic::context::{CallbackBinding, CallbackImplementation, HandlerOutput};
use bethkit_semantic::changes::apply_after_set_callbacks;
use bethkit_semantic::decoded::DecodedValues;
use bethkit_semantic::decoder::{DecoderRegistry, ZeroWidthIntegerDecoder};
use bethkit_semantic::model::{FormId, SchemaNodeId, Signature, WritableRecord, WritableSubRecord};
use bethkit_semantic::mutation::HandlerMutation;
use bethkit_semantic::schema::{ByteOrder, IntegerType, PrimitiveType, SchemaNode, SchemaNodeKind};
use bethkit_semantic::value::{FieldValue, OwnedFieldValue, SemanticError};

fn narrow(bits: u64) -> u32 {
    (f64::from_bits(bits) as f32).to_bits()
}

fn no_union(_: &SchemaNode, _: usize, _: &Vec<u8>) -> Result<Option<i64>, SemanticError> {
    Ok(None)
}

fn registry() -> DecoderRegistry<ZeroWidthIntegerDecoder> {
    DecoderRegistry::builtin()
}

fn node(id: u32, path: &str, kind: SchemaNodeKind) -> SchemaNode {
    SchemaNode {
        id: SchemaNodeId(id),
        path: path.to_owned(),
        name: path.rsplit('/').next().unwrap_or(path).to_owned(),
        required: false,
        condition: None,
        kind,
    }
}

fn integer(id: u32, path: &str, width: u8) -> SchemaNode {
    node(
        id,
        path,
        SchemaNodeKind::Primitive {
            primitive: PrimitiveType::Integer {
                integer: IntegerType { width, signed: false, byte_order: ByteOrder::LittleEndian },
            },
        },
    )
}

fn subrecord(id: u32, path: &str, signature: &[u8; 4], width: u8) -> SchemaNode {
    node(
        id,
        path,
        SchemaNodeKind::Subrecord {
            signature: Signature(*signature),
            payload: Box::new(integer(id + 1, &format!("{path}/value"), width)),
        },
    )
}

/// A record of a one-byte flag, a two-byte datum and a four-byte counter, in that order.
fn schema() -> SchemaNode {
    node(
        1,
        "TEST",
        SchemaNodeKind::Sequence {
            children: vec![
                subrecord(2, "TEST/FLAG", b"FLAG", 1),
                subrecord(4, "TEST/DATA", b"DATA", 2),
                subrecord(6, "TEST/CNTR", b"CNTR", 4),
            ],
        },
    )
}

/// Matches each subrecord to the schema child with its signature.
fn grammar(record: &WritableRecord) -> Result<GrammarMatch, SemanticError> {
    let root = schema();
    let SchemaNodeKind::Sequence { children } = &root.kind else { unreachable!() };
    let mut assignments = Vec::new();
    let mut repeat_scopes = Vec::new();
    for sub in &record.subrecords {
        let assigned = children.iter().find(|child| match &child.kind {
            SchemaNodeKind::Subrecord { signature, .. } => signature.0 == sub.signature.0,
            _ => false,
        });
        assignments.push(assigned.map(|child| Assignment { id: child.id, path: child.path.clone() }));
        repeat_scopes.push(Vec::new());
    }
    Ok(GrammarMatch { assignments, repeat_scopes })
}

fn no_pick(_: &SchemaNode) -> Result<i64, SemanticError> {
    Ok(0)
}

fn keep(_: &SchemaNode, value: OwnedFieldValue, _: &Vec<usize>) -> Result<OwnedFieldValue, SemanticError> {
    Ok(value)
}

fn sub(signature: &[u8; 4], data: Vec<u8>) -> WritableSubRecord {
    WritableSubRecord { signature: Signature(*signature), data }
}

fn record(subrecords: Vec<WritableSubRecord>) -> WritableRecord {
    WritableRecord {
        signature: Signature(*b"TEST"),
        flags: 0,
        form_id: FormId(0x0100_0800),
        form_version: 44,
        subrecords,
    }
}

fn signatures(record: &WritableRecord) -> Vec<String> {
    record.subrecords.iter().map(|s| String::from_utf8(s.signature.0.to_vec()).unwrap()).collect()
}

fn apply(
    record: &mut WritableRecord,
    decoded: &mut DecodedValues,
    mutation: HandlerMutation,
) -> Result<(), SemanticError> {
    apply_mutation(
        &schema(),
        "TEST",
        record,
        decoded,
        &mutation,
        false,
        &registry(),
        &no_union,
        &narrow,
        &no_pick,
        &keep,
        &grammar,
    )
}

fn uint(decoded: &DecodedValues, path: &str, occurrence: usize) -> Option<u64> {
    match decoded.get(path, occurrence) {
        Some(FieldValue::UInt(v)) => Some(*v),
        _ => None,
    }
}

#[test]
fn record_flags_change_only_for_the_record_path() {
    let mut rec = record(vec![]);
    let mut decoded = DecodedValues::new();
    apply(&mut rec, &mut decoded, HandlerMutation::SetRecordFlags { path: "TEST".to_owned(), flags: 0x20 })
        .unwrap();
    assert_eq!(rec.flags, 0x20);

    let error = apply(
        &mut rec,
        &mut decoded,
        HandlerMutation::SetRecordFlags { path: "OTHER".to_owned(), flags: 1 },
    )
    .unwrap_err();
    assert!(matches!(
        error,
        SemanticError::Handler { ref handler, ref message }
            if handler == "def.after_load" && message == "record flag mutation path OTHER does not match TEST"
    ));
    assert_eq!(rec.flags, 0x20);
}

#[test]
fn set_value_rewrites_the_assigned_subrecord_and_its_decoded_value() {
    let mut rec = record(vec![sub(b"FLAG", vec![1]), sub(b"DATA", vec![1, 0]), sub(b"DATA", vec![2, 0])]);
    let mut decoded = DecodedValues::new();
    apply(
        &mut rec,
        &mut decoded,
        HandlerMutation::SetValue {
            path: "TEST/DATA".to_owned(),
            occurrence: 1,
            value: OwnedFieldValue::UInt(0x0304),
        },
    )
    .unwrap();
    assert_eq!(rec.subrecords[2].data, vec![4, 3]);
    assert_eq!(rec.subrecords[1].data, vec![1, 0]);
    assert_eq!(uint(&decoded, "TEST/DATA", 1), Some(0x0304));
}

#[test]
fn set_value_of_a_missing_occurrence_fails() {
    let mut rec = record(vec![sub(b"DATA", vec![1, 0])]);
    let mut decoded = DecodedValues::new();
    let error = apply(
        &mut rec,
        &mut decoded,
        HandlerMutation::SetValue {
            path: "TEST/DATA".to_owned(),
            occurrence: 1,
            value: OwnedFieldValue::UInt(5),
        },
    )
    .unwrap_err();
    assert!(matches!(error, SemanticError::MissingOccurrence { ref path, occurrence: 1 } if path == "TEST/DATA"));
}

#[test]
fn set_value_below_a_subrecord_rewrites_the_containing_subrecord() {
    let mut rec = record(vec![sub(b"DATA", vec![1, 0])]);
    let mut decoded = DecodedValues::new();
    let missing = apply(
        &mut rec,
        &mut decoded,
        HandlerMutation::SetValue {
            path: "TEST/DATA/value".to_owned(),
            occurrence: 0,
            value: OwnedFieldValue::UInt(5),
        },
    )
    .unwrap_err();
    assert!(matches!(missing, SemanticError::MissingOccurrence { ref path, occurrence: 0 } if path == "TEST/DATA/value"));
    assert_eq!(rec.subrecords[0].data, vec![1, 0]);

    decoded.insert("TEST/DATA".to_owned(), 0, FieldValue::UInt(1));
    apply(
        &mut rec,
        &mut decoded,
        HandlerMutation::SetValue {
            path: "TEST/DATA/value".to_owned(),
            occurrence: 0,
            value: OwnedFieldValue::UInt(0x0105),
        },
    )
    .unwrap();
    assert_eq!(rec.subrecords[0].data, vec![5, 1]);
    assert_eq!(uint(&decoded, "TEST/DATA", 0), Some(0x0105));
}

#[test]
fn insert_places_the_subrecord_in_schema_order() {
    let mut rec = record(vec![sub(b"FLAG", vec![1]), sub(b"CNTR", vec![0, 0, 0, 0])]);
    let mut decoded = DecodedValues::new();
    apply(
        &mut rec,
        &mut decoded,
        HandlerMutation::Insert { path: "TEST/DATA".to_owned(), value: OwnedFieldValue::UInt(9) },
    )
    .unwrap();
    assert_eq!(signatures(&rec), vec!["FLAG", "DATA", "CNTR"]);
    assert_eq!(rec.subrecords[1].data, vec![9, 0]);
    assert_eq!(uint(&decoded, "TEST/DATA", 0), Some(9));
}

#[test]
fn remove_drops_the_occurrence_and_renumbers_later_ones() {
    let mut rec = record(vec![sub(b"DATA", vec![1, 0]), sub(b"DATA", vec![2, 0]), sub(b"DATA", vec![3, 0])]);
    let mut decoded = DecodedValues::new();
    decoded.insert("TEST/DATA".to_owned(), 0, FieldValue::UInt(1));
    decoded.insert("TEST/DATA".to_owned(), 1, FieldValue::UInt(2));
    decoded.insert("TEST/DATA".to_owned(), 2, FieldValue::UInt(3));
    apply(&mut rec, &mut decoded, HandlerMutation::Remove { path: "TEST/DATA".to_owned(), occurrence: 1 })
        .unwrap();
    assert_eq!(rec.subrecords.len(), 2);
    assert_eq!(rec.subrecords[1].data, vec![3, 0]);
    assert_eq!(uint(&decoded, "TEST/DATA", 1), Some(3));
    assert_eq!(uint(&decoded, "TEST/DATA", 2), None);
}

#[test]
fn remove_all_removes_every_occurrence() {
    let mut rec = record(vec![sub(b"DATA", vec![1, 0]), sub(b"FLAG", vec![1]), sub(b"DATA", vec![2, 0])]);
    let mut decoded = DecodedValues::new();
    apply(&mut rec, &mut decoded, HandlerMutation::RemoveAll { path: "TEST/DATA".to_owned() }).unwrap();
    assert_eq!(signatures(&rec), vec!["FLAG"]);
}

#[test]
fn raw_removals_by_signature_must_precede_decoding() {
    let mut rec = record(vec![sub(b"XXXX", vec![]), sub(b"FLAG", vec![1]), sub(b"XXXX", vec![7])]);
    let mut decoded = DecodedValues::new();
    apply(
        &mut rec,
        &mut decoded,
        HandlerMutation::RemoveFirstBySignature {
            path: "TEST/XXXX".to_owned(),
            signature: Signature(*b"XXXX"),
        },
    )
    .unwrap();
    assert_eq!(signatures(&rec), vec!["FLAG", "XXXX"]);

    decoded.insert("TEST/FLAG".to_owned(), 0, FieldValue::UInt(1));
    let error = apply(
        &mut rec,
        &mut decoded,
        HandlerMutation::RemoveAllBySignature {
            path: "TEST/XXXX".to_owned(),
            signature: Signature(*b"XXXX"),
        },
    )
    .unwrap_err();
    assert!(matches!(
        error,
        SemanticError::Handler { ref message, .. }
            if message == "raw signature removal for TEST/XXXX must run before initial decoding"
    ));

    let mut fresh = DecodedValues::new();
    apply(
        &mut rec,
        &mut fresh,
        HandlerMutation::RemoveAllBySignature {
            path: "TEST/XXXX".to_owned(),
            signature: Signature(*b"XXXX"),
        },
    )
    .unwrap();
    assert_eq!(signatures(&rec), vec!["FLAG"]);
}

#[test]
fn synchronized_counter_follows_its_count() {
    let mut rec = record(vec![sub(b"FLAG", vec![1])]);
    let mut decoded = DecodedValues::new();
    let count = |value: u64| HandlerMutation::SynchronizeCount {
        path: "TEST/CNTR".to_owned(),
        occurrence: 0,
        value,
        remove_when_zero: true,
    };
    apply(&mut rec, &mut decoded, count(3)).unwrap();
    assert_eq!(signatures(&rec), vec!["FLAG", "CNTR"]);
    assert_eq!(rec.subrecords[1].data, vec![3, 0, 0, 0]);
    apply(&mut rec, &mut decoded, count(5)).unwrap();
    assert_eq!(rec.subrecords[1].data, vec![5, 0, 0, 0]);
    assert_eq!(uint(&decoded, "TEST/CNTR", 0), Some(5));
    apply(&mut rec, &mut decoded, count(0)).unwrap();
    assert_eq!(signatures(&rec), vec!["FLAG"]);
    assert_eq!(uint(&decoded, "TEST/CNTR", 0), None);
}

#[test]
fn synchronized_presence_inserts_and_removes() {
    let mut rec = record(vec![sub(b"DATA", vec![1, 0])]);
    let mut decoded = DecodedValues::new();
    let presence = |present: bool| HandlerMutation::SynchronizePresence {
        path: "TEST/FLAG".to_owned(),
        occurrence: 0,
        present,
        value: OwnedFieldValue::UInt(1),
    };
    apply(&mut rec, &mut decoded, presence(true)).unwrap();
    assert_eq!(signatures(&rec), vec!["FLAG", "DATA"]);
    apply(&mut rec, &mut decoded, presence(true)).unwrap();
    assert_eq!(signatures(&rec), vec!["FLAG", "DATA"]);
    apply(&mut rec, &mut decoded, presence(false)).unwrap();
    assert_eq!(signatures(&rec), vec!["DATA"]);
}

#[test]
fn raw_payloads_are_inserted_and_replaced() {
    let mut rec = record(vec![sub(b"CNTR", vec![0, 0, 0, 0])]);
    let mut decoded = DecodedValues::new();
    apply(
        &mut rec,
        &mut decoded,
        HandlerMutation::InsertPayload { path: "TEST/DATA".to_owned(), data: vec![7, 7] },
    )
    .unwrap();
    assert_eq!(signatures(&rec), vec!["DATA", "CNTR"]);
    decoded.insert("TEST/DATA".to_owned(), 0, FieldValue::UInt(0x0707));
    apply(
        &mut rec,
        &mut decoded,
        HandlerMutation::ReplacePayload { path: "TEST/DATA".to_owned(), occurrence: 0, data: vec![8, 8] },
    )
    .unwrap();
    assert_eq!(rec.subrecords[0].data, vec![8, 8]);
    assert_eq!(uint(&decoded, "TEST/DATA", 0), None);
}

#[test]
fn reset_to_default_cannot_reach_the_record() {
    let mut rec = record(vec![]);
    let mut decoded = DecodedValues::new();
    let error = apply(
        &mut rec,
        &mut decoded,
        HandlerMutation::ResetToDefault { path: "TEST/DATA".to_owned(), occurrence: 0 },
    )
    .unwrap_err();
    assert!(matches!(
        error,
        SemanticError::Handler { ref handler, ref message }
            if handler == "edit.reset_sibling_default"
                && message == "schema-native default mutation for TEST/DATA escaped its value container"
    ));
}

#[test]
fn mutations_apply_in_order_and_stop_at_the_first_error() {
    let mut rec = record(vec![sub(b"FLAG", vec![1])]);
    let mut decoded = DecodedValues::new();
    let error = apply_mutations_with_values(
        &schema(),
        "TEST",
        &mut rec,
        &mut decoded,
        vec![
            HandlerMutation::Insert { path: "TEST/DATA".to_owned(), value: OwnedFieldValue::UInt(2) },
            HandlerMutation::Remove { path: "TEST/CNTR".to_owned(), occurrence: 0 },
            HandlerMutation::SetRecordFlags { path: "TEST".to_owned(), flags: 1 },
        ],
        false,
        &registry(),
        &no_union,
        &narrow,
        &no_pick,
        &keep,
        &grammar,
    )
    .unwrap_err();
    assert!(matches!(error, SemanticError::MissingOccurrence { ref path, occurrence: 0 } if path == "TEST/CNTR"));
    assert_eq!(signatures(&rec), vec!["FLAG", "DATA"]);
    assert_eq!(rec.flags, 0);
}

#[test]
fn insert_default_adds_a_zero_subrecord_as_a_new_occurrence() {
    let mut rec = record(vec![sub(b"DATA", vec![1, 0]), sub(b"CNTR", vec![0, 0, 0, 0])]);
    let mut decoded = DecodedValues::new();
    decoded.insert("TEST/DATA".to_owned(), 0, FieldValue::UInt(1));
    apply(&mut rec, &mut decoded, HandlerMutation::InsertDefault { path: "TEST/DATA".to_owned() }).unwrap();
    assert_eq!(signatures(&rec), vec!["DATA", "DATA", "CNTR"]);
    assert_eq!(rec.subrecords[1].data, vec![0, 0]);
    assert_eq!(uint(&decoded, "TEST/DATA", 0), Some(1));
    assert_eq!(uint(&decoded, "TEST/DATA", 1), Some(0));
}

/// A record of repeated entries, each a one-byte name and a two-byte value.
fn entries_schema() -> SchemaNode {
    node(
        10,
        "LIST",
        SchemaNodeKind::Sequence {
            children: vec![node(
                11,
                "LIST/ENTRY/repeat",
                SchemaNodeKind::Repeat {
                    child: Box::new(node(
                        12,
                        "LIST/ENTRY",
                        SchemaNodeKind::Sequence {
                            children: vec![
                                subrecord(13, "LIST/ENTRY/NAME", b"NAME", 1),
                                subrecord(15, "LIST/ENTRY/VALU", b"VALU", 2),
                            ],
                        },
                    )),
                    minimum: 0,
                    maximum: None,
                },
            )],
        },
    )
}

/// Matches names and values to their nodes; each name opens the next entry.
fn entries_grammar(record: &WritableRecord) -> Result<GrammarMatch, SemanticError> {
    let mut assignments = Vec::new();
    let mut repeat_scopes = Vec::new();
    let mut entry: Option<u32> = None;
    for sub in &record.subrecords {
        let (id, path) = if &sub.signature.0 == b"NAME" {
            entry = Some(entry.map_or(0, |e| e + 1));
            (13, "LIST/ENTRY/NAME")
        } else {
            (15, "LIST/ENTRY/VALU")
        };
        assignments.push(Some(Assignment { id: SchemaNodeId(id), path: path.to_owned() }));
        repeat_scopes.push(match entry {
            Some(e) => vec![RepeatScope { path: "LIST/ENTRY".to_owned(), occurrence: e }],
            None => Vec::new(),
        });
    }
    Ok(GrammarMatch { assignments, repeat_scopes })
}

fn apply_in_entry(
    record: &mut WritableRecord,
    decoded: &mut DecodedValues,
    entry: u32,
    mutation: HandlerMutation,
) -> Result<(), SemanticError> {
    apply_mutation_in_scope(
        &entries_schema(),
        "LIST",
        record,
        decoded,
        &RepeatScope { path: "LIST/ENTRY".to_owned(), occurrence: entry },
        mutation,
        false,
        &registry(),
        &no_union,
        &narrow,
        &no_pick,
        &keep,
        &entries_grammar,
    )
}

fn entries() -> WritableRecord {
    record(vec![
        sub(b"NAME", vec![1]),
        sub(b"NAME", vec![2]),
        sub(b"VALU", vec![20, 0]),
        sub(b"VALU", vec![21, 0]),
    ])
}

#[test]
fn scoped_value_write_counts_occurrences_inside_the_entry() {
    let mut rec = entries();
    let mut decoded = DecodedValues::new();
    apply_in_entry(
        &mut rec,
        &mut decoded,
        1,
        HandlerMutation::SetValue {
            path: "LIST/ENTRY/VALU".to_owned(),
            occurrence: 1,
            value: OwnedFieldValue::UInt(99),
        },
    )
    .unwrap();
    assert_eq!(rec.subrecords[3].data, vec![99, 0]);
    assert_eq!(uint(&decoded, "LIST/ENTRY/VALU", 1), Some(99));
}

#[test]
fn scoped_insert_goes_inside_the_entry() {
    let mut rec = entries();
    let mut decoded = DecodedValues::new();
    apply_in_entry(
        &mut rec,
        &mut decoded,
        0,
        HandlerMutation::Insert { path: "LIST/ENTRY/VALU".to_owned(), value: OwnedFieldValue::UInt(7) },
    )
    .unwrap();
    assert_eq!(signatures(&rec), vec!["NAME", "VALU", "NAME", "VALU", "VALU"]);
    assert_eq!(rec.subrecords[1].data, vec![7, 0]);
    assert_eq!(uint(&decoded, "LIST/ENTRY/VALU", 0), Some(7));
}

#[test]
fn scoped_remove_all_keeps_other_entries() {
    let mut rec = record(vec![
        sub(b"NAME", vec![1]),
        sub(b"VALU", vec![10, 0]),
        sub(b"NAME", vec![2]),
        sub(b"VALU", vec![20, 0]),
        sub(b"VALU", vec![21, 0]),
    ]);
    let mut decoded = DecodedValues::new();
    apply_in_entry(&mut rec, &mut decoded, 1, HandlerMutation::RemoveAll { path: "LIST/ENTRY/VALU".to_owned() })
        .unwrap();
    assert_eq!(signatures(&rec), vec!["NAME", "VALU", "NAME"]);
    assert_eq!(rec.subrecords[1].data, vec![10, 0]);
}

#[test]
fn scoped_reset_rebuilds_the_default_value() {
    let mut rec = entries();
    let mut decoded = DecodedValues::new();
    apply_in_entry(
        &mut rec,
        &mut decoded,
        1,
        HandlerMutation::ResetToDefault { path: "LIST/ENTRY/VALU".to_owned(), occurrence: 0 },
    )
    .unwrap();
    assert_eq!(rec.subrecords[2].data, vec![0, 0]);
    assert_eq!(uint(&decoded, "LIST/ENTRY/VALU", 0), Some(0));
}

#[test]
fn scoped_callbacks_cannot_touch_record_flags_or_raw_payloads() {
    let mut rec = entries();
    let mut decoded = DecodedValues::new();
    let flags = apply_in_entry(
        &mut rec,
        &mut decoded,
        0,
        HandlerMutation::SetRecordFlags { path: "LIST".to_owned(), flags: 1 },
    )
    .unwrap_err();
    assert!(matches!(
        flags,
        SemanticError::Handler { ref handler, ref message }
            if handler == "def.after_set" && message == "scoped callbacks cannot replace main-record flags"
    ));
    let raw = apply_in_entry(
        &mut rec,
        &mut decoded,
        0,
        HandlerMutation::InsertPayload { path: "LIST/ENTRY/VALU".to_owned(), data: vec![] },
    )
    .unwrap_err();
    assert!(matches!(
        raw,
        SemanticError::Handler { ref message, .. } if message == "scoped callbacks cannot insert raw subrecord payloads"
    ));
}

#[test]
fn scoped_write_to_a_missing_occurrence_fails() {
    let mut rec = entries();
    let mut decoded = DecodedValues::new();
    let error = apply_in_entry(
        &mut rec,
        &mut decoded,
        0,
        HandlerMutation::Remove { path: "LIST/ENTRY/VALU".to_owned(), occurrence: 0 },
    )
    .unwrap_err();
    assert!(matches!(
        error,
        SemanticError::MissingOccurrence { ref path, occurrence: 0 } if path == "LIST/ENTRY/VALU"
    ));
}

fn apply_in_list(
    record: &mut WritableRecord,
    decoded: &mut DecodedValues,
    mutation: HandlerMutation,
) -> Result<(), SemanticError> {
    apply_mutation(
        &entries_schema(),
        "LIST",
        record,
        decoded,
        &mutation,
        false,
        &registry(),
        &no_union,
        &narrow,
        &no_pick,
        &keep,
        &entries_grammar,
    )
}

/// Two entries, the second with two values, and their decoded values.
fn two_entries() -> (WritableRecord, DecodedValues) {
    let rec = record(vec![
        sub(b"NAME", vec![1]),
        sub(b"VALU", vec![10, 0]),
        sub(b"NAME", vec![2]),
        sub(b"VALU", vec![20, 0]),
        sub(b"VALU", vec![21, 0]),
    ]);
    let mut decoded = DecodedValues::new();
    decoded.insert("LIST/ENTRY/NAME".to_owned(), 0, FieldValue::UInt(1));
    decoded.insert("LIST/ENTRY/NAME".to_owned(), 1, FieldValue::UInt(2));
    decoded.insert("LIST/ENTRY/VALU".to_owned(), 0, FieldValue::UInt(10));
    decoded.insert("LIST/ENTRY/VALU".to_owned(), 1, FieldValue::UInt(20));
    decoded.insert("LIST/ENTRY/VALU".to_owned(), 2, FieldValue::UInt(21));
    (rec, decoded)
}

#[test]
fn container_occurrence_removal_drops_one_entry_and_renumbers_the_rest() {
    let (mut rec, mut decoded) = two_entries();
    apply_in_list(
        &mut rec,
        &mut decoded,
        HandlerMutation::RemoveContainerOccurrence { path: "LIST/ENTRY".to_owned(), occurrence: 0 },
    )
    .unwrap();
    assert_eq!(signatures(&rec), vec!["NAME", "VALU", "VALU"]);
    assert_eq!(rec.subrecords[0].data, vec![2]);
    assert_eq!(uint(&decoded, "LIST/ENTRY/NAME", 0), Some(2));
    assert_eq!(uint(&decoded, "LIST/ENTRY/NAME", 1), None);
    assert_eq!(uint(&decoded, "LIST/ENTRY/VALU", 0), Some(20));
    assert_eq!(uint(&decoded, "LIST/ENTRY/VALU", 1), Some(21));
    assert_eq!(uint(&decoded, "LIST/ENTRY/VALU", 2), None);
}

#[test]
fn container_occurrence_removal_of_the_last_entry_keeps_the_first() {
    let (mut rec, mut decoded) = two_entries();
    remove_container_occurrence(&entries_schema(), &mut rec, &mut decoded, None, "LIST/ENTRY", 1, &entries_grammar)
        .unwrap();
    assert_eq!(signatures(&rec), vec!["NAME", "VALU"]);
    assert_eq!(uint(&decoded, "LIST/ENTRY/VALU", 0), Some(10));
    assert_eq!(uint(&decoded, "LIST/ENTRY/VALU", 1), None);
    assert_eq!(uint(&decoded, "LIST/ENTRY/NAME", 1), None);
}

#[test]
fn container_occurrence_removal_reports_what_it_cannot_remove() {
    let (mut rec, mut decoded) = two_entries();
    let missing = apply_in_list(
        &mut rec,
        &mut decoded,
        HandlerMutation::RemoveContainerOccurrence { path: "LIST/ENTRY".to_owned(), occurrence: 2 },
    )
    .unwrap_err();
    assert!(matches!(missing, SemanticError::MissingOccurrence { ref path, occurrence: 2 } if path == "LIST/ENTRY"));
    let not_sequence = apply_in_list(
        &mut rec,
        &mut decoded,
        HandlerMutation::RemoveContainerOccurrence { path: "LIST/ENTRY/NAME".to_owned(), occurrence: 0 },
    )
    .unwrap_err();
    assert!(matches!(
        not_sequence,
        SemanticError::Encode { ref path, ref message }
            if path == "LIST/ENTRY/NAME" && message == "repeated container removal path is not a sequence"
    ));
    let unknown = apply_in_list(
        &mut rec,
        &mut decoded,
        HandlerMutation::RemoveContainerOccurrence { path: "LIST/OTHER".to_owned(), occurrence: 0 },
    )
    .unwrap_err();
    assert!(matches!(unknown, SemanticError::MissingPath(ref path) if path == "LIST/OTHER"));
    assert_eq!(signatures(&rec), vec!["NAME", "VALU", "NAME", "VALU", "VALU"]);
    assert_eq!(uint(&decoded, "LIST/ENTRY/VALU", 2), Some(21));
}

#[test]
fn scoped_container_occurrence_removal_stays_inside_the_scope() {
    let (mut rec, mut decoded) = two_entries();
    let outside = apply_in_entry(
        &mut rec,
        &mut decoded,
        0,
        HandlerMutation::RemoveContainerOccurrence { path: "LIST/ENTRY".to_owned(), occurrence: 1 },
    )
    .unwrap_err();
    assert!(matches!(outside, SemanticError::MissingOccurrence { ref path, occurrence: 1 } if path == "LIST/ENTRY"));
    apply_in_entry(
        &mut rec,
        &mut decoded,
        1,
        HandlerMutation::RemoveContainerOccurrence { path: "LIST/ENTRY".to_owned(), occurrence: 1 },
    )
    .unwrap();
    assert_eq!(signatures(&rec), vec!["NAME", "VALU"]);
}

fn after_set_binding(path: &str, implementation: CallbackImplementation) -> CallbackBinding {
    CallbackBinding { path: path.to_owned(), callback_id: "def.after_set".to_owned(), implementation }
}

/// The second value of the second entry changed.
fn changed_value() -> ChangedField {
    ChangedField {
        path: "LIST/ENTRY/VALU".to_owned(),
        occurrence: 1,
        repeat_scopes: vec![RepeatScope { path: "LIST/ENTRY".to_owned(), occurrence: 1 }],
    }
}

fn run_after_set<I>(
    record: &mut WritableRecord,
    decoded: &mut DecodedValues,
    previous: &DecodedValues,
    bindings: &Vec<CallbackBinding>,
    invoke: &I,
) -> Result<(), SemanticError>
where
    I: Fn(&CallbackBinding, &WritableRecord, Option<usize>, Option<&FieldValue>, Option<&FieldValue>) -> Result<HandlerOutput, SemanticError>,
{
    apply_after_set_callbacks(
        &entries_schema(),
        "LIST",
        record,
        decoded,
        previous,
        &changed_value(),
        bindings,
        false,
        &registry(),
        &no_union,
        &narrow,
        &no_pick,
        &keep,
        &entries_grammar,
        invoke,
    )
}

#[test]
fn record_after_set_callback_mutations_apply_to_the_whole_record() {
    let (mut rec, mut decoded) = two_entries();
    let previous = DecodedValues::new();
    let bindings = vec![after_set_binding("LIST", CallbackImplementation::BuiltIn)];
    let invoke = |b: &CallbackBinding, source: &WritableRecord, index: Option<usize>, value: Option<&FieldValue>, old: Option<&FieldValue>| {
        assert_eq!(b.path, "LIST");
        assert_eq!(source.subrecords.len(), 5);
        assert!(index.is_none() && value.is_none() && old.is_none());
        Ok(HandlerOutput::Mutations(vec![HandlerMutation::SetValue {
            path: "LIST/ENTRY/VALU".to_owned(),
            occurrence: 2,
            value: OwnedFieldValue::UInt(99),
        }]))
    };
    run_after_set(&mut rec, &mut decoded, &previous, &bindings, &invoke).unwrap();
    assert_eq!(rec.subrecords[4].data, vec![99, 0]);
    assert_eq!(uint(&decoded, "LIST/ENTRY/VALU", 2), Some(99));
}

#[test]
fn field_after_set_callback_runs_inside_its_entry() {
    let (mut rec, mut decoded) = two_entries();
    let mut previous = DecodedValues::new();
    previous.insert("LIST/ENTRY/VALU".to_owned(), 1, FieldValue::UInt(5));
    let bindings = vec![after_set_binding("LIST/ENTRY/VALU", CallbackImplementation::CustomHandler)];
    let invoke = |_: &CallbackBinding, source: &WritableRecord, index: Option<usize>, value: Option<&FieldValue>, old: Option<&FieldValue>| {
        assert_eq!(signatures(source), vec!["NAME", "VALU", "VALU"]);
        assert_eq!(index, Some(1));
        assert!(matches!(value, Some(FieldValue::UInt(20))));
        assert!(matches!(old, Some(FieldValue::UInt(5))));
        Ok(HandlerOutput::Mutations(vec![HandlerMutation::SetValue {
            path: "LIST/ENTRY/VALU".to_owned(),
            occurrence: 1,
            value: OwnedFieldValue::UInt(77),
        }]))
    };
    run_after_set(&mut rec, &mut decoded, &previous, &bindings, &invoke).unwrap();
    assert_eq!(rec.subrecords[4].data, vec![77, 0]);
    assert_eq!(rec.subrecords[3].data, vec![20, 0]);
}

#[test]
fn record_after_set_skips_bindings_that_do_not_apply() {
    let (mut rec, mut decoded) = two_entries();
    let previous = DecodedValues::new();
    let bindings = vec![
        after_set_binding("LIST/OTHER", CallbackImplementation::BuiltIn),
        CallbackBinding {
            path: "LIST".to_owned(),
            callback_id: "def.after_load".to_owned(),
            implementation: CallbackImplementation::BuiltIn,
        },
    ];
    let invoke = |_: &CallbackBinding, _: &WritableRecord, _: Option<usize>, _: Option<&FieldValue>, _: Option<&FieldValue>| {
        Err(SemanticError::Handler { handler: "invoked".to_owned(), message: "should not run".to_owned() })
    };
    run_after_set(&mut rec, &mut decoded, &previous, &bindings, &invoke).unwrap();
    assert_eq!(signatures(&rec), vec!["NAME", "VALU", "NAME", "VALU", "VALU"]);
}

#[test]
fn record_after_set_refuses_what_it_cannot_run_or_read() {
    let (mut rec, mut decoded) = two_entries();
    let previous = DecodedValues::new();
    let unsupported = vec![after_set_binding("LIST", CallbackImplementation::Unsupported)];
    let nothing = |_: &CallbackBinding, _: &WritableRecord, _: Option<usize>, _: Option<&FieldValue>, _: Option<&FieldValue>| {
        Ok(HandlerOutput::Nothing)
    };
    let error = run_after_set(&mut rec, &mut decoded, &previous, &unsupported, &nothing).unwrap_err();
    assert!(matches!(
        error,
        SemanticError::Handler { ref handler, ref message }
            if handler == "def.after_set" && message == "record-level after-set callback is not executable"
    ));
    let bindings = vec![after_set_binding("LIST", CallbackImplementation::BuiltIn)];
    let sort = |_: &CallbackBinding, _: &WritableRecord, _: Option<usize>, _: Option<&FieldValue>, _: Option<&FieldValue>| {
        Ok(HandlerOutput::GroupSortRequested)
    };
    let error = run_after_set(&mut rec, &mut decoded, &previous, &bindings, &sort).unwrap_err();
    assert!(matches!(
        error,
        SemanticError::Handler { ref handler, ref message }
            if handler == "edit.sort_info_group" && message == "INFO group sorting requires a plugin-level edit transaction"
    ));
    let boolean = |_: &CallbackBinding, _: &WritableRecord, _: Option<usize>, _: Option<&FieldValue>, _: Option<&FieldValue>| {
        Ok(HandlerOutput::Boolean(true))
    };
    let error = run_after_set(&mut rec, &mut decoded, &previous, &bindings, &boolean).unwrap_err();
    assert!(matches!(
        error,
        SemanticError::Handler { ref message, .. } if message == "record-level after-set callback returned an invalid result"
    ));
    run_after_set(&mut rec, &mut decoded, &previous, &bindings, &nothing).unwrap();
    assert_eq!(signatures(&rec), vec!["NAME", "VALU", "NAME", "VALU", "VALU"]);
}
