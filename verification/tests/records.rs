use bethkit_semantic::analysis::{
    Conflict, ConflictClass, ConflictReport, ReferenceEdge, ReferenceGraph,
};
use bethkit_semantic::cleaning::{CleaningAction, CleaningActionKind, CleaningPlan};
use bethkit_semantic::decoded::{
    insert_decoded_occurrence, remove_decoded_occurrence, text_less, DecodedValues,
};
use bethkit_semantic::model::{
    clone_record, FormId, GlobalFormId, Signature, WritableRecord, WritableSubRecord,
};
use bethkit_semantic::value::FieldValue;

fn global(plugin: &str, id: u32) -> GlobalFormId {
    GlobalFormId { plugin: plugin.to_owned(), object_id: FormId(id) }
}

#[test]
fn reference_graphs_keep_discovery_order() {
    let mut graph = ReferenceGraph::new();
    assert!(graph.edges().is_empty());
    let first = ReferenceEdge {
        source: global("A.esp", 1),
        target: global("B.esm", 2),
        path: "WEAP/ETYP".to_owned(),
    };
    let second = ReferenceEdge {
        source: global("A.esp", 1),
        target: global("B.esm", 3),
        path: "WEAP/KWDA".to_owned(),
    };
    graph.add(first.clone());
    graph.add(second.clone());
    assert_eq!(graph.edges(), &[first, second]);
    assert!(ReferenceGraph::default().edges().is_empty());
}

#[test]
fn conflict_reports_keep_added_sets() {
    let mut report = ConflictReport::new();
    report.push(Conflict {
        object_id: FormId(0x800),
        signature: Signature(*b"WEAP"),
        plugins: vec!["A.esp".to_owned(), "B.esp".to_owned()],
        winner: "B.esp".to_owned(),
        class: ConflictClass::Conflict,
        paths: vec!["WEAP/DATA".to_owned()],
    });
    assert_eq!(report.conflicts().len(), 1);
    assert_eq!(report.conflicts()[0].winner, "B.esp");
    assert_eq!(report.conflicts()[0].class, ConflictClass::Conflict);
    assert!(ConflictReport::default().conflicts().is_empty());
}

fn action(validated: bool) -> CleaningAction {
    CleaningAction {
        kind: CleaningActionKind::RemoveIdenticalToMaster,
        signature: Signature(*b"WEAP"),
        form_id: FormId(0x800),
        reason: "identical to master".to_owned(),
        differential_validated: validated,
    }
}

#[test]
fn cleaning_plans_apply_only_when_every_action_is_validated() {
    let mut plan = CleaningPlan::new();
    assert!(plan.is_applicable());
    plan.push(action(true));
    assert!(plan.is_applicable());
    plan.push(action(false));
    assert!(!plan.is_applicable());
    assert_eq!(plan.actions().len(), 2);
    assert!(CleaningPlan::default().is_applicable());
}

fn uint(value: Option<&FieldValue>) -> Option<u64> {
    match value {
        Some(FieldValue::UInt(v)) => Some(*v),
        Some(_) => panic!("an unsigned value is expected"),
        None => None,
    }
}

#[test]
fn decoded_values_keep_one_value_per_key() {
    let mut values = DecodedValues::new();
    values.insert("R/B".to_owned(), 0, FieldValue::UInt(2));
    values.insert("R/A".to_owned(), 1, FieldValue::UInt(1));
    values.insert("R/A".to_owned(), 0, FieldValue::UInt(0));
    values.insert("R/B".to_owned(), 0, FieldValue::UInt(3));
    assert_eq!(values.entry_count(), 3);
    assert_eq!(values.entry_at(0).path, "R/A");
    assert_eq!(values.entry_at(0).occurrence, 0);
    assert_eq!(values.entry_at(2).path, "R/B");
    assert_eq!(uint(values.get("R/B", 0)), Some(3));
    assert_eq!(uint(values.get("R/C", 0)), None);
}

#[test]
fn decoded_occurrences_renumber_on_insert_and_remove() {
    let mut values = DecodedValues::new();
    values.insert("R/A".to_owned(), 0, FieldValue::UInt(10));
    values.insert("R/A".to_owned(), 1, FieldValue::UInt(11));
    values.insert("R/B".to_owned(), 0, FieldValue::UInt(20));
    insert_decoded_occurrence(&mut values, "R/A", 1, FieldValue::UInt(15));
    assert_eq!(uint(values.get("R/A", 0)), Some(10));
    assert_eq!(uint(values.get("R/A", 1)), Some(15));
    assert_eq!(uint(values.get("R/A", 2)), Some(11));
    assert_eq!(uint(values.get("R/B", 0)), Some(20));
    remove_decoded_occurrence(&mut values, "R/A", 1);
    assert_eq!(uint(values.get("R/A", 1)), Some(11));
    assert_eq!(uint(values.get("R/A", 2)), None);
    assert_eq!(uint(values.get("R/B", 0)), Some(20));
    assert_eq!(values.entry_count(), 3);
}

#[test]
fn paths_order_by_their_utf8_bytes() {
    assert!(text_less("R/A", "R/B"));
    assert!(text_less("R", "R/A"));
    assert!(!text_less("R/B", "R/A"));
    assert!(!text_less("R/A", "R/A"));
    assert!(text_less("Z", "a"));
}

#[test]
fn cloned_records_carry_the_same_data() {
    let record = WritableRecord {
        signature: Signature(*b"WEAP"),
        flags: 0x20,
        form_id: FormId(0x800),
        form_version: 44,
        subrecords: vec![WritableSubRecord { signature: Signature(*b"EDID"), data: b"Sword\0".to_vec() }],
    };
    let copy = clone_record(&record);
    assert_eq!(copy.signature, record.signature);
    assert_eq!(copy.form_version, 44);
    assert_eq!(copy.subrecords.len(), 1);
    assert_eq!(copy.subrecords[0].data, b"Sword\0".to_vec());
}
