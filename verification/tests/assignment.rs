use bethkit_semantic::address::RepeatScope;
use bethkit_semantic::assignment::{
    assigned_occurrence_count, assigned_subrecord_index, changed_field_at, contains_scope,
    default_primitive_value, remove_container_assignments, schema_insertion_index,
    scoped_assignment, scoped_record, scoped_schema_insertion_index, Assignment, GrammarMatch,
};
use bethkit_semantic::decoded::DecodedValues;
use bethkit_semantic::model::{FormId, SchemaNodeId, Signature, WritableRecord, WritableSubRecord};
use bethkit_semantic::schema::{
    ByteOrder, IntegerType, PrimitiveType, SchemaNode, SchemaNodeKind, StringType,
};
use bethkit_semantic::tree::after_load_anchor_path;
use bethkit_semantic::value::{FieldValue, OwnedFieldValue, SemanticError};

fn node(id: u32, path: &str, kind: SchemaNodeKind) -> SchemaNode {
    SchemaNode {
        id: SchemaNodeId(id),
        path: path.to_owned(),
        name: path.to_owned(),
        required: false,
        condition: None,
        kind,
    }
}

fn subrecord(id: u32, path: &str, signature: &[u8; 4]) -> SchemaNode {
    node(
        id,
        path,
        SchemaNodeKind::Subrecord {
            signature: Signature(*signature),
            payload: Box::new(node(
                id + 100,
                &format!("{path}/value"),
                SchemaNodeKind::Primitive {
                    primitive: PrimitiveType::Integer {
                        integer: IntegerType { width: 1, signed: false, byte_order: ByteOrder::LittleEndian },
                    },
                },
            )),
        },
    )
}

/// `R`: `EDID`, then a repeated group of `CTDA` and `CIS1`, then `DATA`.
fn schema() -> SchemaNode {
    let group = node(
        3,
        "R/Conditions/Condition",
        SchemaNodeKind::Sequence {
            children: vec![subrecord(4, "R/Conditions/Condition/CTDA", b"CTDA"), subrecord(5, "R/Conditions/Condition/CIS1", b"CIS1")],
        },
    );
    let repeat = node(
        2,
        "R/Conditions",
        SchemaNodeKind::Repeat { child: Box::new(group), minimum: 0, maximum: None },
    );
    node(
        0,
        "R",
        SchemaNodeKind::Sequence {
            children: vec![subrecord(1, "R/EDID", b"EDID"), repeat, subrecord(6, "R/DATA", b"DATA")],
        },
    )
}

fn assigned(id: u32, path: &str) -> Option<Assignment> {
    Some(Assignment { id: SchemaNodeId(id), path: path.to_owned() })
}

fn scope(occurrence: u32) -> RepeatScope {
    RepeatScope { path: "R/Conditions/Condition".to_owned(), occurrence }
}

/// `EDID`, condition 0 (`CTDA`, `CIS1`), condition 1 (`CTDA`), `DATA`.
fn grammar() -> GrammarMatch {
    GrammarMatch {
        assignments: vec![
            assigned(1, "R/EDID"),
            assigned(4, "R/Conditions/Condition/CTDA"),
            assigned(5, "R/Conditions/Condition/CIS1"),
            assigned(4, "R/Conditions/Condition/CTDA"),
            assigned(6, "R/DATA"),
        ],
        repeat_scopes: vec![Vec::new(), vec![scope(0)], vec![scope(0)], vec![scope(1)], Vec::new()],
    }
}

fn record() -> WritableRecord {
    let subrecord = |signature: &[u8; 4], byte: u8| WritableSubRecord { signature: Signature(*signature), data: vec![byte] };
    WritableRecord {
        signature: Signature(*b"PERK"),
        flags: 0,
        form_id: FormId(0x800),
        form_version: 44,
        subrecords: vec![
            subrecord(b"EDID", 0),
            subrecord(b"CTDA", 1),
            subrecord(b"CIS1", 2),
            subrecord(b"CTDA", 3),
            subrecord(b"DATA", 4),
        ],
    }
}

#[test]
fn occurrences_map_to_subrecord_indices() {
    let grammar = grammar();
    assert_eq!(assigned_occurrence_count(&grammar, "R/Conditions/Condition/CTDA"), 2);
    assert_eq!(assigned_subrecord_index(&grammar, "R/Conditions/Condition/CTDA", 1).unwrap(), 3);
    match assigned_subrecord_index(&grammar, "R/Conditions/Condition/CTDA", 2) {
        Err(SemanticError::MissingOccurrence { path, occurrence }) => {
            assert_eq!(path, "R/Conditions/Condition/CTDA");
            assert_eq!(occurrence, 2);
        }
        _ => panic!("only two CTDA subrecords exist"),
    }
}

#[test]
fn insertion_follows_schema_order() {
    let root = schema();
    let grammar = grammar();
    let edid = subrecord(1, "R/EDID", b"EDID");
    let data = subrecord(6, "R/DATA", b"DATA");
    let ctda = subrecord(4, "R/Conditions/Condition/CTDA", b"CTDA");
    assert_eq!(schema_insertion_index(&root, &grammar, 5, &edid).unwrap(), 1);
    assert_eq!(schema_insertion_index(&root, &grammar, 5, &data).unwrap(), 5);
    assert_eq!(schema_insertion_index(&root, &grammar, 5, &ctda).unwrap(), 2);
    let empty = GrammarMatch { assignments: Vec::new(), repeat_scopes: Vec::new() };
    assert_eq!(schema_insertion_index(&root, &empty, 0, &data).unwrap(), 0);
    let unknown = subrecord(9, "R/FULL", b"FULL");
    assert!(matches!(
        schema_insertion_index(&root, &empty, 0, &unknown),
        Err(SemanticError::MissingPath(p)) if p == "R/FULL"
    ));
}

#[test]
fn scoped_insertion_stays_inside_its_repetition() {
    let root = schema();
    let grammar = grammar();
    let cis1 = subrecord(5, "R/Conditions/Condition/CIS1", b"CIS1");
    assert_eq!(scoped_schema_insertion_index(&root, &grammar, &cis1, &scope(1)).unwrap(), 4);
    assert_eq!(scoped_schema_insertion_index(&root, &grammar, &cis1, &scope(0)).unwrap(), 3);
    match scoped_schema_insertion_index(&root, &grammar, &cis1, &scope(7)) {
        Err(SemanticError::Encode { message, .. }) => {
            assert_eq!(message, "repeat scope has no assigned subrecords")
        }
        _ => panic!("repetition 7 has no subrecords"),
    }
}

#[test]
fn scoped_assignments_count_within_their_repetition() {
    let root = schema();
    let grammar = grammar();
    let found = scoped_assignment(&root, &grammar, &scope(1), "R/Conditions/Condition/CTDA/value", 0)
        .unwrap();
    assert_eq!(found, Some((3, 1)));
    assert_eq!(
        scoped_assignment(&root, &grammar, &scope(1), "R/Conditions/Condition/CTDA", 1).unwrap(),
        None
    );
    assert!(matches!(
        scoped_assignment(&root, &grammar, &scope(0), "R/Missing", 0),
        Err(SemanticError::MissingPath(_))
    ));
}

#[test]
fn changed_fields_name_their_node_occurrence_and_scope() {
    let grammar = grammar();
    let changed = changed_field_at("PERK", &grammar, 3).unwrap();
    assert_eq!(changed.path, "R/Conditions/Condition/CTDA");
    assert_eq!(changed.occurrence, 1);
    assert_eq!(changed.repeat_scopes.len(), 1);
    assert_eq!(changed.repeat_scopes[0].occurrence, 1);
    match changed_field_at("PERK", &grammar, 9) {
        Err(SemanticError::Encode { path, message }) => {
            assert_eq!(path, "PERK");
            assert_eq!(message, "edited subrecord at index 9 has no grammar assignment");
        }
        _ => panic!("index 9 has no subrecord"),
    }
}

#[test]
fn scoped_records_keep_one_repetition() {
    let scoped = scoped_record(&record(), &grammar(), Some(&scope(0)));
    let data: Vec<u8> = scoped.subrecords.iter().map(|s| s.data[0]).collect();
    assert_eq!(data, vec![1, 2]);
    assert_eq!(scoped.form_id, FormId(0x800));
    assert_eq!(scoped_record(&record(), &grammar(), None).subrecords.len(), 5);
}

#[test]
fn container_removal_drops_subrecords_and_decoded_values() {
    let root = schema();
    let mut record = record();
    let mut decoded = DecodedValues::new();
    decoded.insert("R/Conditions/Condition/CTDA".to_owned(), 0, FieldValue::UInt(1));
    decoded.insert("R/Conditions/Condition/CIS1".to_owned(), 0, FieldValue::UInt(2));
    decoded.insert("R/Conditions/Condition/CTDA".to_owned(), 1, FieldValue::UInt(3));
    decoded.insert("R/DATA".to_owned(), 0, FieldValue::UInt(4));
    remove_container_assignments(&root, &mut record, &mut decoded, &grammar(), Some(&scope(0)), "R/Conditions")
        .unwrap();
    let data: Vec<u8> = record.subrecords.iter().map(|s| s.data[0]).collect();
    assert_eq!(data, vec![0, 3, 4]);
    assert!(matches!(decoded.get("R/Conditions/Condition/CTDA", 0), Some(FieldValue::UInt(3))));
    assert!(decoded.get("R/Conditions/Condition/CTDA", 1).is_none());
    assert!(decoded.get("R/Conditions/Condition/CIS1", 0).is_none());
    assert!(matches!(decoded.get("R/DATA", 0), Some(FieldValue::UInt(4))));
}

#[test]
fn container_removal_without_scope_takes_every_repetition() {
    let root = schema();
    let mut record = record();
    let mut decoded = DecodedValues::new();
    remove_container_assignments(&root, &mut record, &mut decoded, &grammar(), None, "R/Conditions")
        .unwrap();
    assert_eq!(record.subrecords.len(), 2);
    let mut untouched = self::record();
    assert!(matches!(
        remove_container_assignments(&root, &mut untouched, &mut decoded, &grammar(), None, "R/Nope"),
        Err(SemanticError::MissingPath(_))
    ));
    assert_eq!(untouched.subrecords.len(), 5);
}

#[test]
fn repeat_stacks_are_searched_by_path_and_occurrence() {
    let scopes = vec![scope(0), RepeatScope { path: "R/Other".to_owned(), occurrence: 1 }];
    assert!(contains_scope(&scopes, &scope(0)));
    assert!(!contains_scope(&scopes, &scope(1)));
}

#[test]
fn after_load_edits_anchor_at_the_nearest_subrecord() {
    let root = schema();
    assert_eq!(after_load_anchor_path(&root, "R/DATA/value"), "R/DATA");
    assert_eq!(after_load_anchor_path(&root, "R/DATA"), "R/DATA");
    assert_eq!(after_load_anchor_path(&root, "R/Conditions/Condition/CTDA/value/x"), "R/Conditions/Condition/CTDA");
    assert_eq!(after_load_anchor_path(&root, "Other/path"), "Other/path");
}

#[test]
fn default_primitives_start_at_zero() {
    let signed = PrimitiveType::Integer { integer: IntegerType { width: 4, signed: true, byte_order: ByteOrder::LittleEndian } };
    assert!(matches!(default_primitive_value(&signed, false), OwnedFieldValue::Int(0)));
    assert!(matches!(default_primitive_value(&PrimitiveType::PackedUnsigned, false), OwnedFieldValue::UInt(0)));
    match default_primitive_value(&PrimitiveType::Float { width: 4, byte_order: ByteOrder::LittleEndian }, false) {
        OwnedFieldValue::Float(bits) => assert_eq!(f64::from_bits(bits), 0.0),
        _ => panic!("a float starts at zero"),
    }
    match default_primitive_value(&PrimitiveType::Bytes { length: Some(3) }, false) {
        OwnedFieldValue::Bytes(bytes) => assert_eq!(bytes, vec![0, 0, 0]),
        _ => panic!("bytes start zeroed"),
    }
    assert!(matches!(
        default_primitive_value(&PrimitiveType::FormId { targets: Vec::new() }, false),
        OwnedFieldValue::FormId(FormId(0))
    ));
    let localized = PrimitiveType::String {
        string: StringType {
            encoding: "localized".to_owned(),
            localized: false,
            zero_terminated: true,
            fixed_length: None,
            length_prefix: None,
            trailing_terminator: None,
            allowed_values: Vec::new(),
        },
    };
    assert!(matches!(default_primitive_value(&localized, true), OwnedFieldValue::UInt(0)));
    match default_primitive_value(&localized, false) {
        OwnedFieldValue::String(text) => assert!(text.is_empty()),
        _ => panic!("a plain string starts empty"),
    }
}

#[test]
fn editor_distinguishes_reused_signatures_by_path() {
    // Two AAAA subrecords, the first placed at TEST/first and the second at TEST/second.
    let grammar = GrammarMatch {
        assignments: vec![
            Some(Assignment { id: SchemaNodeId(1), path: "TEST/first".to_owned() }),
            Some(Assignment { id: SchemaNodeId(2), path: "TEST/second".to_owned() }),
        ],
        repeat_scopes: vec![Vec::new(), Vec::new()],
    };
    assert_eq!(assigned_subrecord_index(&grammar, "TEST/first", 0).unwrap(), 0);
    assert_eq!(assigned_subrecord_index(&grammar, "TEST/second", 0).unwrap(), 1);
    assert!(matches!(
        assigned_subrecord_index(&grammar, "TEST/second", 1),
        Err(SemanticError::MissingOccurrence { occurrence: 1, .. })
    ));
}
