use bethkit_semantic::address::ValueStep;
use bethkit_semantic::editor::owned_values_equal;
use bethkit_semantic::editor_address::{
    address_error, insert_at_value, owned_target, remove_at_value, set_at_value,
};
use bethkit_semantic::model::SchemaNodeId;
use bethkit_semantic::value::{ByteSpan, FieldValue, NamedValue, OwnedFieldValue, SemanticError};

fn member(path: &str, value: FieldValue) -> NamedValue {
    NamedValue {
        node_id: SchemaNodeId(1),
        path: path.to_owned(),
        effective_path: None,
        name: path.to_owned(),
        span: ByteSpan { start: 0, end: 0 },
        value,
    }
}

/// A decoded struct `{ mode: 1, items: [10, 20] }` and its owned form.
fn decoded() -> FieldValue {
    FieldValue::Struct(vec![
        member("R/DATA/mode", FieldValue::UInt(1)),
        member("R/DATA/items", FieldValue::Array(vec![FieldValue::UInt(10), FieldValue::UInt(20)])),
    ])
}

fn owned() -> OwnedFieldValue {
    OwnedFieldValue::Struct(vec![
        OwnedFieldValue::UInt(1),
        OwnedFieldValue::Array(vec![OwnedFieldValue::UInt(10), OwnedFieldValue::UInt(20)]),
    ])
}

fn items_step() -> ValueStep {
    ValueStep::Field { index: 1, path: "R/DATA/items".to_owned() }
}

fn encode_message(result: Result<Option<OwnedFieldValue>, SemanticError>) -> String {
    match result {
        Err(SemanticError::Encode { message, .. }) => message,
        _ => panic!("an encoding error is expected"),
    }
}

#[test]
fn owned_targets_follow_value_steps() {
    let owned = owned();
    let target = owned_target(&owned, &decoded(), &[items_step(), ValueStep::Index { index: 1 }], "R/DATA")
        .expect("the address reaches an item");
    assert!(owned_values_equal(target, &OwnedFieldValue::UInt(20)));
    let whole = owned_target(&owned, &decoded(), &[], "R/DATA").unwrap();
    assert!(owned_values_equal(whole, &owned));
}

#[test]
fn owned_targets_check_schema_paths_and_bounds() {
    let owned = owned();
    let wrong_path = [ValueStep::Field { index: 1, path: "R/DATA/other".to_owned() }];
    match owned_target(&owned, &decoded(), &wrong_path, "R/DATA") {
        Err(SemanticError::Encode { path, message }) => {
            assert_eq!(path, "R/DATA");
            assert_eq!(message, "struct step does not match decoded schema path");
        }
        _ => panic!("a wrong member path must be rejected"),
    }
    let out_of_bounds = [items_step(), ValueStep::Index { index: 2 }];
    assert!(owned_target(&owned, &decoded(), &out_of_bounds, "R/DATA").is_err());
    let wrong_kind = [ValueStep::Index { index: 0 }];
    match owned_target(&owned, &decoded(), &wrong_kind, "R/DATA") {
        Err(SemanticError::Encode { message, .. }) => {
            assert_eq!(message, "address step does not match decoded value kind")
        }
        _ => panic!("an index step into a struct must be rejected"),
    }
}

#[test]
fn set_at_replaces_exactly_the_addressed_value() {
    let updated = set_at_value(
        owned(),
        &decoded(),
        &[items_step(), ValueStep::Index { index: 0 }],
        "R/DATA",
        &OwnedFieldValue::UInt(99),
    )
    .unwrap();
    let expected = OwnedFieldValue::Struct(vec![
        OwnedFieldValue::UInt(1),
        OwnedFieldValue::Array(vec![OwnedFieldValue::UInt(99), OwnedFieldValue::UInt(20)]),
    ]);
    assert!(owned_values_equal(&updated, &expected));
    let read = owned_target(&updated, &decoded(), &[items_step(), ValueStep::Index { index: 0 }], "R/DATA")
        .unwrap();
    assert!(owned_values_equal(read, &OwnedFieldValue::UInt(99)));
}

#[test]
fn remove_at_drops_array_items_and_clears_members() {
    let without_item = remove_at_value(owned(), &decoded(), &[items_step(), ValueStep::Index { index: 0 }], "R/DATA")
        .unwrap()
        .expect("an item removal keeps the subrecord");
    let expected = OwnedFieldValue::Struct(vec![
        OwnedFieldValue::UInt(1),
        OwnedFieldValue::Array(vec![OwnedFieldValue::UInt(20)]),
    ]);
    assert!(owned_values_equal(&without_item, &expected));
    let without_mode = remove_at_value(
        owned(),
        &decoded(),
        &[ValueStep::Field { index: 0, path: "R/DATA/mode".to_owned() }],
        "R/DATA",
    )
    .unwrap()
    .expect("a member removal keeps the subrecord");
    match without_mode {
        OwnedFieldValue::Struct(values) => assert!(matches!(values[0], OwnedFieldValue::Absent)),
        _ => panic!("the value stays a struct"),
    }
    assert!(remove_at_value(owned(), &decoded(), &[], "R/DATA").unwrap().is_none());
    assert_eq!(
        encode_message(remove_at_value(owned(), &decoded(), &[items_step(), ValueStep::Index { index: 5 }], "R/DATA")),
        "address does not select a removable item"
    );
}

#[test]
fn insert_at_appends_or_inserts_before_items() {
    let appended = insert_at_value(owned(), &decoded(), &[items_step()], "R/DATA", &OwnedFieldValue::UInt(30))
        .unwrap()
        .unwrap();
    let expected = OwnedFieldValue::Struct(vec![
        OwnedFieldValue::UInt(1),
        OwnedFieldValue::Array(vec![
            OwnedFieldValue::UInt(10),
            OwnedFieldValue::UInt(20),
            OwnedFieldValue::UInt(30),
        ]),
    ]);
    assert!(owned_values_equal(&appended, &expected));
    let before = insert_at_value(
        owned(),
        &decoded(),
        &[items_step(), ValueStep::Index { index: 1 }],
        "R/DATA",
        &OwnedFieldValue::UInt(15),
    )
    .unwrap()
    .unwrap();
    let expected = OwnedFieldValue::Struct(vec![
        OwnedFieldValue::UInt(1),
        OwnedFieldValue::Array(vec![
            OwnedFieldValue::UInt(10),
            OwnedFieldValue::UInt(15),
            OwnedFieldValue::UInt(20),
        ]),
    ]);
    assert!(owned_values_equal(&before, &expected));
    assert!(insert_at_value(owned(), &decoded(), &[], "R/DATA", &OwnedFieldValue::UInt(0))
        .unwrap()
        .is_none());
    assert_eq!(
        encode_message(insert_at_value(
            owned(),
            &decoded(),
            &[ValueStep::Field { index: 0, path: "R/DATA/mode".to_owned() }],
            "R/DATA",
            &OwnedFieldValue::UInt(0),
        )),
        "insertion requires an array or subrecord"
    );
}

#[test]
fn removing_an_inserted_item_restores_the_value() {
    let steps = [items_step(), ValueStep::Index { index: 1 }];
    let grown = insert_at_value(owned(), &decoded(), &steps, "R/DATA", &OwnedFieldValue::UInt(15))
        .unwrap()
        .unwrap();
    let restored = remove_at_value(grown, &decoded(), &steps, "R/DATA").unwrap().unwrap();
    assert!(owned_values_equal(&restored, &owned()));
}

#[test]
fn address_errors_are_encoding_errors() {
    match address_error("R/DATA", "boom") {
        SemanticError::Encode { path, message } => {
            assert_eq!(path, "R/DATA");
            assert_eq!(message, "boom");
        }
        _ => panic!("an encoding error is expected"),
    }
}
