use bethkit_semantic::address::{
    schema_hash_hex, structure_hash, Field, FieldAddress, FieldOrigin, RepeatScope, ValueSelection,
    ValueStep,
};
use bethkit_semantic::editor_address::addressed_field;
use bethkit_semantic::model::{FormId, SchemaNodeId, Signature};
use bethkit_semantic::value::{ByteSpan, FieldValue, SemanticError};

fn selected_field() -> Field {
    Field {
        subrecord_index: 0,
        repeat_scopes: Vec::new(),
        node_id: SchemaNodeId(1),
        path: "TEST/data".to_owned(),
        effective_path: None,
        value_selections: vec![ValueSelection {
            schema_path: "TEST/data/items/item".to_owned(),
            array_indices: vec![0, 1],
            effective_path: "TEST/data/items/item/first".to_owned(),
        }],
        name: "Data".to_owned(),
        subrecord_signature: Signature(*b"DATA"),
        occurrence: 0,
        span: ByteSpan { start: 0, end: 4 },
        origin: FieldOrigin::Schema,
        value: FieldValue::Array(vec![FieldValue::String("old".to_owned())]),
    }
}

/// Distinguishes every selected union occurrence without hashing editable scalar text.
#[test]
fn union_selection_identity_is_structural() {
    // given
    let mut fields = [selected_field()];
    let original = structure_hash(&fields);

    // when
    fields[0].value = FieldValue::Array(vec![FieldValue::String(
        "a substantially longer replacement".to_owned(),
    )]);
    fields[0].span.end = 36;

    // then
    assert_eq!(structure_hash(&fields), original);
    fields[0].value_selections[0].effective_path = "TEST/data/items/item/second".to_owned();
    assert_ne!(structure_hash(&fields), original);
    fields[0].value_selections[0].effective_path = "TEST/data/items/item/first".to_owned();
    fields[0].value_selections[0].array_indices = vec![1, 0];
    assert_ne!(structure_hash(&fields), original);
    fields[0].value_selections[0].array_indices = vec![0, 1];
    fields[0].value_selections[0].schema_path = "TEST/data/other/item".to_owned();
    assert_ne!(structure_hash(&fields), original);
    fields[0].value_selections.clear();
    assert_ne!(structure_hash(&fields), original);
}

#[test]
fn structure_hash_is_lowercase_sha256_hex() {
    let hash = structure_hash(&[selected_field()]);
    assert_eq!(hash.len(), 64);
    assert!(hash.chars().all(|c| c.is_ascii_digit() || ('a'..='f').contains(&c)));
    assert_ne!(structure_hash(&[]), hash);
}

#[test]
fn structure_hash_tracks_array_lengths_and_order() {
    let mut field = selected_field();
    let original = structure_hash(&[selected_field()]);
    field.value = FieldValue::Array(vec![
        FieldValue::String("old".to_owned()),
        FieldValue::String("new".to_owned()),
    ]);
    assert_ne!(structure_hash(&[field]), original);
    let mut scoped = selected_field();
    scoped.repeat_scopes = vec![RepeatScope { path: "TEST/data".to_owned(), occurrence: 1 }];
    assert_ne!(structure_hash(&[scoped]), original);
}

#[test]
fn schema_hashes_print_as_lowercase_hex() {
    let mut digest = [0u8; 32];
    digest[0] = 0xab;
    digest[31] = 0x0f;
    let text = schema_hash_hex(&digest);
    assert_eq!(text.len(), 64);
    assert!(text.starts_with("ab00"));
    assert!(text.ends_with("000f"));
}

fn address_for(fields: &[Field], digest: &[u8; 32]) -> FieldAddress {
    FieldAddress {
        schema_payload_sha256: schema_hash_hex(digest),
        structure_hash: structure_hash(fields),
        record_signature: *b"WEAP",
        form_id: 0x0001_0800,
        subrecord_index: 0,
        subrecord_path: "TEST/data".to_owned(),
        repeat_scopes: Vec::new(),
        value_steps: vec![ValueStep::Index { index: 0 }],
    }
}

#[test]
fn addresses_select_their_field() {
    let digest = [7u8; 32];
    let address = address_for(&[selected_field()], &digest);
    let field = addressed_field(
        &address,
        Signature(*b"WEAP"),
        FormId(0x0001_0800),
        &digest,
        vec![selected_field()],
    )
    .expect("the address matches its snapshot");
    assert_eq!(field.path, "TEST/data");
}

#[test]
fn addresses_reject_other_records_and_schemas() {
    let digest = [7u8; 32];
    let address = address_for(&[selected_field()], &digest);
    for (signature, form_id, schema) in [
        (*b"ARMO", 0x0001_0800, digest),
        (*b"WEAP", 0x0001_0801, digest),
        (*b"WEAP", 0x0001_0800, [8u8; 32]),
    ] {
        match addressed_field(&address, Signature(signature), FormId(form_id), &schema, vec![selected_field()]) {
            Err(SemanticError::Encode { path, message }) => {
                assert_eq!(path, "TEST/data");
                assert_eq!(message, "address belongs to another record or schema");
            }
            _ => panic!("a foreign address must be rejected"),
        }
    }
}

#[test]
fn addresses_go_stale_after_structural_edits() {
    let digest = [7u8; 32];
    let address = address_for(&[selected_field()], &digest);
    let mut changed = selected_field();
    changed.value = FieldValue::Array(Vec::new());
    match addressed_field(&address, Signature(*b"WEAP"), FormId(0x0001_0800), &digest, vec![changed]) {
        Err(SemanticError::Encode { message, .. }) => {
            assert_eq!(message, "stale address; refresh the record snapshot")
        }
        _ => panic!("a stale address must be rejected"),
    }
}

#[test]
fn addresses_without_a_matching_assignment_are_rejected() {
    let digest = [7u8; 32];
    let mut address = address_for(&[selected_field()], &digest);
    address.subrecord_index = 3;
    match addressed_field(&address, Signature(*b"WEAP"), FormId(0x0001_0800), &digest, vec![selected_field()]) {
        Err(SemanticError::Encode { message, .. }) => {
            assert_eq!(message, "address does not match a grammar assignment")
        }
        _ => panic!("no field has subrecord index 3"),
    }
}
