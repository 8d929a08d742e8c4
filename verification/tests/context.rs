use bethkit_semantic::context::{
    format_string_enumeration_value, invalid_record_metadata_output, record_metadata_binding,
    CallbackBinding, CallbackImplementation,
};
use bethkit_semantic::value::{SemanticError, ValueFormat};

/// Matches xEdit's string-enumeration behavior across presentation modes.
#[test]
fn string_enumeration_formats_known_and_unknown_values() {
    let allowed = vec!["BGSActivityTracker".to_owned()];

    assert_eq!(
        format_string_enumeration_value(&allowed, "BGSActivityTracker", ValueFormat::Display),
        "BGSActivityTracker"
    );
    assert_eq!(
        format_string_enumeration_value(&allowed, "FutureComponent", ValueFormat::Summary),
        "<Unknown: FutureComponent>"
    );
    assert_eq!(
        format_string_enumeration_value(&allowed, "FutureComponent", ValueFormat::EditValue),
        "FutureComponent"
    );
    assert_eq!(
        format_string_enumeration_value(&allowed, "mixedCase", ValueFormat::SortKey),
        "MIXEDCASE"
    );
    assert_eq!(
        format_string_enumeration_value(&allowed, "", ValueFormat::Display),
        ""
    );
}

#[test]
fn sort_keys_uppercase_through_unicode_mapping() {
    let allowed: Vec<String> = Vec::new();
    assert_eq!(
        format_string_enumeration_value(&allowed, "straße", ValueFormat::SortKey),
        "STRASSE"
    );
    assert_eq!(
        format_string_enumeration_value(&allowed, "Native", ValueFormat::NativeValue),
        "Native"
    );
}

fn binding(path: &str, id: &str, implementation: CallbackImplementation) -> CallbackBinding {
    CallbackBinding {
        path: path.to_owned(),
        callback_id: id.to_owned(),
        implementation,
    }
}

#[test]
fn record_metadata_binding_is_absent_without_binding() {
    let bindings = vec![binding("WEAP", "editor_id", CallbackImplementation::BuiltIn)];
    assert!(matches!(
        record_metadata_binding(&bindings, "ARMO", "editor_id"),
        Ok(None)
    ));
    assert!(matches!(
        record_metadata_binding(&bindings, "WEAP", "form_id"),
        Ok(None)
    ));
}

#[test]
fn record_metadata_binding_returns_the_single_executable_binding() {
    let bindings = vec![
        binding("WEAP", "grid_cell", CallbackImplementation::BuiltIn),
        binding("WEAP", "editor_id", CallbackImplementation::CustomHandler),
    ];
    let found = record_metadata_binding(&bindings, "WEAP", "editor_id")
        .expect("a single binding resolves")
        .expect("the binding exists");
    assert_eq!(found.callback_id, "editor_id");
    assert!(matches!(found.implementation, CallbackImplementation::CustomHandler));
}

#[test]
fn record_metadata_binding_rejects_duplicate_bindings() {
    let bindings = vec![
        binding("WEAP", "editor_id", CallbackImplementation::BuiltIn),
        binding("WEAP", "editor_id", CallbackImplementation::BuiltIn),
    ];
    match record_metadata_binding(&bindings, "WEAP", "editor_id") {
        Err(SemanticError::Handler { handler, message }) => {
            assert_eq!(handler, "editor_id");
            assert_eq!(message, "record metadata callback is bound more than once");
        }
        _ => panic!("duplicate bindings must be rejected"),
    }
}

#[test]
fn record_metadata_binding_rejects_non_executable_binding() {
    let bindings = vec![binding("WEAP", "editor_id", CallbackImplementation::Unsupported)];
    match record_metadata_binding(&bindings, "WEAP", "editor_id") {
        Err(SemanticError::Handler { handler, message }) => {
            assert_eq!(handler, "editor_id");
            assert_eq!(message, "record metadata callback is not executable");
        }
        _ => panic!("non-executable bindings must be rejected"),
    }
}

#[test]
fn invalid_record_metadata_output_names_the_callback() {
    let b = binding("WEAP", "grid_cell", CallbackImplementation::BuiltIn);
    match invalid_record_metadata_output(&b, "expected a string") {
        SemanticError::Handler { handler, message } => {
            assert_eq!(handler, "grid_cell");
            assert_eq!(message, "expected a string");
        }
        _ => panic!("a handler error is expected"),
    }
}
