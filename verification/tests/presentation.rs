use bethkit_semantic::context::{CallbackBinding, CallbackImplementation, HandlerOutput};
use bethkit_semantic::model::{FormId, SchemaNodeId};
use bethkit_semantic::presentation::{
    array_is_sorted, format_value, format_value_as, is_removable, parse_edit_value, record_editor_id, record_form_id,
    record_identity,
};
use bethkit_semantic::schema::{PrimitiveType, SchemaNode, SchemaNodeKind, StringType};
use bethkit_semantic::value::{FieldValue, OwnedFieldValue, SemanticError, ValueFormat};

fn binding(path: &str, callback_id: &str, implementation: CallbackImplementation) -> CallbackBinding {
    CallbackBinding { path: path.to_owned(), callback_id: callback_id.to_owned(), implementation }
}

/// A record whose only field is a string enumeration of two names.
fn schema() -> SchemaNode {
    SchemaNode {
        id: SchemaNodeId(1),
        path: "TEST/NAME".to_owned(),
        name: "Name".to_owned(),
        required: true,
        condition: None,
        kind: SchemaNodeKind::Primitive {
            primitive: PrimitiveType::String {
                string: StringType {
                    encoding: "utf8".to_owned(),
                    localized: false,
                    zero_terminated: true,
                    fixed_length: None,
                    length_prefix: None,
                    trailing_terminator: None,
                    allowed_values: vec!["Alpha".to_owned(), "Beta".to_owned()],
                },
            },
        },
    }
}

fn not_validation(_: &CallbackBinding) -> bool {
    false
}

fn text(value: &str) -> FieldValue {
    FieldValue::String(value.to_owned())
}

#[test]
fn values_are_removable_unless_a_callback_says_otherwise() {
    let never = |_: &CallbackBinding, _: &FieldValue| -> Result<HandlerOutput, SemanticError> {
        Err(SemanticError::Handler { handler: "x".to_owned(), message: "ran".to_owned() })
    };
    assert!(is_removable(&Vec::new(), "TEST/NAME", &text("Alpha"), &never).unwrap());
    let unsupported = vec![binding("TEST/NAME", "def.is_removeable", CallbackImplementation::Unsupported)];
    assert!(is_removable(&unsupported, "TEST/NAME", &text("Alpha"), &never).unwrap());

    let bindings = vec![binding("TEST/NAME", "def.is_removeable", CallbackImplementation::BuiltIn)];
    let no = |_: &CallbackBinding, _: &FieldValue| Ok(HandlerOutput::Boolean(false));
    assert!(!is_removable(&bindings, "TEST/NAME", &text("Alpha"), &no).unwrap());
    let odd = |_: &CallbackBinding, _: &FieldValue| Ok(HandlerOutput::Text("no".to_owned()));
    let error = is_removable(&bindings, "TEST/NAME", &text("Alpha"), &odd).unwrap_err();
    assert!(matches!(
        error,
        SemanticError::Handler { ref handler, ref message }
            if handler == "def.is_removeable" && message == "removability callback returned a non-boolean result"
    ));
}

#[test]
fn array_sorting_comes_from_its_one_callback() {
    let yes = |_: &CallbackBinding| Ok(HandlerOutput::Boolean(true));
    assert_eq!(array_is_sorted(&Vec::new(), "TEST/ITEMS", &yes).unwrap(), None);
    let one = vec![binding("TEST/ITEMS", "subrecord_array.is_sorted", CallbackImplementation::CustomHandler)];
    assert_eq!(array_is_sorted(&one, "TEST/ITEMS", &yes).unwrap(), Some(true));

    let two = vec![
        binding("TEST/ITEMS", "subrecord_array.is_sorted", CallbackImplementation::BuiltIn),
        binding("TEST/ITEMS", "subrecord_array.is_sorted", CallbackImplementation::BuiltIn),
    ];
    let error = array_is_sorted(&two, "TEST/ITEMS", &yes).unwrap_err();
    assert!(matches!(error, SemanticError::Handler { ref message, .. } if message == "array sorting callback is bound more than once"));
    let unsupported = vec![binding("TEST/ITEMS", "subrecord_array.is_sorted", CallbackImplementation::Unsupported)];
    let error = array_is_sorted(&unsupported, "TEST/ITEMS", &yes).unwrap_err();
    assert!(matches!(error, SemanticError::Handler { ref message, .. } if message == "array sorting callback is not executable"));
    let nothing = |_: &CallbackBinding| Ok(HandlerOutput::Nothing);
    let error = array_is_sorted(&one, "TEST/ITEMS", &nothing).unwrap_err();
    assert!(matches!(error, SemanticError::Handler { ref message, .. } if message == "array sorting callback returned a non-boolean result"));
}

#[test]
fn formatting_starts_from_the_enumeration_text_and_chains_formatters() {
    let root = schema();
    let never = |_: &CallbackBinding, _: &FieldValue| -> Result<HandlerOutput, SemanticError> {
        Err(SemanticError::Handler { handler: "x".to_owned(), message: "ran".to_owned() })
    };
    let shown = format_value(&root, &Vec::new(), "TEST/NAME", &text("Gamma"), &never, &not_validation).unwrap();
    assert_eq!(shown.as_deref(), Some("<Unknown: Gamma>"));
    let key = format_value_as(&root, &Vec::new(), "TEST/NAME", &text("Beta"), ValueFormat::SortKey, &never, &not_validation)
        .unwrap();
    assert_eq!(key.as_deref(), Some("BETA"));
    assert_eq!(format_value(&root, &Vec::new(), "TEST/OTHER", &text("x"), &never, &not_validation).unwrap(), None);

    let bindings = vec![
        binding("TEST/NAME", "string.formatter", CallbackImplementation::BuiltIn),
        binding("TEST/NAME", "def.value_transform", CallbackImplementation::BuiltIn),
    ];
    let wrap = |_: &CallbackBinding, value: &FieldValue| match value {
        FieldValue::String(s) => Ok(HandlerOutput::Text(format!("[{s}]"))),
        _ => Ok(HandlerOutput::Nothing),
    };
    let shown = format_value(&root, &bindings, "TEST/NAME", &text("Alpha"), &wrap, &not_validation).unwrap();
    assert_eq!(shown.as_deref(), Some("[[Alpha]]"));
    let validation = |b: &CallbackBinding| b.callback_id == "string.formatter";
    let shown = format_value(&root, &bindings, "TEST/NAME", &text("Alpha"), &wrap, &validation).unwrap();
    assert_eq!(shown.as_deref(), Some("[Alpha]"));
    let number = |_: &CallbackBinding, _: &FieldValue| Ok(HandlerOutput::Integer(1));
    let error = format_value(&root, &bindings, "TEST/NAME", &text("Alpha"), &number, &not_validation).unwrap_err();
    assert!(matches!(error, SemanticError::Handler { ref message, .. } if message == "value formatter returned a non-text result"));
}

#[test]
fn parsing_keeps_enumeration_text_unless_a_parser_gives_a_value() {
    let root = schema();
    let never = |_: &CallbackBinding, _: &FieldValue| -> Result<HandlerOutput, SemanticError> {
        Err(SemanticError::Handler { handler: "x".to_owned(), message: "ran".to_owned() })
    };
    let parsed = parse_edit_value(&root, &Vec::new(), "TEST/NAME", "Beta", &never, &not_validation).unwrap();
    assert!(matches!(parsed, Some(OwnedFieldValue::String(ref s)) if s == "Beta"));
    assert!(parse_edit_value(&root, &Vec::new(), "TEST/OTHER", "7", &never, &not_validation).unwrap().is_none());

    let bindings = vec![binding("TEST/OTHER", "integer.formatter", CallbackImplementation::BuiltIn)];
    let number = |_: &CallbackBinding, value: &FieldValue| match value {
        FieldValue::String(s) => Ok(HandlerOutput::Value(OwnedFieldValue::UInt(s.parse().unwrap()))),
        _ => Ok(HandlerOutput::Nothing),
    };
    let parsed = parse_edit_value(&root, &bindings, "TEST/OTHER", "7", &number, &not_validation).unwrap();
    assert!(matches!(parsed, Some(OwnedFieldValue::UInt(7))));
    let text_out = |_: &CallbackBinding, _: &FieldValue| Ok(HandlerOutput::Text("7".to_owned()));
    let error = parse_edit_value(&root, &bindings, "TEST/OTHER", "7", &text_out, &not_validation).unwrap_err();
    assert!(matches!(error, SemanticError::Handler { ref message, .. } if message == "edit parser returned a non-value result"));
}

#[test]
fn record_metadata_comes_from_the_one_record_callback() {
    let identity = |_: &CallbackBinding| Ok(HandlerOutput::Text("Iron Sword".to_owned()));
    assert_eq!(record_identity(&Vec::new(), "WEAP", &identity).unwrap(), None);
    let bindings = vec![
        binding("WEAP", "record.identity", CallbackImplementation::BuiltIn),
        binding("WEAP", "record.get_editor_id", CallbackImplementation::BuiltIn),
        binding("WEAP", "record.form_id", CallbackImplementation::BuiltIn),
        binding("ARMO", "record.identity", CallbackImplementation::Unsupported),
    ];
    assert_eq!(record_identity(&bindings, "WEAP", &identity).unwrap().as_deref(), Some("Iron Sword"));
    assert_eq!(record_editor_id(&bindings, "WEAP", &identity).unwrap().as_deref(), Some("Iron Sword"));
    let error = record_identity(&bindings, "ARMO", &identity).unwrap_err();
    assert!(matches!(error, SemanticError::Handler { ref message, .. } if message == "record metadata callback is not executable"));
    let nothing = |_: &CallbackBinding| Ok(HandlerOutput::Nothing);
    let error = record_editor_id(&bindings, "WEAP", &nothing).unwrap_err();
    assert!(matches!(
        error,
        SemanticError::Handler { ref handler, ref message }
            if handler == "record.get_editor_id" && message == "editor-ID callback returned a non-text result"
    ));
    assert_eq!(record_form_id(&bindings, "WEAP", &nothing).unwrap(), None);
    let form = |_: &CallbackBinding| Ok(HandlerOutput::FormId(FormId(0x0001_2EB7)));
    assert_eq!(record_form_id(&bindings, "WEAP", &form).unwrap(), Some(FormId(0x0001_2EB7)));
    let error = record_form_id(&bindings, "WEAP", &identity).unwrap_err();
    assert!(matches!(error, SemanticError::Handler { ref message, .. } if message == "FormID callback returned a non-FormID result"));
}
