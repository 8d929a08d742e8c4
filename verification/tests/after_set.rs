use bethkit_semantic::after_set::apply_after_set_tree;
use bethkit_semantic::context::{CallbackBinding, CallbackImplementation, HandlerOutput};
use bethkit_semantic::decoder::{DecoderRegistry, ZeroWidthIntegerDecoder};
use bethkit_semantic::default_callbacks::{apply_default_value_callbacks, default_union_callback_pick, select_by_callback};
use bethkit_semantic::decoded::DecodedValues;
use bethkit_semantic::editor_union::encode_node_with_fields;
use bethkit_semantic::encode::encode_node;
use bethkit_semantic::expression::ExpressionValues;
use bethkit_semantic::model::SchemaNodeId;
use bethkit_semantic::mutation::HandlerMutation;
use bethkit_semantic::schema::{
    ArrayCount, ByteOrder, Expression, IntegerType, PrimitiveType, SchemaNode, SchemaNodeKind, UnionSelector,
};
use bethkit_semantic::value::{FieldValue, OwnedFieldValue, SemanticError};

fn narrow(bits: u64) -> u32 {
    (f64::from_bits(bits) as f32).to_bits()
}

fn no_union(_: &SchemaNode, _: usize, _: &Vec<u8>) -> Result<Option<i64>, SemanticError> {
    Ok(None)
}

fn no_pick(_: &SchemaNode) -> Result<i64, SemanticError> {
    Ok(0)
}

fn keep(_: &SchemaNode, value: OwnedFieldValue, _: &Vec<usize>) -> Result<OwnedFieldValue, SemanticError> {
    Ok(value)
}

fn registry() -> DecoderRegistry<ZeroWidthIntegerDecoder> {
    DecoderRegistry::builtin()
}

fn node(id: u32, path: &str, kind: SchemaNodeKind) -> SchemaNode {
    SchemaNode {
        id: SchemaNodeId(id),
        path: path.to_owned(),
        name: path.rsplit('/').next().unwrap_or(path).to_owned(),
        required: true,
        condition: None,
        kind,
    }
}

fn byte_node(id: u32, path: &str) -> SchemaNode {
    node(
        id,
        path,
        SchemaNodeKind::Primitive {
            primitive: PrimitiveType::Integer {
                integer: IntegerType { width: 1, signed: false, byte_order: ByteOrder::LittleEndian },
            },
        },
    )
}

/// A struct of a byte and a byte array with a one-byte count prefix.
fn record_node() -> SchemaNode {
    node(
        1,
        "TEST/data",
        SchemaNodeKind::Struct {
            fields: vec![
                byte_node(2, "TEST/data/flag"),
                node(
                    3,
                    "TEST/data/items",
                    SchemaNodeKind::Array {
                        element: Box::new(byte_node(4, "TEST/data/items/element")),
                        count: ArrayCount::Prefixed {
                            integer: IntegerType {
                                width: 1,
                                signed: false,
                                byte_order: ByteOrder::LittleEndian,
                            },
                            terminator: None,
                        },
                    },
                ),
            ],
        },
    )
}

fn record_value() -> OwnedFieldValue {
    OwnedFieldValue::Struct(vec![
        OwnedFieldValue::UInt(1),
        OwnedFieldValue::Array(vec![
            OwnedFieldValue::UInt(10),
            OwnedFieldValue::UInt(20),
            OwnedFieldValue::UInt(30),
        ]),
    ])
}

fn binding(path: &str, implementation: CallbackImplementation) -> CallbackBinding {
    CallbackBinding {
        path: path.to_owned(),
        callback_id: "def.after_set".to_owned(),
        implementation,
    }
}

fn members(value: &OwnedFieldValue) -> (u64, Vec<u64>) {
    let uint = |v: &OwnedFieldValue| match v {
        OwnedFieldValue::UInt(x) => *x,
        other => panic!("not an unsigned integer: {other:?}"),
    };
    match value {
        OwnedFieldValue::Struct(members) => match &members[1] {
            OwnedFieldValue::Array(items) => (uint(&members[0]), items.iter().map(uint).collect()),
            other => panic!("items are not an array: {other:?}"),
        },
        other => panic!("value is not a struct: {other:?}"),
    }
}

fn never(_: &CallbackBinding, _: &FieldValue, _: Option<&FieldValue>) -> Result<HandlerOutput, SemanticError> {
    Ok(HandlerOutput::Other)
}

#[test]
fn after_set_without_callbacks_keeps_the_value() {
    let (value, mutations) = apply_after_set_tree(
        &record_node(),
        &record_value(),
        None,
        &Vec::new(),
        false,
        &registry(),
        &no_union,
        &narrow,
        &no_pick,
        &keep,
        &never,
    )
    .unwrap();
    assert_eq!(members(&value), (1, vec![10, 20, 30]));
    assert!(mutations.is_empty());
}

#[test]
fn after_set_callback_replaces_a_member_value() {
    let bindings = vec![binding("TEST/data/flag", CallbackImplementation::BuiltIn)];
    let invoke = |b: &CallbackBinding, current: &FieldValue, previous: Option<&FieldValue>| {
        assert_eq!(b.path, "TEST/data/flag");
        assert!(matches!(current, FieldValue::UInt(1)));
        assert!(previous.is_none());
        Ok(HandlerOutput::Value(OwnedFieldValue::UInt(7)))
    };
    let (value, mutations) = apply_after_set_tree(
        &record_node(),
        &record_value(),
        None,
        &bindings,
        false,
        &registry(),
        &no_union,
        &narrow,
        &no_pick,
        &keep,
        &invoke,
    )
    .unwrap();
    assert_eq!(members(&value), (7, vec![10, 20, 30]));
    assert!(mutations.is_empty());
}

#[test]
fn after_set_mutations_apply_at_the_enclosing_node_and_the_rest_go_up() {
    let bindings = vec![binding("TEST/data/flag", CallbackImplementation::CustomHandler)];
    let invoke = |_: &CallbackBinding, _: &FieldValue, _: Option<&FieldValue>| {
        Ok(HandlerOutput::Mutations(vec![
            HandlerMutation::SetValue {
                path: "TEST/data/items/element".to_owned(),
                occurrence: 1,
                value: OwnedFieldValue::UInt(21),
            },
            HandlerMutation::RemoveAll { path: "TEST/other".to_owned() },
        ]))
    };
    let (value, mutations) = apply_after_set_tree(
        &record_node(),
        &record_value(),
        None,
        &bindings,
        false,
        &registry(),
        &no_union,
        &narrow,
        &no_pick,
        &keep,
        &invoke,
    )
    .unwrap();
    assert_eq!(members(&value), (1, vec![10, 21, 30]));
    assert_eq!(mutations.len(), 1);
    assert!(matches!(&mutations[0], HandlerMutation::RemoveAll { path } if path == "TEST/other"));
}

#[test]
fn after_set_skips_callbacks_when_the_decoded_value_is_unchanged() {
    let bindings = vec![binding("TEST/data/flag", CallbackImplementation::BuiltIn)];
    let previous = FieldValue::UInt(1);
    let (value, mutations) = apply_after_set_tree(
        &byte_node(2, "TEST/data/flag"),
        &OwnedFieldValue::UInt(1),
        Some(&previous),
        &bindings,
        false,
        &registry(),
        &no_union,
        &narrow,
        &no_pick,
        &keep,
        &never,
    )
    .unwrap();
    assert!(matches!(value, OwnedFieldValue::UInt(1)));
    assert!(mutations.is_empty());
}

#[test]
fn after_set_callback_with_an_invalid_output_fails() {
    let bindings = vec![binding("TEST/data/flag", CallbackImplementation::BuiltIn)];
    let previous = FieldValue::UInt(2);
    let error = apply_after_set_tree(
        &byte_node(2, "TEST/data/flag"),
        &OwnedFieldValue::UInt(1),
        Some(&previous),
        &bindings,
        false,
        &registry(),
        &no_union,
        &narrow,
        &no_pick,
        &keep,
        &never,
    )
    .unwrap_err();
    assert!(matches!(
        error,
        SemanticError::Handler { ref handler, ref message }
            if handler == "def.after_set" && message == "after-set handler returned an invalid result"
    ));
}

#[test]
fn after_set_ignores_callbacks_that_cannot_run() {
    let bindings = vec![binding("TEST/data/flag", CallbackImplementation::Unsupported)];
    let (value, _) = apply_after_set_tree(
        &byte_node(2, "TEST/data/flag"),
        &OwnedFieldValue::UInt(1),
        None,
        &bindings,
        false,
        &registry(),
        &no_union,
        &narrow,
        &no_pick,
        &keep,
        &never,
    )
    .unwrap();
    assert!(matches!(value, OwnedFieldValue::UInt(1)));
}

#[test]
fn after_set_rejects_a_struct_of_the_wrong_width() {
    let error = apply_after_set_tree(
        &record_node(),
        &OwnedFieldValue::Struct(vec![OwnedFieldValue::UInt(1)]),
        None,
        &Vec::new(),
        false,
        &registry(),
        &no_union,
        &narrow,
        &no_pick,
        &keep,
        &never,
    )
    .unwrap_err();
    assert!(matches!(
        error,
        SemanticError::Encode { ref path, ref message }
            if path == "TEST/data" && message == "struct expects 2 fields, got 1"
    ));
}

fn default_binding(path: &str) -> CallbackBinding {
    CallbackBinding {
        path: path.to_owned(),
        callback_id: "value.set_default".to_owned(),
        implementation: CallbackImplementation::BuiltIn,
    }
}

#[test]
fn default_value_callbacks_replace_the_fresh_value_in_binding_order() {
    let node = byte_node(4, "TEST/data/items/element");
    let bindings = vec![
        default_binding("TEST/data/items/element"),
        default_binding("TEST/data/flag"),
        default_binding("TEST/data/items/element"),
    ];
    let bump = |_: &CallbackBinding, current: &FieldValue, indices: &Vec<usize>| {
        assert_eq!(indices, &vec![2]);
        match current {
            FieldValue::UInt(v) => Ok(HandlerOutput::Value(OwnedFieldValue::UInt(v + 5))),
            _ => Ok(HandlerOutput::Nothing),
        }
    };
    let value = apply_default_value_callbacks(
        &node,
        OwnedFieldValue::UInt(0),
        &vec![2],
        &bindings,
        false,
        &registry(),
        &no_union,
        &narrow,
        &bump,
    )
    .unwrap();
    assert!(matches!(value, OwnedFieldValue::UInt(10)));

    let keep_it = |_: &CallbackBinding, _: &FieldValue, _: &Vec<usize>| Ok(HandlerOutput::Nothing);
    let value = apply_default_value_callbacks(
        &node,
        OwnedFieldValue::UInt(3),
        &vec![],
        &bindings,
        false,
        &registry(),
        &no_union,
        &narrow,
        &keep_it,
    )
    .unwrap();
    assert!(matches!(value, OwnedFieldValue::UInt(3)));

    let invalid = |_: &CallbackBinding, _: &FieldValue, _: &Vec<usize>| Ok(HandlerOutput::Boolean(true));
    let error = apply_default_value_callbacks(
        &node,
        OwnedFieldValue::UInt(3),
        &vec![],
        &bindings,
        false,
        &registry(),
        &no_union,
        &narrow,
        &invalid,
    )
    .unwrap_err();
    assert!(matches!(
        error,
        SemanticError::Handler { ref handler, ref message }
            if handler == "value.set_default" && message == "default-value handler returned an invalid result"
    ));
}

#[test]
fn union_callback_picks_the_variant_of_a_fresh_value() {
    let node = byte_node(9, "TEST/choice");
    let bindings = vec![
        CallbackBinding {
            path: "TEST/choice".to_owned(),
            callback_id: "union.decide".to_owned(),
            implementation: CallbackImplementation::BuiltIn,
        },
    ];
    let two = |_: &CallbackBinding, value: &FieldValue| {
        assert!(matches!(value, FieldValue::Bytes(b) if b.is_empty()));
        Ok(HandlerOutput::Integer(2))
    };
    assert_eq!(default_union_callback_pick(&node, "union.decide", &bindings, &two).unwrap(), 2);
    let error = default_union_callback_pick(&node, "union.other", &bindings, &two).unwrap_err();
    assert!(matches!(
        error,
        SemanticError::Handler { ref handler, ref message }
            if handler == "union.other" && message == "union node TEST/choice has no callback binding"
    ));
    let text = |_: &CallbackBinding, _: &FieldValue| Ok(HandlerOutput::Text("2".to_owned()));
    let error = default_union_callback_pick(&node, "union.decide", &bindings, &text).unwrap_err();
    assert!(matches!(
        error,
        SemanticError::Handler { ref message, .. } if message == "default union selector returned a non-integer result"
    ));
}

fn variant(id: u32, width: u8) -> SchemaNode {
    node(
        id,
        &format!("TEST/value/variants/{id}"),
        SchemaNodeKind::Primitive {
            primitive: PrimitiveType::Integer {
                integer: IntegerType { width, signed: false, byte_order: ByteOrder::LittleEndian },
            },
        },
    )
}

#[test]
fn callback_union_encoding_dispatches_handler() {
    let union = node(
        20,
        "TEST/value",
        SchemaNodeKind::Union {
            selector: UnionSelector::Callback { callback_id: "union.select".to_owned() },
            variants: vec![variant(21, 1), variant(22, 2)],
        },
    );
    let bindings = vec![CallbackBinding {
        path: "TEST/value".to_owned(),
        callback_id: "union.select".to_owned(),
        implementation: CallbackImplementation::BuiltIn,
    }];
    let second = |_: &CallbackBinding, _: &FieldValue| Ok(HandlerOutput::Integer(1));
    let selector = |n: &SchemaNode, _: usize, bytes: &Vec<u8>| match &n.kind {
        SchemaNodeKind::Union { selector: UnionSelector::Callback { callback_id }, .. } => {
            select_by_callback(n, callback_id, bytes, &bindings, &second)
        },
        _ => Ok(None),
    };
    let encoded = encode_node(&union, &OwnedFieldValue::UInt(7), false, &registry(), &selector, &narrow).unwrap();
    assert_eq!(encoded, vec![7, 0]);

    let unbound = |n: &SchemaNode, _: usize, bytes: &Vec<u8>| select_by_callback(n, "union.other", bytes, &bindings, &second);
    let error = encode_node(&union, &OwnedFieldValue::UInt(7), false, &registry(), &unbound, &narrow).unwrap_err();
    assert!(matches!(
        error,
        SemanticError::Handler { ref handler, ref message }
            if handler == "union.other" && message == "union node TEST/value has no callback binding"
    ));
    let text = |_: &CallbackBinding, _: &FieldValue| Ok(HandlerOutput::Text("1".to_owned()));
    let wrong = |n: &SchemaNode, _: usize, bytes: &Vec<u8>| select_by_callback(n, "union.select", bytes, &bindings, &text);
    let error = encode_node(&union, &OwnedFieldValue::UInt(7), false, &registry(), &wrong, &narrow).unwrap_err();
    assert!(matches!(
        error,
        SemanticError::Handler { ref message, .. } if message == "union selector returned a non-integer result"
    ));
}

#[test]
fn union_encoding_uses_updated_sibling_fields() {
    let flags = byte_node(2, "TEST/data/0:Flags");
    let union = node(
        3,
        "TEST/data/1:Value",
        SchemaNodeKind::Union {
            selector: UnionSelector::Expression(Expression::Select {
                condition: Box::new(Expression::BitSet {
                    value: Box::new(Expression::Field { path: "TEST/data/0:Flags".to_owned() }),
                    bit: 0,
                }),
                if_true: Box::new(Expression::Int { value: 1 }),
                if_false: Box::new(Expression::Int { value: 0 }),
            }),
            variants: vec![variant(4, 1), variant(5, 2)],
        },
    );
    let data = node(1, "TEST/data", SchemaNodeKind::Struct { fields: vec![flags, union] });
    let value = OwnedFieldValue::Struct(vec![OwnedFieldValue::UInt(1), OwnedFieldValue::UInt(0x0203)]);
    // The selector evaluates bit 0 of the flags being encoded, not of the stored value.
    let mut stored = DecodedValues::new();
    stored.insert("TEST/data/0:Flags".to_owned(), 0, FieldValue::UInt(0));
    let selector = |_: &SchemaNode, _: usize, _: &Vec<u8>, values: &ExpressionValues| {
        Ok(Some(if values.get("TEST/data/0:Flags").unwrap_or(0) & 1 == 1 { 1 } else { 0 }))
    };
    let encoded = encode_node_with_fields(&data, &value, &stored, false, &registry(), &selector, &narrow).unwrap();
    assert_eq!(encoded, vec![1, 3, 2]);
}

#[test]
fn union_encoding_falls_back_to_stored_sibling_fields() {
    let union = node(
        3,
        "TEST/data/1:Value",
        SchemaNodeKind::Union {
            selector: UnionSelector::Expression(Expression::Field { path: "TEST/flags".to_owned() }),
            variants: vec![variant(4, 1), variant(5, 2)],
        },
    );
    let mut stored = DecodedValues::new();
    stored.insert("TEST/flags".to_owned(), 0, FieldValue::UInt(1));
    let selector = |_: &SchemaNode, _: usize, _: &Vec<u8>, values: &ExpressionValues| Ok(values.get("TEST/flags"));
    let encoded = encode_node_with_fields(&union, &OwnedFieldValue::UInt(7), &stored, false, &registry(), &selector, &narrow).unwrap();
    assert_eq!(encoded, vec![7, 0]);
    let empty = DecodedValues::new();
    let unmatched = encode_node_with_fields(&union, &OwnedFieldValue::UInt(7), &empty, false, &registry(), &selector, &narrow).unwrap_err();
    assert!(matches!(unmatched, SemanticError::Encode { ref message, .. } if message == "value does not match the selected union variant"));
}
