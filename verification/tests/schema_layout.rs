use bethkit_semantic::editor_union::{forward_read_value, has_forward_reads, union_expression};
use bethkit_semantic::expression::{
    collect_expression_field_values, collect_owned_expression_field_values, ExpressionValues,
};
use bethkit_semantic::layout::{fixed_offset, fixed_size, integer_at};
use bethkit_semantic::model::{FormId, SchemaNodeId, Signature};
use bethkit_semantic::schema::{
    ByteOrder, Expression, IntegerType, PrimitiveType, SchemaNode, SchemaNodeKind, UnionSelector,
};
use bethkit_semantic::tree::{
    find_containing_subrecord, find_node_by_path, path_is_within, top_level_subrecords,
};
use bethkit_semantic::value::{ByteSpan, FieldValue, NamedValue, OwnedFieldValue};

fn node(id: u32, path: &str, kind: SchemaNodeKind) -> SchemaNode {
    SchemaNode {
        id: SchemaNodeId(id),
        path: path.to_owned(),
        name: path.to_owned(),
        required: true,
        condition: None,
        kind,
    }
}

fn int_node(id: u32, path: &str, width: u8) -> SchemaNode {
    node(
        id,
        path,
        SchemaNodeKind::Primitive {
            primitive: PrimitiveType::Integer {
                integer: IntegerType { width, signed: false, byte_order: ByteOrder::LittleEndian },
            },
        },
    )
}

/// A record with one `DATA` subrecord: a one-byte union `R/DATA/U` followed by a
/// one-byte integer `R/DATA/B` and a two-byte integer `R/DATA/C`.
fn record_schema() -> SchemaNode {
    let union = node(
        3,
        "R/DATA/U",
        SchemaNodeKind::Union {
            selector: UnionSelector::Expression(Expression::Int { value: 0 }),
            variants: vec![int_node(4, "R/DATA/U/a", 1), int_node(5, "R/DATA/U/b", 1)],
        },
    );
    let payload = node(
        2,
        "R/DATA/payload",
        SchemaNodeKind::Struct {
            fields: vec![union, int_node(6, "R/DATA/B", 1), int_node(7, "R/DATA/C", 2)],
        },
    );
    let data = node(
        1,
        "R/DATA",
        SchemaNodeKind::Subrecord { signature: Signature(*b"DATA"), payload: Box::new(payload) },
    );
    let name = node(
        8,
        "R/NAME",
        SchemaNodeKind::Subrecord {
            signature: Signature(*b"NAME"),
            payload: Box::new(int_node(9, "R/NAME/value", 4)),
        },
    );
    node(0, "R", SchemaNodeKind::Sequence { children: vec![data, name] })
}

#[test]
fn fixed_layouts_give_sizes_and_offsets() {
    let root = record_schema();
    let data = find_node_by_path(&root, "R/DATA").expect("DATA is in the schema");
    let payload = match &data.kind {
        SchemaNodeKind::Subrecord { payload, .. } => payload,
        _ => panic!("DATA is a subrecord"),
    };
    assert_eq!(fixed_size(payload), Some(4));
    assert_eq!(fixed_offset(payload, "R/DATA/U"), Some(0));
    assert_eq!(fixed_offset(payload, "R/DATA/C"), Some(2));
    assert_eq!(fixed_offset(payload, "R/DATA/missing"), None);
    assert_eq!(integer_at(payload, 2, 2).map(|n| n.path.as_str()), Some("R/DATA/C"));
    assert!(integer_at(payload, 2, 1).is_none());
    assert_eq!(fixed_size(&root), None);
}

#[test]
fn schema_trees_are_searched_by_path() {
    let root = record_schema();
    assert_eq!(find_node_by_path(&root, "R/NAME/value").map(|n| n.id), Some(SchemaNodeId(9)));
    assert!(find_node_by_path(&root, "R/OTHER").is_none());
    let parent = find_containing_subrecord(&root, "R/DATA/C").expect("C lies in DATA");
    assert_eq!(parent.path, "R/DATA");
    let subrecords: Vec<&str> = top_level_subrecords(&root).iter().map(|n| n.path.as_str()).collect();
    assert_eq!(subrecords, vec!["R/DATA", "R/NAME"]);
}

#[test]
fn paths_lie_within_their_parents() {
    assert!(path_is_within("R/DATA", "R/DATA"));
    assert!(path_is_within("R/DATA/C", "R/DATA"));
    assert!(!path_is_within("R/DATAX", "R/DATA"));
    assert!(!path_is_within("R", "R/DATA"));
}

#[test]
fn forward_reads_take_current_sibling_values() {
    let root = record_schema();
    let union = find_node_by_path(&root, "R/DATA/U").expect("the union is in the schema");
    let mut values = ExpressionValues::new();
    values.insert("R/DATA/B", 0x1ff);
    let expression = Expression::Equal {
        left: Box::new(Expression::ReadUnsigned { offset: 1, width: 1 }),
        right: Box::new(Expression::Int { value: 0xff }),
    };
    assert!(has_forward_reads(&expression, 1));
    assert!(!has_forward_reads(&expression, 2));
    match union_expression(&root, union, &expression, 1, &values) {
        Expression::Equal { left, right } => {
            assert!(matches!(*left, Expression::Int { value: 0xff }));
            assert!(matches!(*right, Expression::Int { value: 0xff }));
        }
        other => panic!("unexpected expression {other:?}"),
    }
    match union_expression(&root, union, &expression, 2, &values) {
        Expression::Equal { left, .. } => {
            assert!(matches!(*left, Expression::ReadUnsigned { offset: 1, width: 1 }))
        }
        other => panic!("unexpected expression {other:?}"),
    }
}

#[test]
fn forward_reads_without_a_value_stay_unresolved() {
    let root = record_schema();
    let data = find_node_by_path(&root, "R/DATA").expect("DATA is in the schema");
    let payload = match &data.kind {
        SchemaNodeKind::Subrecord { payload, .. } => payload,
        _ => panic!("DATA is a subrecord"),
    };
    let values = ExpressionValues::new();
    assert_eq!(forward_read_value(payload, 0, 1, &values, 2, 2), None);
    let mut values = ExpressionValues::new();
    values.insert("R/DATA/C", -1);
    assert_eq!(forward_read_value(payload, 0, 1, &values, 2, 2), Some(0xffff));
    assert_eq!(forward_read_value(payload, 0, 4, &values, 2, 2), None);
}

#[test]
fn expression_values_collect_integer_fields() {
    let mut values = ExpressionValues::new();
    let decoded = FieldValue::Struct(vec![
        NamedValue {
            node_id: SchemaNodeId(1),
            path: "R/DATA/A".to_owned(),
            effective_path: None,
            name: "A".to_owned(),
            span: ByteSpan { start: 0, end: 1 },
            value: FieldValue::UInt(u64::MAX),
        },
        NamedValue {
            node_id: SchemaNodeId(2),
            path: "R/DATA/B".to_owned(),
            effective_path: None,
            name: "B".to_owned(),
            span: ByteSpan { start: 1, end: 2 },
            value: FieldValue::Array(vec![FieldValue::Int(1), FieldValue::Int(2)]),
        },
    ]);
    collect_expression_field_values("R/DATA", &decoded, &mut values);
    assert_eq!(values.get("R/DATA/A"), None);
    assert_eq!(values.get("R/DATA/B"), Some(2));
}

#[test]
fn owned_values_supply_expression_fields() {
    let root = record_schema();
    let data = find_node_by_path(&root, "R/DATA").expect("DATA is in the schema");
    let mut values = ExpressionValues::new();
    collect_owned_expression_field_values(
        data,
        &OwnedFieldValue::Struct(vec![
            OwnedFieldValue::UInt(3),
            OwnedFieldValue::Int(-4),
            OwnedFieldValue::FormId(FormId(5)),
        ]),
        &mut values,
    );
    assert_eq!(values.get("R/DATA/U/a"), Some(3));
    assert_eq!(values.get("R/DATA/U/b"), Some(3));
    assert_eq!(values.get("R/DATA/B"), Some(-4));
    assert_eq!(values.get("R/DATA/C"), Some(5));
}
