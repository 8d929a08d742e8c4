use bethkit_semantic::convert::owned_to_handler_value;
use bethkit_semantic::decoder::{DecoderRegistry, ZeroWidthIntegerDecoder};
use bethkit_semantic::encode::select_union_variant;
use bethkit_semantic::model::{FormId, SchemaNodeId, Signature};
use bethkit_semantic::schema::{
    ByteOrder, Expression, IntegerType, PrimitiveType, SchemaNode, SchemaNodeKind, UnionSelector,
};
use bethkit_semantic::value::{FieldValue, OwnedFieldValue, SemanticError};

fn narrow(bits: u64) -> u32 {
    (f64::from_bits(bits) as f32).to_bits()
}

fn registry() -> DecoderRegistry<ZeroWidthIntegerDecoder> {
    DecoderRegistry::builtin()
}

fn node(id: u32, path: &str, kind: SchemaNodeKind) -> SchemaNode {
    SchemaNode {
        id: SchemaNodeId(id),
        path: path.to_owned(),
        name: format!("name of {path}"),
        required: true,
        condition: None,
        kind,
    }
}

fn int_node(id: u32, path: &str, width: u8) -> SchemaNode {
    node(
        id,
        path,
        SchemaNodeKind::Primitive {
            primitive: PrimitiveType::Integer {
                integer: IntegerType { width, signed: false, byte_order: ByteOrder::LittleEndian },
            },
        },
    )
}

/// A union of a one-byte and a two-byte integer; the selector answers with the number of
/// encoded bytes minus one, so each variant picks itself when it encodes the value.
fn sized_union() -> SchemaNode {
    node(
        1,
        "R/U",
        SchemaNodeKind::Union {
            selector: UnionSelector::Expression(Expression::Int { value: 0 }),
            variants: vec![int_node(2, "R/U/byte", 1), int_node(3, "R/U/word", 2)],
        },
    )
}

fn by_size(_: &SchemaNode, _: usize, bytes: &Vec<u8>) -> Result<Option<i64>, SemanticError> {
    Ok(Some(bytes.len() as i64 - 1))
}

#[test]
fn union_selection_returns_the_picked_variant_and_its_bytes() {
    let (index, bytes) =
        select_union_variant(&sized_union(), &OwnedFieldValue::UInt(7), false, &registry(), &by_size, &narrow)
            .unwrap();
    assert_eq!(index, 0);
    assert_eq!(bytes, vec![7]);
    let (index, bytes) = select_union_variant(
        &sized_union(),
        &OwnedFieldValue::UInt(0x1234),
        false,
        &registry(),
        &by_size,
        &narrow,
    )
    .unwrap();
    assert_eq!(index, 1);
    assert_eq!(bytes, vec![0x34, 0x12]);
}

#[test]
fn union_selection_fails_when_no_variant_is_picked() {
    let never = |_: &SchemaNode, _: usize, _: &Vec<u8>| -> Result<Option<i64>, SemanticError> { Ok(Some(9)) };
    match select_union_variant(&sized_union(), &OwnedFieldValue::UInt(7), false, &registry(), &never, &narrow) {
        Err(SemanticError::Encode { path, message }) => {
            assert_eq!(path, "R/U");
            assert_eq!(message, "value does not match the selected union variant");
        }
        _ => panic!("no variant is picked"),
    }
}

#[test]
fn struct_members_take_their_schema_identity() {
    let schema = node(
        10,
        "R/S",
        SchemaNodeKind::Struct { fields: vec![int_node(11, "R/S/a", 1), sized_union()] },
    );
    let value = OwnedFieldValue::Struct(vec![OwnedFieldValue::UInt(1), OwnedFieldValue::UInt(0x1234)]);
    match owned_to_handler_value(&schema, &value, false, &registry(), &by_size, &narrow).unwrap() {
        FieldValue::Struct(members) => {
            assert_eq!(members.len(), 2);
            assert_eq!(members[0].node_id, SchemaNodeId(11));
            assert_eq!(members[0].path, "R/S/a");
            assert_eq!(members[0].name, "name of R/S/a");
            assert!(matches!(members[0].value, FieldValue::UInt(1)));
            assert_eq!(members[1].path, "R/U");
            assert!(matches!(members[1].value, FieldValue::UInt(0x1234)));
        }
        _ => panic!("a struct converts to a struct"),
    }
    match owned_to_handler_value(&schema, &OwnedFieldValue::Struct(Vec::new()), false, &registry(), &by_size, &narrow) {
        Err(SemanticError::Encode { message, .. }) => assert_eq!(message, "struct expects 2 fields, got 0"),
        _ => panic!("a struct with no members is rejected"),
    }
}

#[test]
fn wrapped_and_leaf_values_keep_their_shape() {
    let subrecord = node(
        20,
        "R/DATA",
        SchemaNodeKind::Subrecord {
            signature: Signature(*b"DATA"),
            payload: Box::new(node(
                21,
                "R/DATA/items",
                SchemaNodeKind::Array {
                    element: Box::new(int_node(22, "R/DATA/items/item", 4)),
                    count: bethkit_semantic::schema::ArrayCount::Remainder,
                },
            )),
        },
    );
    let value = OwnedFieldValue::Array(vec![OwnedFieldValue::FormId(FormId(5)), OwnedFieldValue::UInt(6)]);
    match owned_to_handler_value(&subrecord, &value, false, &registry(), &by_size, &narrow).unwrap() {
        FieldValue::Array(items) => {
            assert!(matches!(items[0], FieldValue::FormId { value: FormId(5), .. }));
            assert!(matches!(items[1], FieldValue::UInt(6)));
        }
        _ => panic!("an array converts to an array"),
    }
}
