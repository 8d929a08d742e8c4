//! Schema node model: the parts of a record schema that encoding and layout logic read.
use vstd::prelude::*;

use crate::model::{SchemaNodeId, Signature};

verus! {

/// Byte order of a multi-byte scalar.
#[derive(Clone, Copy, Debug, PartialEq, Eq)]
pub enum ByteOrder {
    LittleEndian,
    BigEndian,
}

/// Layout of a fixed-width integer.
#[derive(Clone, Copy, Debug, PartialEq, Eq)]
pub struct IntegerType {
    /// Width in bytes.
    pub width: u8,
    /// Whether the integer is signed.
    pub signed: bool,
    /// Byte order of the stored integer.
    pub byte_order: ByteOrder,
}

/// Length prefix written in front of a string body.
#[derive(Clone, Copy, Debug, PartialEq, Eq)]
pub struct StringLengthPrefix {
    /// Width of the length integer in bytes.
    pub width: u8,
    /// Number of bytes reserved in front of the body; the length occupies the first `width`.
    pub offset: u32,
}

/// Layout and encoding of a string field.
#[derive(Debug)]
pub struct StringType {
    /// Text encoding name: `utf8`, `windows_1252` or `localized`.
    pub encoding: String,
    /// Whether the string is stored in a localized string table.
    pub localized: bool,
    /// Whether a zero byte follows the text.
    pub zero_terminated: bool,
    /// Exact stored length, padded with zeros.
    pub fixed_length: Option<u32>,
    /// Optional length prefix.
    pub length_prefix: Option<StringLengthPrefix>,
    /// Optional byte written after everything else.
    pub trailing_terminator: Option<u8>,
    /// Values of a string enumeration; empty when the string is free text.
    pub allowed_values: Vec<String>,
}

/// Scalar field types.
#[derive(Debug)]
pub enum PrimitiveType {
    Integer { integer: IntegerType },
    PackedUnsigned,
    Float { width: u8, byte_order: ByteOrder },
    String { string: StringType },
    Bytes { length: Option<u32> },
    Unused { length: u32 },
    FormId { targets: Vec<Signature> },
    Enumeration { integer: IntegerType, names: Vec<String> },
    Flags { integer: IntegerType, names: Vec<String> },
}

/// A schema expression over record data, evaluated to select unions and counts.
#[derive(Debug)]
pub enum Expression {
    Int { value: i64 },
    Bool { value: bool },
    ReadUnsigned { offset: u32, width: u8 },
    Field { path: String },
    FormVersion,
    Equal { left: Box<Expression>, right: Box<Expression> },
    NotEqual { left: Box<Expression>, right: Box<Expression> },
    LessThan { left: Box<Expression>, right: Box<Expression> },
    Add { left: Box<Expression>, right: Box<Expression> },
    Subtract { left: Box<Expression>, right: Box<Expression> },
    Multiply { left: Box<Expression>, right: Box<Expression> },
    Divide { left: Box<Expression>, right: Box<Expression> },
    BitSet { value: Box<Expression>, bit: u8 },
    Not { value: Box<Expression> },
    BitCount { value: Box<Expression> },
    IntegerLookup { value: Box<Expression>, table: Vec<(i64, i64)> },
    And { values: Vec<Expression> },
    Or { values: Vec<Expression> },
    Select { condition: Box<Expression>, if_true: Box<Expression>, if_false: Box<Expression> },
}

/// How a union chooses its variant.
#[derive(Debug)]
pub enum UnionSelector {
    /// An expression evaluated over the encoded variant.
    Expression(Expression),
    /// A registered callback.
    Callback { callback_id: String },
}

/// How the element count of an array is stored.
#[derive(Debug)]
pub enum ArrayCount {
    Fixed { count: u32 },
    Prefixed { integer: IntegerType, terminator: Option<u8> },
    PackedPrefixed { square: bool, terminator: Option<u8> },
    SquaredPrefixed { integer: IntegerType, terminator: Option<u8> },
    Expression { expression: Expression },
    Callback { callback_id: String },
    Remainder,
}

/// One node of a record schema.
#[derive(Debug)]
pub struct SchemaNode {
    /// Node identifier.
    pub id: SchemaNodeId,
    /// Stable schema path.
    pub path: String,
    /// Display name.
    pub name: String,
    /// Whether the node must be present.
    pub required: bool,
    /// Condition under which the node is present.
    pub condition: Option<Expression>,
    /// Node shape.
    pub kind: SchemaNodeKind,
}

/// Shape of a schema node.
#[derive(Debug)]
pub enum SchemaNodeKind {
    Primitive { primitive: PrimitiveType },
    Struct { fields: Vec<SchemaNode> },
    Array { element: Box<SchemaNode>, count: ArrayCount },
    Union { selector: UnionSelector, variants: Vec<SchemaNode> },
    Subrecord { signature: Signature, payload: Box<SchemaNode> },
    Sequence { children: Vec<SchemaNode> },
    Choice { alternatives: Vec<SchemaNode> },
    SelectedChoice { alternatives: Vec<SchemaNode>, selector: UnionSelector },
    Repeat { child: Box<SchemaNode>, minimum: u32, maximum: Option<u32> },
    Compressed { child: Box<SchemaNode> },
    Terminated { terminator: u8, child: Box<SchemaNode> },
    Custom { decoder: String, minimum_version: u32 },
}

} // verus!
