//! Decoded and owned semantic values, value formats and the library's error type.
use vstd::prelude::*;
use vstd::string::*;

use crate::model::{FormId, SchemaNodeId, Signature};
use crate::text::{decimal, push_decimal};

verus! {

/// Byte range of a decoded value inside its subrecord payload.
#[derive(Clone, Copy, Debug, PartialEq, Eq)]
pub struct ByteSpan {
    /// First byte of the value.
    pub start: usize,
    /// One past the last byte of the value.
    pub end: usize,
}

/// A decoded semantic value.
///
/// Floating-point values are carried as their IEEE-754 binary64 bit pattern.
#[derive(Debug)]
pub enum FieldValue {
    Int(i64),
    UInt(u64),
    Float(u64),
    String(String),
    FormId { value: FormId, targets: Vec<Signature> },
    Enumeration { value: i64, name: Option<String> },
    Flags { value: u64, names: Vec<String> },
    Bytes(Vec<u8>),
    Struct(Vec<NamedValue>),
    Array(Vec<FieldValue>),
    Absent,
}

/// One named member of a decoded struct value.
#[derive(Debug)]
pub struct NamedValue {
    /// Schema node that produced the member.
    pub node_id: SchemaNodeId,
    /// Stable schema path of the member.
    pub path: String,
    /// Effective path of a selected union variant, if any.
    pub effective_path: Option<String>,
    /// Display name of the member.
    pub name: String,
    /// Byte range inside the containing payload.
    pub span: ByteSpan,
    /// Decoded member value.
    pub value: FieldValue,
}

/// An owned value supplied for encoding.
///
/// Floating-point values are carried as their IEEE-754 binary64 bit pattern.
#[derive(Debug)]
pub enum OwnedFieldValue {
    Int(i64),
    UInt(u64),
    Float(u64),
    String(String),
    FormId(FormId),
    Bytes(Vec<u8>),
    Struct(Vec<OwnedFieldValue>),
    Array(Vec<OwnedFieldValue>),
    Absent,
}

/// Errors reported by semantic operations.
#[derive(Debug)]
pub enum SemanticError {
    MissingDecoder(String),
    Decoder { decoder: String, message: String },
    MissingHandler(String),
    Handler { handler: String, message: String },
    MissingPath(String),
    MissingRecordSchema(String),
    MissingOccurrence { path: String, occurrence: usize },
    Encode { path: String, message: String },
}

/// Mathematical view of a decoded value.
pub enum SpecFieldValue {
    Int(i64),
    UInt(u64),
    Float(u64),
    String(Seq<char>),
    FormId { value: FormId, targets: Seq<Signature> },
    Enumeration { value: i64, name: Option<Seq<char>> },
    Flags { value: u64, names: Seq<Seq<char>> },
    Bytes(Seq<u8>),
    Struct(Seq<SpecNamedValue>),
    Array(Seq<SpecFieldValue>),
    Absent,
}

/// Mathematical view of a named struct member.
pub struct SpecNamedValue {
    pub node_id: SchemaNodeId,
    pub path: Seq<char>,
    pub effective_path: Option<Seq<char>>,
    pub name: Seq<char>,
    pub span: ByteSpan,
    pub value: SpecFieldValue,
}

/// Mathematical view of an owned value.
pub enum SpecOwnedValue {
    Int(i64),
    UInt(u64),
    Float(u64),
    String(Seq<char>),
    FormId(FormId),
    Bytes(Seq<u8>),
    Struct(Seq<SpecOwnedValue>),
    Array(Seq<SpecOwnedValue>),
    Absent,
}

/// View of an optional string.
pub open spec fn opt_text(s: Option<String>) -> Option<Seq<char>> {
    match s {
        Some(t) => Some(t@),
        None => None,
    }
}

/// View of a list of strings.
pub open spec fn texts(v: Seq<String>) -> Seq<Seq<char>> {
    v.map_values(|t: String| t@)
}

/// Deep view of a decoded value.
pub open spec fn field_value_view(v: FieldValue) -> SpecFieldValue
    decreases v,
{
    match v {
        FieldValue::Int(x) => SpecFieldValue::Int(x),
        FieldValue::UInt(x) => SpecFieldValue::UInt(x),
        FieldValue::Float(x) => SpecFieldValue::Float(x),
        FieldValue::String(t) => SpecFieldValue::String(t@),
        FieldValue::FormId { value, targets } => SpecFieldValue::FormId { value, targets: targets@ },
        FieldValue::Enumeration { value, name } => SpecFieldValue::Enumeration {
            value,
            name: opt_text(name),
        },
        FieldValue::Flags { value, names } => SpecFieldValue::Flags { value, names: texts(names@) },
        FieldValue::Bytes(b) => SpecFieldValue::Bytes(b@),
        FieldValue::Struct(fields) => SpecFieldValue::Struct(
            Seq::new(
                fields@.len(),
                |i: int|
                    if 0 <= i < fields@.len() {
                        SpecNamedValue {
                            node_id: fields@[i].node_id,
                            path: fields@[i].path@,
                            effective_path: opt_text(fields@[i].effective_path),
                            name: fields@[i].name@,
                            span: fields@[i].span,
                            value: field_value_view(fields@[i].value),
                        }
                    } else {
                        SpecNamedValue {
                            node_id: SchemaNodeId(0),
                            path: Seq::empty(),
                            effective_path: None,
                            name: Seq::empty(),
                            span: ByteSpan { start: 0, end: 0 },
                            value: SpecFieldValue::Absent,
                        }
                    },
            ),
        ),
        FieldValue::Array(items) => SpecFieldValue::Array(
            Seq::new(
                items@.len(),
                |i: int|
                    if 0 <= i < items@.len() {
                        field_value_view(items@[i])
                    } else {
                        SpecFieldValue::Absent
                    },
            ),
        ),
        FieldValue::Absent => SpecFieldValue::Absent,
    }
}

/// Deep view of an owned value.
pub open spec fn owned_value_view(v: OwnedFieldValue) -> SpecOwnedValue
    decreases v,
{
    match v {
        OwnedFieldValue::Int(x) => SpecOwnedValue::Int(x),
        OwnedFieldValue::UInt(x) => SpecOwnedValue::UInt(x),
        OwnedFieldValue::Float(x) => SpecOwnedValue::Float(x),
        OwnedFieldValue::String(t) => SpecOwnedValue::String(t@),
        OwnedFieldValue::FormId(f) => SpecOwnedValue::FormId(f),
        OwnedFieldValue::Bytes(b) => SpecOwnedValue::Bytes(b@),
        OwnedFieldValue::Struct(items) => SpecOwnedValue::Struct(
            Seq::new(
                items@.len(),
                |i: int|
                    if 0 <= i < items@.len() {
                        owned_value_view(items@[i])
                    } else {
                        SpecOwnedValue::Absent
                    },
            ),
        ),
        OwnedFieldValue::Array(items) => SpecOwnedValue::Array(
            Seq::new(
                items@.len(),
                |i: int|
                    if 0 <= i < items@.len() {
                        owned_value_view(items@[i])
                    } else {
                        SpecOwnedValue::Absent
                    },
            ),
        ),
        OwnedFieldValue::Absent => SpecOwnedValue::Absent,
    }
}

impl View for FieldValue {
    type V = SpecFieldValue;

    open spec fn view(&self) -> SpecFieldValue {
        field_value_view(*self)
    }
}

impl View for NamedValue {
    type V = SpecNamedValue;

    open spec fn view(&self) -> SpecNamedValue {
        SpecNamedValue {
            node_id: self.node_id,
            path: self.path@,
            effective_path: opt_text(self.effective_path),
            name: self.name@,
            span: self.span,
            value: self.value@,
        }
    }
}

impl View for OwnedFieldValue {
    type V = SpecOwnedValue;

    open spec fn view(&self) -> SpecOwnedValue {
        owned_value_view(*self)
    }
}

/// Presentation mode requested from a value formatter.
#[derive(Clone, Copy, Debug, PartialEq, Eq)]
pub enum ValueFormat {
    Display,
    Summary,
    SortKey,
    EditValue,
    NativeValue,
}

fn clone_strings(v: &Vec<String>) -> (res: Vec<String>)
    ensures
        texts(res@) == texts(v@),
{
    let mut out: Vec<String> = Vec::new();
    let mut i: usize = 0;
    while i < v.len()
        invariant
            i <= v.len(),
            out@.len() == i,
            forall|j: int| 0 <= j < i ==> (#[trigger] out@[j])@ == v@[j]@,
        decreases v.len() - i,
    {
        out.push(v[i].clone());
        i += 1;
    }
    assert(texts(out@) =~= texts(v@));
    out
}

fn clone_bytes(v: &Vec<u8>) -> (res: Vec<u8>)
    ensures
        res@ == v@,
{
    let out = v.clone();
    assert(out@ =~= v@);
    out
}

fn clone_opt_text(s: &Option<String>) -> (res: Option<String>)
    ensures
        opt_text(res) == opt_text(*s),
{
    match s {
        Some(t) => Some(t.clone()),
        None => None,
    }
}

impl Clone for NamedValue {
    fn clone(&self) -> (res: Self)
        ensures
            res@ == self@,
    {
        NamedValue {
            node_id: self.node_id,
            path: self.path.clone(),
            effective_path: clone_opt_text(&self.effective_path),
            name: self.name.clone(),
            span: self.span,
            value: self.value.clone(),
        }
    }
}

impl Clone for FieldValue {
    #[verifier::loop_isolation(false)]
    fn clone(&self) -> (res: Self)
        ensures
            res@ == self@,
        decreases self,
    {
        match self {
            FieldValue::Int(v) => FieldValue::Int(*v),
            FieldValue::UInt(v) => FieldValue::UInt(*v),
            FieldValue::Float(v) => FieldValue::Float(*v),
            FieldValue::String(v) => FieldValue::String(v.clone()),
            FieldValue::FormId { value, targets } => {
                let t = targets.clone();
                assert(t@ =~= targets@);
                FieldValue::FormId { value: *value, targets: t }
            },
            FieldValue::Enumeration { value, name } => FieldValue::Enumeration {
                value: *value,
                name: clone_opt_text(name),
            },
            FieldValue::Flags { value, names } => FieldValue::Flags {
                value: *value,
                names: clone_strings(names),
            },
            FieldValue::Bytes(v) => FieldValue::Bytes(clone_bytes(v)),
            FieldValue::Struct(fields) => {
                let mut out: Vec<NamedValue> = Vec::new();
                let mut i: usize = 0;
                while i < fields.len()
                    invariant
                        i <= fields.len(),
                        out@.len() == i,
                        forall|j: int| 0 <= j < i ==> (#[trigger] out@[j])@ == fields@[j]@,
                    decreases fields.len() - i,
                {
                    let f = &fields[i];
                    assert(decreases_to!(*self => f.value));
                    let v = f.value.clone();
                    out.push(
                        NamedValue {
                            node_id: f.node_id,
                            path: f.path.clone(),
                            effective_path: clone_opt_text(&f.effective_path),
                            name: f.name.clone(),
                            span: f.span,
                            value: v,
                        },
                    );
                    i += 1;
                }
                let res = FieldValue::Struct(out);
                assert(res@ matches SpecFieldValue::Struct(a) && self@ matches SpecFieldValue::Struct(b)
                    && a =~= b);
                res
            },
            FieldValue::Array(items) => {
                let mut out: Vec<FieldValue> = Vec::new();
                let mut i: usize = 0;
                while i < items.len()
                    invariant
                        i <= items.len(),
                        out@.len() == i,
                        forall|j: int| 0 <= j < i ==> (#[trigger] out@[j])@ == items@[j]@,
                    decreases items.len() - i,
                {
                    assert(decreases_to!(*self => items@[i as int]));
                    out.push(items[i].clone());
                    i += 1;
                }
                let res = FieldValue::Array(out);
                assert(res@ matches SpecFieldValue::Array(a) && self@ matches SpecFieldValue::Array(b)
                    && a =~= b);
                res
            },
            FieldValue::Absent => FieldValue::Absent,
        }
    }
}

impl Clone for OwnedFieldValue {
    fn clone(&self) -> (res: Self)
        ensures
            res@ == self@,
        decreases self,
    {
        match self {
            OwnedFieldValue::Int(v) => OwnedFieldValue::Int(*v),
            OwnedFieldValue::UInt(v) => OwnedFieldValue::UInt(*v),
            OwnedFieldValue::Float(v) => OwnedFieldValue::Float(*v),
            OwnedFieldValue::String(v) => OwnedFieldValue::String(v.clone()),
            OwnedFieldValue::FormId(v) => OwnedFieldValue::FormId(*v),
            OwnedFieldValue::Bytes(v) => OwnedFieldValue::Bytes(clone_bytes(v)),
            OwnedFieldValue::Struct(items) => {
                let out = clone_owned_items(self, items);
                let res = OwnedFieldValue::Struct(out);
                assert(res@ matches SpecOwnedValue::Struct(a) && self@ matches SpecOwnedValue::Struct(b)
                    && a =~= b);
                res
            },
            OwnedFieldValue::Array(items) => {
                let out = clone_owned_items(self, items);
                let res = OwnedFieldValue::Array(out);
                assert(res@ matches SpecOwnedValue::Array(a) && self@ matches SpecOwnedValue::Array(b)
                    && a =~= b);
                res
            },
            OwnedFieldValue::Absent => OwnedFieldValue::Absent,
        }
    }
}

fn clone_owned_items(parent: &OwnedFieldValue, items: &Vec<OwnedFieldValue>) -> (res: Vec<
    OwnedFieldValue,
>)
    requires
        (parent matches OwnedFieldValue::Struct(v) && v == *items) || (
        parent matches OwnedFieldValue::Array(v) && v == *items),
    ensures
        res@.len() == items@.len(),
        forall|j: int| 0 <= j < items@.len() ==> (#[trigger] res@[j])@ == items@[j]@,
    decreases parent, 0nat,
{
    let mut out: Vec<OwnedFieldValue> = Vec::new();
    let mut i: usize = 0;
    while i < items.len()
        invariant
            i <= items.len(),
            out@.len() == i,
            forall|j: int| 0 <= j < i ==> (#[trigger] out@[j])@ == items@[j]@,
            (parent matches OwnedFieldValue::Struct(v) && v == *items) || (
            parent matches OwnedFieldValue::Array(v) && v == *items),
        decreases items.len() - i,
    {
        assert(decreases_to!(*parent => items@[i as int]));
        out.push(items[i].clone());
        i += 1;
    }
    out
}

/// Readable text of an error.
pub open spec fn error_text(e: SemanticError) -> Seq<char> {
    match e {
        SemanticError::MissingDecoder(id) => "missing custom decoder "@ + id@,
        SemanticError::Decoder { decoder, message } => "custom decoder "@ + decoder@ + " failed: "@
            + message@,
        SemanticError::MissingHandler(id) => "missing semantic handler "@ + id@,
        SemanticError::Handler { handler, message } => "semantic handler "@ + handler@
            + " failed: "@ + message@,
        SemanticError::MissingPath(path) => "schema path not found: "@ + path@,
        SemanticError::MissingRecordSchema(signature) => "record schema not found: "@
            + signature@,
        SemanticError::MissingOccurrence { path, occurrence } => "occurrence "@ + decimal(
            occurrence as nat,
        ) + " of "@ + path@ + " not found"@,
        SemanticError::Encode { path, message } => "cannot encode "@ + path@ + ": "@ + message@,
    }
}

impl SemanticError {
    /// Readable text of the error.
    pub fn text(&self) -> (res: String)
        ensures
            res@ == error_text(*self),
    {
        match self {
            SemanticError::MissingDecoder(id) => {
                let mut out = String::from_str("missing custom decoder ");
                out.append(id.as_str());
                out
            },
            SemanticError::Decoder { decoder, message } => {
                let mut out = String::from_str("custom decoder ");
                out.append(decoder.as_str());
                out.append(" failed: ");
                out.append(message.as_str());
                out
            },
            SemanticError::MissingHandler(id) => {
                let mut out = String::from_str("missing semantic handler ");
                out.append(id.as_str());
                out
            },
            SemanticError::Handler { handler, message } => {
                let mut out = String::from_str("semantic handler ");
                out.append(handler.as_str());
                out.append(" failed: ");
                out.append(message.as_str());
                out
            },
            SemanticError::MissingPath(path) => {
                let mut out = String::from_str("schema path not found: ");
                out.append(path.as_str());
                out
            },
            SemanticError::MissingRecordSchema(signature) => {
                let mut out = String::from_str("record schema not found: ");
                out.append(signature.as_str());
                out
            },
            SemanticError::MissingOccurrence { path, occurrence } => {
                let mut out = String::from_str("occurrence ");
                push_decimal(&mut out, *occurrence as u64);
                out.append(" of ");
                out.append(path.as_str());
                out.append(" not found");
                out
            },
            SemanticError::Encode { path, message } => {
                let mut out = String::from_str("cannot encode ");
                out.append(path.as_str());
                out.append(": ");
                out.append(message.as_str());
                out
            },
        }
    }
}

/// The owned form of a decoded value: enumerations and flags keep their integers, a
/// FormID its identifier, and struct members and array items their own owned forms.
pub open spec fn owned_form(v: SpecFieldValue) -> SpecOwnedValue
    decreases v,
{
    match v {
        SpecFieldValue::Int(x) => SpecOwnedValue::Int(x),
        SpecFieldValue::UInt(x) => SpecOwnedValue::UInt(x),
        SpecFieldValue::Float(x) => SpecOwnedValue::Float(x),
        SpecFieldValue::String(t) => SpecOwnedValue::String(t),
        SpecFieldValue::FormId { value, .. } => SpecOwnedValue::FormId(value),
        SpecFieldValue::Enumeration { value, .. } => SpecOwnedValue::Int(value),
        SpecFieldValue::Flags { value, .. } => SpecOwnedValue::UInt(value),
        SpecFieldValue::Bytes(b) => SpecOwnedValue::Bytes(b),
        SpecFieldValue::Struct(members) => SpecOwnedValue::Struct(
            Seq::new(
                members.len(),
                |i: int|
                    if 0 <= i < members.len() {
                        owned_form(members[i].value)
                    } else {
                        SpecOwnedValue::Absent
                    },
            ),
        ),
        SpecFieldValue::Array(items) => SpecOwnedValue::Array(
            Seq::new(
                items.len(),
                |i: int|
                    if 0 <= i < items.len() {
                        owned_form(items[i])
                    } else {
                        SpecOwnedValue::Absent
                    },
            ),
        ),
        SpecFieldValue::Absent => SpecOwnedValue::Absent,
    }
}

/// The owned form of a decoded value (see [`owned_form`]).
#[verifier::loop_isolation(false)]
pub fn owned_from_decoded(value: &FieldValue) -> (res: OwnedFieldValue)
    ensures
        res@ == owned_form(value@),
    decreases value,
{
    match value {
        FieldValue::Int(v) => OwnedFieldValue::Int(*v),
        FieldValue::UInt(v) => OwnedFieldValue::UInt(*v),
        FieldValue::Float(v) => OwnedFieldValue::Float(*v),
        FieldValue::String(t) => OwnedFieldValue::String(t.clone()),
        FieldValue::FormId { value, .. } => OwnedFieldValue::FormId(*value),
        FieldValue::Enumeration { value, .. } => OwnedFieldValue::Int(*value),
        FieldValue::Flags { value, .. } => OwnedFieldValue::UInt(*value),
        FieldValue::Bytes(b) => OwnedFieldValue::Bytes(clone_bytes(b)),
        FieldValue::Struct(members) => {
            let mut out: Vec<OwnedFieldValue> = Vec::new();
            let mut i: usize = 0;
            while i < members.len()
                invariant
                    i <= members@.len(),
                    out@.len() == i,
                    forall|j: int| 0 <= j < i ==> (#[trigger] out@[j])@ == owned_form(members@[j].value@),
                decreases members.len() - i,
            {
                assert(decreases_to!(*value => members@[i as int].value));
                out.push(owned_from_decoded(&members[i].value));
                i += 1;
            }
            let res = OwnedFieldValue::Struct(out);
            assert(res@ matches SpecOwnedValue::Struct(a) && owned_form(value@) matches SpecOwnedValue::Struct(b)
                && a =~= b);
            res
        },
        FieldValue::Array(items) => {
            let mut out: Vec<OwnedFieldValue> = Vec::new();
            let mut i: usize = 0;
            while i < items.len()
                invariant
                    i <= items@.len(),
                    out@.len() == i,
                    forall|j: int| 0 <= j < i ==> (#[trigger] out@[j])@ == owned_form(items@[j]@),
                decreases items.len() - i,
            {
                assert(decreases_to!(*value => items@[i as int]));
                out.push(owned_from_decoded(&items[i]));
                i += 1;
            }
            let res = OwnedFieldValue::Array(out);
            assert(res@ matches SpecOwnedValue::Array(a) && owned_form(value@) matches SpecOwnedValue::Array(b)
                && a =~= b);
            res
        },
        FieldValue::Absent => OwnedFieldValue::Absent,
    }
}

} // verus!
