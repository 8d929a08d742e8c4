//! Structural addresses derived from grammar matches and decoded value trees.
use vstd::prelude::*;

use crate::bytes::{le_bytes, push_le};
use crate::external::{sha256_digest, spec_sha256};
use crate::model::{SchemaNodeId, Signature};
use crate::value::{ByteSpan, FieldValue, SpecFieldValue, SpecNamedValue};

verus! {

/// One locally numbered repetition of a grammar child.
#[derive(Debug)]
pub struct RepeatScope {
    /// Stable path of the repeated child, not its enclosing repeat node.
    pub path: String,
    /// Zero-based occurrence within its complete parent repeat stack.
    pub occurrence: u32,
}

/// One navigation step inside a decoded subrecord payload.
#[derive(Debug)]
pub enum ValueStep {
    /// Select a named packed-struct member with verified schema identity.
    Field {
        /// Zero-based member index in decoded declaration order.
        index: usize,
        /// Stable path expected at this index.
        path: String,
    },
    /// Select one item of an array.
    Index {
        /// Zero-based index in the containing array.
        index: usize,
    },
}

/// An exact address issued by a decoded snapshot.
///
/// Addresses contain no editable values. Structural edits invalidate addresses
/// through `structure_hash`; callers must obtain a new snapshot before editing
/// again. Scalar edits with unchanged layout keep their addresses valid.
#[derive(Debug)]
pub struct FieldAddress {
    /// SHA-256 of the schema package payload used to interpret this address.
    pub schema_payload_sha256: String,
    /// SHA-256 of the decoded record structure used to issue this address.
    pub structure_hash: String,
    /// Main-record signature as four literal bytes.
    pub record_signature: [u8; 4],
    /// File-local main-record FormID.
    pub form_id: u32,
    /// Exact subrecord index in the record payload.
    pub subrecord_index: usize,
    /// Stable schema path of the containing subrecord.
    pub subrecord_path: String,
    /// Complete outermost-to-innermost grammar repeat stack.
    pub repeat_scopes: Vec<RepeatScope>,
    /// Navigation inside the containing subrecord; empty selects its whole value.
    pub value_steps: Vec<ValueStep>,
}

/// One selected union occurrence inside a decoded field value.
#[derive(Debug)]
pub struct ValueSelection {
    /// Schema path of the union.
    pub schema_path: String,
    /// Indices of every enclosing array occurrence, outermost first.
    pub array_indices: Vec<usize>,
    /// Path of the selected variant.
    pub effective_path: String,
}

/// How a decoded field was matched.
#[derive(Clone, Copy, Debug, PartialEq, Eq)]
pub enum FieldOrigin {
    /// Matched by the record schema.
    Schema,
    /// Kept verbatim because no schema node matched it.
    Unmatched,
}

/// One decoded top-level field of a record.
#[derive(Debug)]
pub struct Field {
    /// Index of the subrecord in the record payload.
    pub subrecord_index: usize,
    /// Grammar repeat stack of the subrecord.
    pub repeat_scopes: Vec<RepeatScope>,
    /// Schema node that matched the subrecord.
    pub node_id: SchemaNodeId,
    /// Stable schema path.
    pub path: String,
    /// Effective path of a selected choice, if any.
    pub effective_path: Option<String>,
    /// Union selections made while decoding the value.
    pub value_selections: Vec<ValueSelection>,
    /// Display name.
    pub name: String,
    /// Subrecord signature.
    pub subrecord_signature: Signature,
    /// Occurrence of this path among the record's fields.
    pub occurrence: usize,
    /// Byte range of the payload.
    pub span: ByteSpan,
    /// How the field was matched.
    pub origin: FieldOrigin,
    /// Decoded value.
    pub value: FieldValue,
}

/// The lowercase hexadecimal digit for a nibble.
pub open spec fn hex_digit(n: int) -> char {
    if n < 10 {
        (n + 48) as char
    } else {
        (n + 87) as char
    }
}

/// Lowercase hexadecimal text of a byte sequence, two digits per byte, high nibble first.
pub open spec fn hex_lower(bytes: Seq<u8>) -> Seq<char> {
    Seq::new(
        2 * bytes.len(),
        |i: int|
            if i % 2 == 0 {
                hex_digit((bytes[i / 2] / 16) as int)
            } else {
                hex_digit((bytes[i / 2] % 16) as int)
            },
    )
}

fn nibble_char(n: u8) -> (c: char)
    requires
        n < 16,
    ensures
        c == hex_digit(n as int),
{
    if n < 10 {
        (n + 48) as char
    } else {
        (n + 87) as char
    }
}

/// Encodes a SHA-256 digest as 64 lowercase hexadecimal characters.
pub fn schema_hash_hex(digest: &[u8; 32]) -> (res: String)
    ensures
        res@ == hex_lower(digest@),
        res@.len() == 64,
{
    let mut out = String::new();
    let mut i: usize = 0;
    while i < 32
        invariant
            i <= 32,
            digest@.len() == 32,
            out@ =~= hex_lower(digest@.take(i as int)),
        decreases 32 - i,
    {
        let byte = digest[i];
        out.push(nibble_char(byte / 16));
        out.push(nibble_char(byte % 16));
        i += 1;
        assert(hex_lower(digest@.take(i as int)) =~= hex_lower(digest@.take((i - 1) as int)).push(
            hex_digit((byte / 16) as int),
        ).push(hex_digit((byte % 16) as int)));
    }
    assert(digest@.take(32) =~= digest@);
    out
}

/// A length or index as eight little-endian bytes.
pub open spec fn word_bytes(n: int) -> Seq<u8> {
    le_bytes(n as u64, 8)
}

/// UTF-8 bytes of a text, preceded by their count.
pub open spec fn text_bytes(t: Seq<char>) -> Seq<u8> {
    word_bytes((vstd::utf8::encode_utf8(t).len() as usize) as int) + vstd::utf8::encode_utf8(t)
}

/// UTF-8 bytes of an optional text; absent text hashes like empty text.
pub open spec fn opt_text_bytes(t: Option<Seq<char>>) -> Seq<u8> {
    match t {
        Some(x) => text_bytes(x),
        None => text_bytes(Seq::empty()),
    }
}

/// Shape tag of a decoded value.
pub open spec fn value_kind(v: SpecFieldValue) -> u8 {
    match v {
        SpecFieldValue::Int(_) => 0,
        SpecFieldValue::UInt(_) => 1,
        SpecFieldValue::Float(_) => 2,
        SpecFieldValue::String(_) => 3,
        SpecFieldValue::FormId { .. } => 4,
        SpecFieldValue::Enumeration { .. } => 5,
        SpecFieldValue::Flags { .. } => 6,
        SpecFieldValue::Bytes(_) => 7,
        SpecFieldValue::Struct(_) => 8,
        SpecFieldValue::Array(_) => 9,
        SpecFieldValue::Absent => 10,
    }
}

/// Structural bytes of a decoded value: its shape tag and, for structs and arrays,
/// the count and structure of every member. Scalars contribute only their tag.
pub open spec fn value_structure(v: SpecFieldValue) -> Seq<u8>
    decreases v,
{
    seq![value_kind(v)] + match v {
        SpecFieldValue::Struct(members) => word_bytes(members.len() as int) + members_structure(
            members,
        ),
        SpecFieldValue::Array(items) => word_bytes(items.len() as int) + items_structure(items),
        _ => Seq::empty(),
    }
}

/// Structural bytes of the members of a struct, in order.
pub open spec fn members_structure(members: Seq<SpecNamedValue>) -> Seq<u8>
    decreases members,
{
    if members.len() == 0 {
        Seq::empty()
    } else {
        let m = members.last();
        members_structure(members.drop_last()) + text_bytes(m.path) + le_bytes(
            m.node_id.0 as u64,
            4,
        ) + opt_text_bytes(m.effective_path) + value_structure(m.value)
    }
}

/// Structural bytes of the items of an array, in order.
pub open spec fn items_structure(items: Seq<SpecFieldValue>) -> Seq<u8>
    decreases items,
{
    if items.len() == 0 {
        Seq::empty()
    } else {
        items_structure(items.drop_last()) + value_structure(items.last())
    }
}

/// Structural bytes of one repeat scope.
pub open spec fn scope_bytes(scope: RepeatScope) -> Seq<u8> {
    text_bytes(scope.path@) + le_bytes(scope.occurrence as u64, 4)
}

/// Structural bytes of a repeat stack.
pub open spec fn scopes_bytes(scopes: Seq<RepeatScope>) -> Seq<u8>
    decreases scopes.len(),
{
    if scopes.len() == 0 {
        Seq::empty()
    } else {
        scopes_bytes(scopes.drop_last()) + scope_bytes(scopes.last())
    }
}

/// Array indices as consecutive eight-byte words.
pub open spec fn indices_bytes(indices: Seq<usize>) -> Seq<u8>
    decreases indices.len(),
{
    if indices.len() == 0 {
        Seq::empty()
    } else {
        indices_bytes(indices.drop_last()) + word_bytes(indices.last() as int)
    }
}

/// Structural bytes of one union selection.
pub open spec fn selection_bytes(selection: ValueSelection) -> Seq<u8> {
    text_bytes(selection.schema_path@) + word_bytes(selection.array_indices@.len() as int)
        + indices_bytes(selection.array_indices@) + text_bytes(selection.effective_path@)
}

/// Structural bytes of a list of union selections.
pub open spec fn selections_bytes(selections: Seq<ValueSelection>) -> Seq<u8>
    decreases selections.len(),
{
    if selections.len() == 0 {
        Seq::empty()
    } else {
        selections_bytes(selections.drop_last()) + selection_bytes(selections.last())
    }
}

/// Structural bytes of one field: grammar assignment, repeat stack, union selections
/// and value shape. Scalar values, byte spans and names are not part of it.
pub open spec fn field_structure(field: Field) -> Seq<u8> {
    word_bytes(field.subrecord_index as int) + text_bytes(field.path@) + opt_text_bytes(
        crate::value::opt_text(field.effective_path),
    ) + le_bytes(field.node_id.0 as u64, 4) + field.subrecord_signature.0@ + word_bytes(
        field.repeat_scopes@.len() as int,
    ) + scopes_bytes(field.repeat_scopes@) + word_bytes(field.value_selections@.len() as int)
        + selections_bytes(field.value_selections@) + value_structure(field.value@)
}

/// Structural bytes of a list of fields.
pub open spec fn fields_structure(fields: Seq<Field>) -> Seq<u8>
    decreases fields.len(),
{
    if fields.len() == 0 {
        Seq::empty()
    } else {
        fields_structure(fields.drop_last()) + field_structure(fields.last())
    }
}

/// Everything that `structure_hash` digests: a version tag, the field count and the
/// structure of every field in order.
pub open spec fn structure_preimage(fields: Seq<Field>) -> Seq<u8> {
    vstd::utf8::encode_utf8("bethkit-field-address-v1"@) + word_bytes(fields.len() as int)
        + fields_structure(fields)
}

fn push_word(out: &mut Vec<u8>, n: usize)
    ensures
        final(out)@ == old(out)@ + word_bytes(n as int),
{
    push_le(out, n as u64, 8);
}

fn push_str_bytes(out: &mut Vec<u8>, t: &str)
    ensures
        final(out)@ == old(out)@ + vstd::utf8::encode_utf8(t@),
{
    let bytes = t.as_bytes();
    let ghost start = out@;
    let mut i: usize = 0;
    while i < bytes.len()
        invariant
            i <= bytes@.len(),
            out@ == start + bytes@.take(i as int),
        decreases bytes.len() - i,
    {
        out.push(bytes[i]);
        i += 1;
        assert(out@ =~= start + bytes@.take(i as int));
    }
    assert(bytes@.take(i as int) =~= bytes@);
}

fn push_text(out: &mut Vec<u8>, t: &str)
    ensures
        final(out)@ == old(out)@ + text_bytes(t@),
{
    let ghost start = out@;
    push_word(out, t.len());
    push_str_bytes(out, t);
    assert(out@ =~= start + text_bytes(t@));
}

fn push_opt_text(out: &mut Vec<u8>, t: &Option<String>)
    ensures
        final(out)@ == old(out)@ + opt_text_bytes(crate::value::opt_text(*t)),
{
    match t {
        Some(x) => push_text(out, x.as_str()),
        None => {
            let ghost start = out@;
            push_text(out, "");
            assert(""@ =~= Seq::<char>::empty()) by {
                reveal_strlit("");
            }
        },
    }
}

fn push_value_structure(out: &mut Vec<u8>, v: &FieldValue)
    ensures
        final(out)@ == old(out)@ + value_structure(v@),
    decreases v,
{
    let ghost start = out@;
    let kind: u8 = match v {
        FieldValue::Int(_) => 0,
        FieldValue::UInt(_) => 1,
        FieldValue::Float(_) => 2,
        FieldValue::String(_) => 3,
        FieldValue::FormId { .. } => 4,
        FieldValue::Enumeration { .. } => 5,
        FieldValue::Flags { .. } => 6,
        FieldValue::Bytes(_) => 7,
        FieldValue::Struct(_) => 8,
        FieldValue::Array(_) => 9,
        FieldValue::Absent => 10,
    };
    out.push(kind);
    match v {
        FieldValue::Struct(members) => {
            push_word(out, members.len());
            let ghost view_members = match v@ {
                SpecFieldValue::Struct(x) => x,
                _ => Seq::empty(),
            };
            let ghost head = out@;
            let mut i: usize = 0;
            while i < members.len()
                invariant
                    v matches FieldValue::Struct(x) && x == *members,
                    view_members.len() == members@.len(),
                    forall|j: int| 0 <= j < members@.len() ==> view_members[j] == members@[j]@,
                    i <= members.len(),
                    out@ == head + members_structure(view_members.take(i as int)),
                decreases members.len() - i,
            {
                let m = &members[i];
                assert(decreases_to!(*v => m.value));
                push_text(out, m.path.as_str());
                push_le(out, m.node_id.0 as u64, 4);
                push_opt_text(out, &m.effective_path);
                push_value_structure(out, &m.value);
                i += 1;
                assert(view_members.take(i as int).drop_last() =~= view_members.take(
                    (i - 1) as int,
                ));
                assert(view_members.take(i as int).last() == m@);
                assert(out@ =~= head + members_structure(view_members.take(i as int)));
            }
            assert(view_members.take(i as int) =~= view_members);
        },
        FieldValue::Array(items) => {
            push_word(out, items.len());
            let ghost view_items = match v@ {
                SpecFieldValue::Array(x) => x,
                _ => Seq::empty(),
            };
            let ghost head = out@;
            let mut i: usize = 0;
            while i < items.len()
                invariant
                    v matches FieldValue::Array(x) && x == *items,
                    view_items.len() == items@.len(),
                    forall|j: int| 0 <= j < items@.len() ==> view_items[j] == items@[j]@,
                    i <= items.len(),
                    out@ == head + items_structure(view_items.take(i as int)),
                decreases items.len() - i,
            {
                assert(decreases_to!(*v => items@[i as int]));
                push_value_structure(out, &items[i]);
                i += 1;
                assert(view_items.take(i as int).drop_last() =~= view_items.take((i - 1) as int));
                assert(out@ =~= head + items_structure(view_items.take(i as int)));
            }
            assert(view_items.take(i as int) =~= view_items);
        },
        _ => {},
    }
    assert(out@ =~= start + value_structure(v@));
}

/// Two decoded values have the same shape: the same kind everywhere, and structs
/// whose members agree in path, schema node and selected variant. Scalar contents may differ.
pub open spec fn same_shape(a: SpecFieldValue, b: SpecFieldValue) -> bool
    decreases a,
{
    value_kind(a) == value_kind(b) && match (a, b) {
        (SpecFieldValue::Struct(x), SpecFieldValue::Struct(y)) => x.len() == y.len() && forall|
            i: int,
        |
            0 <= i < x.len() ==> x[i].path == y[i].path && x[i].node_id == y[i].node_id
                && x[i].effective_path == y[i].effective_path && same_shape(
                #[trigger] x[i].value,
                y[i].value,
            ),
        (SpecFieldValue::Array(x), SpecFieldValue::Array(y)) => x.len() == y.len() && forall|
            i: int,
        |
            0 <= i < x.len() ==> same_shape(#[trigger] x[i], y[i]),
        _ => true,
    }
}

proof fn lemma_same_shape_structure(a: SpecFieldValue, b: SpecFieldValue)
    requires
        same_shape(a, b),
    ensures
        value_structure(a) == value_structure(b),
    decreases a,
{
    match (a, b) {
        (SpecFieldValue::Struct(x), SpecFieldValue::Struct(y)) => {
            lemma_same_shape_members(x, y);
        },
        (SpecFieldValue::Array(x), SpecFieldValue::Array(y)) => {
            lemma_same_shape_items(x, y);
        },
        _ => {},
    }
}

proof fn lemma_same_shape_members(x: Seq<SpecNamedValue>, y: Seq<SpecNamedValue>)
    requires
        x.len() == y.len(),
        forall|i: int|
            0 <= i < x.len() ==> x[i].path == y[i].path && x[i].node_id == y[i].node_id
                && x[i].effective_path == y[i].effective_path && same_shape(
                #[trigger] x[i].value,
                y[i].value,
            ),
    ensures
        members_structure(x) == members_structure(y),
    decreases x,
{
    if x.len() > 0 {
        let n = x.len() - 1;
        assert(same_shape(x[n].value, y[n].value));
        lemma_same_shape_members(x.drop_last(), y.drop_last());
        lemma_same_shape_structure(x.last().value, y.last().value);
    }
}

proof fn lemma_same_shape_items(x: Seq<SpecFieldValue>, y: Seq<SpecFieldValue>)
    requires
        x.len() == y.len(),
        forall|i: int| 0 <= i < x.len() ==> same_shape(#[trigger] x[i], y[i]),
    ensures
        items_structure(x) == items_structure(y),
    decreases x,
{
    if x.len() > 0 {
        let n = x.len() - 1;
        assert(same_shape(x[n], y[n]));
        lemma_same_shape_items(x.drop_last(), y.drop_last());
        lemma_same_shape_structure(x.last(), y.last());
    }
}

/// Two fields are structurally identical: same grammar assignment, repeat stack,
/// union selections and value shape. Names, spans, occurrences and scalar contents may differ.
pub open spec fn same_field_structure(a: Field, b: Field) -> bool {
    &&& a.subrecord_index == b.subrecord_index
    &&& a.path@ == b.path@
    &&& crate::value::opt_text(a.effective_path) == crate::value::opt_text(b.effective_path)
    &&& a.node_id == b.node_id
    &&& a.subrecord_signature == b.subrecord_signature
    &&& a.repeat_scopes@ == b.repeat_scopes@
    &&& a.value_selections@ == b.value_selections@
    &&& same_shape(a.value@, b.value@)
}

proof fn lemma_fields_structure(a: Seq<Field>, b: Seq<Field>)
    requires
        a.len() == b.len(),
        forall|i: int| 0 <= i < a.len() ==> same_field_structure(#[trigger] a[i], b[i]),
    ensures
        fields_structure(a) == fields_structure(b),
    decreases a.len(),
{
    if a.len() > 0 {
        let n = a.len() - 1;
        assert(same_field_structure(a[n], b[n]));
        lemma_fields_structure(a.drop_last(), b.drop_last());
        lemma_same_shape_structure(a.last().value@, b.last().value@);
    }
}

/// Scalar edits that keep the layout of every field keep the structure hash, so
/// addresses issued before such an edit stay valid.
pub proof fn scalar_edits_keep_structure_hash(a: Seq<Field>, b: Seq<Field>)
    requires
        a.len() == b.len(),
        forall|i: int| 0 <= i < a.len() ==> same_field_structure(#[trigger] a[i], b[i]),
    ensures
        hex_lower(spec_sha256(structure_preimage(a))) == hex_lower(
            spec_sha256(structure_preimage(b)),
        ),
{
    lemma_fields_structure(a, b);
}

fn push_scopes(out: &mut Vec<u8>, scopes: &Vec<RepeatScope>)
    ensures
        final(out)@ == old(out)@ + scopes_bytes(scopes@),
{
    let ghost start = out@;
    let mut i: usize = 0;
    while i < scopes.len()
        invariant
            i <= scopes.len(),
            out@ == start + scopes_bytes(scopes@.take(i as int)),
        decreases scopes.len() - i,
    {
        push_text(out, scopes[i].path.as_str());
        push_le(out, scopes[i].occurrence as u64, 4);
        i += 1;
        assert(scopes@.take(i as int).drop_last() =~= scopes@.take((i - 1) as int));
        assert(out@ =~= start + scopes_bytes(scopes@.take(i as int)));
    }
    assert(scopes@.take(i as int) =~= scopes@);
}

fn push_indices(out: &mut Vec<u8>, indices: &Vec<usize>)
    ensures
        final(out)@ == old(out)@ + indices_bytes(indices@),
{
    let ghost start = out@;
    let mut i: usize = 0;
    while i < indices.len()
        invariant
            i <= indices.len(),
            out@ == start + indices_bytes(indices@.take(i as int)),
        decreases indices.len() - i,
    {
        push_word(out, indices[i]);
        i += 1;
        assert(indices@.take(i as int).drop_last() =~= indices@.take((i - 1) as int));
        assert(out@ =~= start + indices_bytes(indices@.take(i as int)));
    }
    assert(indices@.take(i as int) =~= indices@);
}

fn push_selections(out: &mut Vec<u8>, selections: &Vec<ValueSelection>)
    ensures
        final(out)@ == old(out)@ + selections_bytes(selections@),
{
    let ghost start = out@;
    let mut i: usize = 0;
    while i < selections.len()
        invariant
            i <= selections.len(),
            out@ == start + selections_bytes(selections@.take(i as int)),
        decreases selections.len() - i,
    {
        let selection = &selections[i];
        push_text(out, selection.schema_path.as_str());
        push_word(out, selection.array_indices.len());
        push_indices(out, &selection.array_indices);
        push_text(out, selection.effective_path.as_str());
        i += 1;
        assert(selections@.take(i as int).drop_last() =~= selections@.take((i - 1) as int));
        assert(out@ =~= start + selections_bytes(selections@.take(i as int)));
    }
    assert(selections@.take(i as int) =~= selections@);
}

fn push_field_structure(out: &mut Vec<u8>, field: &Field)
    ensures
        final(out)@ == old(out)@ + field_structure(*field),
{
    let ghost start = out@;
    push_word(out, field.subrecord_index);
    push_text(out, field.path.as_str());
    push_opt_text(out, &field.effective_path);
    push_le(out, field.node_id.0 as u64, 4);
    let mut k: usize = 0;
    let ghost before_sig = out@;
    while k < 4
        invariant
            k <= 4,
            out@ == before_sig + field.subrecord_signature.0@.take(k as int),
        decreases 4 - k,
    {
        out.push(field.subrecord_signature.0[k]);
        k += 1;
        assert(out@ =~= before_sig + field.subrecord_signature.0@.take(k as int));
    }
    assert(field.subrecord_signature.0@.take(4) =~= field.subrecord_signature.0@);
    push_word(out, field.repeat_scopes.len());
    push_scopes(out, &field.repeat_scopes);
    push_word(out, field.value_selections.len());
    push_selections(out, &field.value_selections);
    push_value_structure(out, &field.value);
    assert(out@ =~= start + field_structure(*field));
}

/// Hashes exact grammar assignments, repeat scopes and value-tree shape.
///
/// Scalar values are deliberately excluded so independent value edits do not
/// invalidate each other's addresses. Byte offsets and scalar lengths are excluded
/// because navigation uses schema members, not byte positions. Selected union paths
/// remain part of the structural identity, including each nested array occurrence.
pub fn structure_hash(fields: &[Field]) -> (res: String)
    ensures
        res@ == hex_lower(spec_sha256(structure_preimage(fields@))),
        res@.len() == 64,
{
    let mut preimage: Vec<u8> = Vec::new();
    push_str_bytes(&mut preimage, "bethkit-field-address-v1");
    push_word(&mut preimage, fields.len());
    let ghost head = preimage@;
    let mut i: usize = 0;
    while i < fields.len()
        invariant
            i <= fields@.len(),
            preimage@ == head + fields_structure(fields@.take(i as int)),
        decreases fields.len() - i,
    {
        push_field_structure(&mut preimage, &fields[i]);
        i += 1;
        assert(fields@.take(i as int).drop_last() =~= fields@.take((i - 1) as int));
        assert(preimage@ =~= head + fields_structure(fields@.take(i as int)));
    }
    assert(fields@.take(i as int) =~= fields@);
    assert(preimage@ =~= structure_preimage(fields@));
    let digest = sha256_digest(preimage.as_slice());
    schema_hash_hex(&digest)
}

} // verus!
