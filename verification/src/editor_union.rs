//! Resolves forward union reads against in-flight fixed-layout sibling values.
use vstd::prelude::*;

use crate::decoded::DecodedValues;
use crate::decoder::{CustomDecoder, DecoderRegistry};
use crate::encode::{
    bytes_of, encode_node, encodes, lemma_encodes_wider, narrower_selection, narrowing_of, prefixes_reserved, selection_of,
};
use crate::expression::{
    collect_entries, collect_owned, collect_owned_expression_field_values, expression_field_values_from,
    ExpressionValues,
};
use crate::value::{OwnedFieldValue, SemanticError};
use crate::layout::{fixed_offset, fixed_offset_of, integer_at, integer_node_at};
use crate::schema::{Expression, SchemaNode, SchemaNodeKind};

verus! {

/// Whether a read of `width` bytes at `offset` ends past the `encoded_size` bytes
/// that a union variant supplies.
pub open spec fn read_is_forward(offset: u32, width: u8, encoded_size: usize) -> bool {
    offset + width <= usize::MAX && offset + width > encoded_size
}

/// Whether an expression reads any bytes past the encoded variant.
pub open spec fn forward_reads(e: Expression, encoded_size: usize) -> bool
    decreases e,
{
    match e {
        Expression::ReadUnsigned { offset, width } => read_is_forward(offset, width, encoded_size),
        Expression::Equal { left, right } => forward_reads(*left, encoded_size) || forward_reads(
            *right,
            encoded_size,
        ),
        Expression::NotEqual { left, right } => forward_reads(*left, encoded_size)
            || forward_reads(*right, encoded_size),
        Expression::LessThan { left, right } => forward_reads(*left, encoded_size)
            || forward_reads(*right, encoded_size),
        Expression::Add { left, right } => forward_reads(*left, encoded_size) || forward_reads(
            *right,
            encoded_size,
        ),
        Expression::Subtract { left, right } => forward_reads(*left, encoded_size)
            || forward_reads(*right, encoded_size),
        Expression::Multiply { left, right } => forward_reads(*left, encoded_size)
            || forward_reads(*right, encoded_size),
        Expression::Divide { left, right } => forward_reads(*left, encoded_size) || forward_reads(
            *right,
            encoded_size,
        ),
        Expression::BitSet { value, .. } => forward_reads(*value, encoded_size),
        Expression::Not { value } => forward_reads(*value, encoded_size),
        Expression::BitCount { value } => forward_reads(*value, encoded_size),
        Expression::IntegerLookup { value, .. } => forward_reads(*value, encoded_size),
        Expression::And { values } => exists|i: int|
            0 <= i < values@.len() && forward_reads(#[trigger] values@[i], encoded_size),
        Expression::Or { values } => exists|i: int|
            0 <= i < values@.len() && forward_reads(#[trigger] values@[i], encoded_size),
        Expression::Select { condition, if_true, if_false } => forward_reads(
            *condition,
            encoded_size,
        ) || forward_reads(*if_true, encoded_size) || forward_reads(*if_false, encoded_size),
        _ => false,
    }
}

fn any_forward_reads(owner: &Expression, values: &Vec<Expression>, encoded_size: usize) -> (res:
    bool)
    requires
        (owner matches Expression::And { values: v } && v == *values) || (
        owner matches Expression::Or { values: v } && v == *values),
    ensures
        res == exists|i: int|
            0 <= i < values@.len() && forward_reads(#[trigger] values@[i], encoded_size),
    decreases owner, 0nat,
{
    let mut i: usize = 0;
    while i < values.len()
        invariant
            (owner matches Expression::And { values: v } && v == *values) || (
            owner matches Expression::Or { values: v } && v == *values),
            i <= values.len(),
            forall|j: int| 0 <= j < i ==> !forward_reads(#[trigger] values@[j], encoded_size),
        decreases values.len() - i,
    {
        assert(decreases_to!(*owner => values@[i as int]));
        if has_forward_reads(&values[i], encoded_size) {
            return true;
        }
        i += 1;
    }
    false
}

/// Whether an expression reads past the bytes of the encoded union variant.
pub fn has_forward_reads(expression: &Expression, encoded_size: usize) -> (res: bool)
    ensures
        res == forward_reads(*expression, encoded_size),
    decreases expression, 1nat,
{
    match expression {
        Expression::ReadUnsigned { offset, width } => {
            let start = *offset as usize;
            match start.checked_add(*width as usize) {
                Some(end) => end > encoded_size,
                None => false,
            }
        },
        Expression::Equal { left, right } => has_forward_reads(left, encoded_size)
            || has_forward_reads(right, encoded_size),
        Expression::NotEqual { left, right } => has_forward_reads(left, encoded_size)
            || has_forward_reads(right, encoded_size),
        Expression::LessThan { left, right } => has_forward_reads(left, encoded_size)
            || has_forward_reads(right, encoded_size),
        Expression::Add { left, right } => has_forward_reads(left, encoded_size)
            || has_forward_reads(right, encoded_size),
        Expression::Subtract { left, right } => has_forward_reads(left, encoded_size)
            || has_forward_reads(right, encoded_size),
        Expression::Multiply { left, right } => has_forward_reads(left, encoded_size)
            || has_forward_reads(right, encoded_size),
        Expression::Divide { left, right } => has_forward_reads(left, encoded_size)
            || has_forward_reads(right, encoded_size),
        Expression::BitSet { value, .. } => has_forward_reads(value, encoded_size),
        Expression::Not { value } => has_forward_reads(value, encoded_size),
        Expression::BitCount { value } => has_forward_reads(value, encoded_size),
        Expression::IntegerLookup { value, .. } => has_forward_reads(value, encoded_size),
        Expression::And { values } => any_forward_reads(expression, values, encoded_size),
        Expression::Or { values } => any_forward_reads(expression, values, encoded_size),
        Expression::Select { condition, if_true, if_false } => has_forward_reads(
            condition,
            encoded_size,
        ) || has_forward_reads(if_true, encoded_size) || has_forward_reads(if_false, encoded_size),
        _ => false,
    }
}

/// `new` is `old` with every `ReadUnsigned` that `read` answers replaced by the answer.
pub open spec fn resolved(old: Expression, new: Expression, read: spec_fn(u32, u8) -> Option<i64>) -> bool
    decreases old,
{
    match old {
        Expression::ReadUnsigned { offset, width } => match read(offset, width) {
            Some(v) => new == Expression::Int { value: v },
            None => new == old,
        },
        Expression::Int { .. } => new == old,
        Expression::Bool { .. } => new == old,
        Expression::FormVersion => new == old,
        Expression::Field { path } => new matches Expression::Field { path: p } && p@ == path@,
        Expression::Equal { left, right } => new matches Expression::Equal { left: l, right: r }
            && resolved(*left, *l, read) && resolved(*right, *r, read),
        Expression::NotEqual { left, right } => new matches Expression::NotEqual {
            left: l,
            right: r,
        } && resolved(*left, *l, read) && resolved(*right, *r, read),
        Expression::LessThan { left, right } => new matches Expression::LessThan {
            left: l,
            right: r,
        } && resolved(*left, *l, read) && resolved(*right, *r, read),
        Expression::Add { left, right } => new matches Expression::Add { left: l, right: r }
            && resolved(*left, *l, read) && resolved(*right, *r, read),
        Expression::Subtract { left, right } => new matches Expression::Subtract {
            left: l,
            right: r,
        } && resolved(*left, *l, read) && resolved(*right, *r, read),
        Expression::Multiply { left, right } => new matches Expression::Multiply {
            left: l,
            right: r,
        } && resolved(*left, *l, read) && resolved(*right, *r, read),
        Expression::Divide { left, right } => new matches Expression::Divide { left: l, right: r }
            && resolved(*left, *l, read) && resolved(*right, *r, read),
        Expression::BitSet { value, bit } => new matches Expression::BitSet { value: v, bit: b }
            && b == bit && resolved(*value, *v, read),
        Expression::Not { value } => new matches Expression::Not { value: v } && resolved(
            *value,
            *v,
            read,
        ),
        Expression::BitCount { value } => new matches Expression::BitCount { value: v } && resolved(
            *value,
            *v,
            read,
        ),
        Expression::IntegerLookup { value, table } => new matches Expression::IntegerLookup {
            value: v,
            table: t,
        } && t@ == table@ && resolved(*value, *v, read),
        Expression::And { values } => new matches Expression::And { values: vs } && vs@.len()
            == values@.len() && forall|i: int|
            0 <= i < values@.len() ==> resolved(#[trigger] values@[i], vs@[i], read),
        Expression::Or { values } => new matches Expression::Or { values: vs } && vs@.len()
            == values@.len() && forall|i: int|
            0 <= i < values@.len() ==> resolved(#[trigger] values@[i], vs@[i], read),
        Expression::Select { condition, if_true, if_false } => new matches Expression::Select {
            condition: c,
            if_true: t,
            if_false: f,
        } && resolved(*condition, *c, read) && resolved(*if_true, *t, read) && resolved(
            *if_false,
            *f,
            read,
        ),
    }
}

fn resolve_all<F: Fn(u32, u8) -> Option<i64>>(
    owner: &Expression,
    values: &Vec<Expression>,
    resolve: &F,
    Ghost(read): Ghost<spec_fn(u32, u8) -> Option<i64>>,
) -> (res: Vec<Expression>)
    requires
        (owner matches Expression::And { values: v } && v == *values) || (
        owner matches Expression::Or { values: v } && v == *values),
        forall|o: u32, w: u8| resolve.requires((o, w)),
        forall|o: u32, w: u8, r: Option<i64>| resolve.ensures((o, w), r) ==> r == read(o, w),
    ensures
        res@.len() == values@.len(),
        forall|i: int| 0 <= i < values@.len() ==> resolved(#[trigger] values@[i], res@[i], read),
    decreases owner, 0nat,
{
    let mut out: Vec<Expression> = Vec::new();
    let mut i: usize = 0;
    while i < values.len()
        invariant
            (owner matches Expression::And { values: v } && v == *values) || (
            owner matches Expression::Or { values: v } && v == *values),
            forall|o: u32, w: u8| resolve.requires((o, w)),
            forall|o: u32, w: u8, r: Option<i64>| resolve.ensures((o, w), r) ==> r == read(o, w),
            i <= values.len(),
            out@.len() == i,
            forall|j: int| 0 <= j < i ==> resolved(#[trigger] values@[j], out@[j], read),
        decreases values.len() - i,
    {
        assert(decreases_to!(*owner => values@[i as int]));
        out.push(resolve_reads(&values[i], resolve, Ghost(read)));
        i += 1;
    }
    out
}

fn copy_table(table: &Vec<(i64, i64)>) -> (res: Vec<(i64, i64)>)
    ensures
        res@ == table@,
{
    let mut out: Vec<(i64, i64)> = Vec::new();
    let mut i: usize = 0;
    while i < table.len()
        invariant
            i <= table.len(),
            out@ == table@.take(i as int),
        decreases table.len() - i,
    {
        out.push(table[i]);
        i += 1;
        assert(out@ =~= table@.take(i as int));
    }
    assert(table@.take(i as int) =~= table@);
    out
}

/// Rebuilds an expression with every unsigned read that `resolve` answers replaced
/// by the integer it returns; other reads stay intact.
pub(crate) fn resolve_reads<F: Fn(u32, u8) -> Option<i64>>(
    expression: &Expression,
    resolve: &F,
    Ghost(read): Ghost<spec_fn(u32, u8) -> Option<i64>>,
) -> (res: Expression)
    requires
        forall|o: u32, w: u8| resolve.requires((o, w)),
        forall|o: u32, w: u8, r: Option<i64>| resolve.ensures((o, w), r) ==> r == read(o, w),
    ensures
        resolved(*expression, res, read),
    decreases expression, 1nat,
{
    match expression {
        Expression::ReadUnsigned { offset, width } => match resolve(*offset, *width) {
            Some(value) => Expression::Int { value },
            None => Expression::ReadUnsigned { offset: *offset, width: *width },
        },
        Expression::Int { value } => Expression::Int { value: *value },
        Expression::Bool { value } => Expression::Bool { value: *value },
        Expression::FormVersion => Expression::FormVersion,
        Expression::Field { path } => Expression::Field { path: path.clone() },
        Expression::Equal { left, right } => Expression::Equal {
            left: Box::new(resolve_reads(left, resolve, Ghost(read))),
            right: Box::new(resolve_reads(right, resolve, Ghost(read))),
        },
        Expression::NotEqual { left, right } => Expression::NotEqual {
            left: Box::new(resolve_reads(left, resolve, Ghost(read))),
            right: Box::new(resolve_reads(right, resolve, Ghost(read))),
        },
        Expression::LessThan { left, right } => Expression::LessThan {
            left: Box::new(resolve_reads(left, resolve, Ghost(read))),
            right: Box::new(resolve_reads(right, resolve, Ghost(read))),
        },
        Expression::Add { left, right } => Expression::Add {
            left: Box::new(resolve_reads(left, resolve, Ghost(read))),
            right: Box::new(resolve_reads(right, resolve, Ghost(read))),
        },
        Expression::Subtract { left, right } => Expression::Subtract {
            left: Box::new(resolve_reads(left, resolve, Ghost(read))),
            right: Box::new(resolve_reads(right, resolve, Ghost(read))),
        },
        Expression::Multiply { left, right } => Expression::Multiply {
            left: Box::new(resolve_reads(left, resolve, Ghost(read))),
            right: Box::new(resolve_reads(right, resolve, Ghost(read))),
        },
        Expression::Divide { left, right } => Expression::Divide {
            left: Box::new(resolve_reads(left, resolve, Ghost(read))),
            right: Box::new(resolve_reads(right, resolve, Ghost(read))),
        },
        Expression::BitSet { value, bit } => Expression::BitSet {
            value: Box::new(resolve_reads(value, resolve, Ghost(read))),
            bit: *bit,
        },
        Expression::Not { value } => Expression::Not {
            value: Box::new(resolve_reads(value, resolve, Ghost(read))),
        },
        Expression::BitCount { value } => Expression::BitCount {
            value: Box::new(resolve_reads(value, resolve, Ghost(read))),
        },
        Expression::IntegerLookup { value, table } => Expression::IntegerLookup {
            value: Box::new(resolve_reads(value, resolve, Ghost(read))),
            table: copy_table(table),
        },
        Expression::And { values } => Expression::And {
            values: resolve_all(expression, values, resolve, Ghost(read)),
        },
        Expression::Or { values } => Expression::Or {
            values: resolve_all(expression, values, resolve, Ghost(read)),
        },
        Expression::Select { condition, if_true, if_false } => Expression::Select {
            condition: Box::new(resolve_reads(condition, resolve, Ghost(read))),
            if_true: Box::new(resolve_reads(if_true, resolve, Ghost(read))),
            if_false: Box::new(resolve_reads(if_false, resolve, Ghost(read))),
        },
    }
}

/// The current value of a forward read: a read past the `encoded_size` bytes of the
/// variant, at `offset` from the union, is answered by the integer field found at the
/// union's fixed offset `base` plus `offset` inside `payload`, masked to `width` bytes,
/// when that field has a value and the masked value fits `i64`.
pub open spec fn forward_read(
    payload: SchemaNode,
    base: nat,
    encoded_size: usize,
    values: Map<Seq<char>, i64>,
    offset: u32,
    width: u8,
) -> Option<i64> {
    if offset + width > usize::MAX || offset + width <= encoded_size || base + offset
        > usize::MAX {
        None
    } else {
        match integer_node_at(payload, (base + offset) as nat, width) {
            None => None,
            Some(field) => if !values.contains_key(field.path@) || width == 0 || width > 8 {
                None
            } else {
                let masked = (values[field.path@] as u64) & (u64::MAX >> (64 - 8 * width) as u64);
                if masked <= i64::MAX {
                    Some(masked as i64)
                } else {
                    None
                }
            },
        }
    }
}

/// Answers one forward read from the current sibling values.
pub fn forward_read_value(
    payload: &SchemaNode,
    base: usize,
    encoded_size: usize,
    values: &ExpressionValues,
    offset: u32,
    width: u8,
) -> (res: Option<i64>)
    requires
        values.wf(),
    ensures
        res == forward_read(*payload, base as nat, encoded_size, values@, offset, width),
{
    let relative = offset as usize;
    let end = match relative.checked_add(width as usize) {
        Some(end) => end,
        None => {
            return None;
        },
    };
    if end <= encoded_size {
        return None;
    }
    let at = match base.checked_add(relative) {
        Some(at) => at,
        None => {
            return None;
        },
    };
    let field = match integer_at(payload, at, width) {
        Some(field) => field,
        None => {
            return None;
        },
    };
    let value = match values.get(field.path.as_str()) {
        Some(value) => value,
        None => {
            return None;
        },
    };
    if width == 0 || width > 8 {
        return None;
    }
    let shift: u64 = 64 - 8 * width as u64;
    let masked = (value as u64) & (u64::MAX >> shift);
    if masked <= i64::MAX as u64 {
        Some(masked as i64)
    } else {
        None
    }
}

/// The selector expression of a union with forward reads resolved against the current
/// sibling values, when the union sits at a fixed offset inside its subrecord; otherwise
/// a copy of the selector.
///
/// `root` is the record schema, `node` the union, `encoded_size` the number of bytes of
/// the candidate variant and `values` the integer field values, the in-flight payload included.
pub fn union_expression(
    root: &SchemaNode,
    node: &SchemaNode,
    expression: &Expression,
    encoded_size: usize,
    values: &ExpressionValues,
) -> (res: Expression)
    requires
        values.wf(),
    ensures
        match union_payload(*root, node.path@) {
            Some(payload) => {
                let base = fixed_offset_of(payload, node.path@);
                if forward_reads(*expression, encoded_size) && base is Some {
                    resolved(
                        *expression,
                        res,
                        |o: u32, w: u8| forward_read(payload, base->0, encoded_size, values@, o, w),
                    )
                } else {
                    resolved(*expression, res, |o: u32, w: u8| None::<i64>)
                }
            },
            None => resolved(*expression, res, |o: u32, w: u8| None::<i64>),
        },
{
    let unchanged = Ghost(|o: u32, w: u8| None::<i64>);
    let keep = |o: u32, w: u8| -> (r: Option<i64>)
        ensures
            r == None::<i64>,
        { None };
    if !has_forward_reads(expression, encoded_size) {
        return resolve_reads(expression, &keep, unchanged);
    }
    let parent = match crate::tree::find_containing_subrecord(root, node.path.as_str()) {
        Some(parent) => parent,
        None => {
            return resolve_reads(expression, &keep, unchanged);
        },
    };
    let payload: &SchemaNode = match &parent.kind {
        SchemaNodeKind::Subrecord { payload, .. } => payload,
        _ => {
            return resolve_reads(expression, &keep, unchanged);
        },
    };
    let base = match fixed_offset(payload, node.path.as_str()) {
        Some(base) => base,
        None => {
            return resolve_reads(expression, &keep, unchanged);
        },
    };
    let read = |offset: u32, width: u8| -> (r: Option<i64>)
        requires
            values.wf(),
        ensures
            r == forward_read(*payload, base as nat, encoded_size, values@, offset, width),
        { forward_read_value(payload, base, encoded_size, values, offset, width) };
    resolve_reads(
        expression,
        &read,
        Ghost(|o: u32, w: u8| forward_read(*payload, base as nat, encoded_size, values@, o, w)),
    )
}

/// The payload of the subrecord that contains the node at `path`.
pub open spec fn union_payload(root: SchemaNode, path: Seq<char>) -> Option<SchemaNode> {
    match crate::tree::containing_subrecord(root, path, None) {
        Some(parent) => match parent.kind {
            SchemaNodeKind::Subrecord { payload, .. } => Some(*payload),
            _ => None,
        },
        None => None,
    }
}

/// The integer field values that expressions read while `value` is encoded with `node`
/// in a record whose decoded values are `decoded_values`: those of the record's decoded
/// fields, overridden by those that the value being encoded supplies.
pub open spec fn in_flight_values(decoded_values: DecodedValues, node: SchemaNode, value: OwnedFieldValue) -> Map<
    Seq<char>,
    i64,
> {
    collect_owned(node, value@, collect_entries(decoded_values.entries()))
}

/// The choices that a union selector given the field values `values` may make for a
/// union node, a variant index and the variant's bytes.
pub open spec fn selection_given<S: Fn(&SchemaNode, usize, &Vec<u8>, &ExpressionValues) -> Result<Option<i64>, SemanticError>>(
    selector: S,
    values: Map<Seq<char>, i64>,
) -> spec_fn(SchemaNode, usize, Seq<u8>, Result<Option<i64>, SemanticError>) -> bool {
    |node: SchemaNode, index: usize, bytes: Seq<u8>, sel: Result<Option<i64>, SemanticError>|
        exists|p: Vec<u8>, v: ExpressionValues|
            p@ == bytes && v@ == values && #[trigger] selector.ensures((&node, index, &p, &v), sel)
}

/// Encodes `value` with `node` for a record whose decoded values are `decoded_values`,
/// giving the union selector the field values in flight ([`in_flight_values`]) beside
/// the union, the candidate variant's index and its bytes. The other arguments are those
/// of [`crate::encode::encode_node`].
pub fn encode_node_with_fields<D, S, N>(
    node: &SchemaNode,
    value: &OwnedFieldValue,
    decoded_values: &DecodedValues,
    localized: bool,
    decoders: &DecoderRegistry<D>,
    selector: &S,
    narrow: &N,
) -> (res: Result<Vec<u8>, SemanticError>)
    where
        D: CustomDecoder,
        S: Fn(&SchemaNode, usize, &Vec<u8>, &ExpressionValues) -> Result<Option<i64>, SemanticError>,
        N: Fn(u64) -> u32,
    requires
        decoded_values.wf(),
        decoders.wf(),
        prefixes_reserved(*node),
        forall|bits: u64| narrow.requires((bits,)),
        forall|n: &SchemaNode, i: usize, p: &Vec<u8>, v: &ExpressionValues| selector.requires((n, i, p, v)),
    ensures
        encodes(
            decoders@,
            localized,
            selection_given(*selector, in_flight_values(*decoded_values, *node, *value)),
            narrowing_of(*narrow),
            *node,
            value@,
            bytes_of(res),
        ),
{
    let mut values = expression_field_values_from(decoded_values);
    collect_owned_expression_field_values(node, value, &mut values);
    let ghost vals = values@;
    assert(vals == in_flight_values(*decoded_values, *node, *value));
    let given = |n: &SchemaNode, i: usize, p: &Vec<u8>| -> (r: Result<Option<i64>, SemanticError>)
        ensures
            selector.ensures((n, i, p, &values), r),
        { selector(n, i, p, &values) };
    let res = encode_node(node, value, localized, decoders, &given, narrow);
    proof {
        let sels = selection_of(given);
        assert forall|n: SchemaNode, i: usize, b: Seq<u8>, sel: Result<Option<i64>, SemanticError>|
            #[trigger] sels(n, i, b, sel) implies selection_given(*selector, vals)(n, i, b, sel) by {
            reveal(selection_of);
            let p = choose|p: Vec<u8>| p@ == b && #[trigger] given.ensures((&n, i, &p), sel);
            assert(selector.ensures((&n, i, &p, &values), sel));
        }
        assert(narrower_selection(sels, selection_given(*selector, vals)));
        lemma_encodes_wider(decoders@, localized, sels, selection_given(*selector, vals), narrowing_of(*narrow), *node, value@, bytes_of(res));
    }
    res
}

} // verus!
