//! Reads and writes of values nested inside an owned field value, found by schema path.
use vstd::prelude::*;
use vstd::string::*;

use crate::decoder::{CustomDecoder, DecoderRegistry, RegisteredDecoder};
use crate::encode::{
    candidate_choice, choice_of, lemma_choice_in_range, lemma_reserved_at, narrowing_of,
    prefixes_reserved, select_union_variant, selection_of, union_choice,
};
use crate::schema::{SchemaNode, SchemaNodeKind};
use crate::context::handler_error_is;
use crate::defaults::{
    candidate_default, default_value_for_node, defaults, finishing_of, item_indices, picking_of,
};
use crate::text::text_eq;
use crate::value::{OwnedFieldValue, SemanticError, SpecOwnedValue};

verus! {

/// What a search for an occurrence of a schema path yields: the value found, or how
/// many more matches remain to be skipped.
pub enum Lookup {
    Found(SpecOwnedValue),
    Missing(nat),
}

/// Marks a candidate search outcome; every outcome is one.
pub open spec fn candidate_lookup(r: Result<Lookup, SemanticError>) -> bool {
    true
}

/// Whether `out` is a possible outcome of searching `value`, read with `node`, for the
/// match number `occurrence` (counting from zero, in depth-first order) of the node at
/// `target`. Struct members and array items are searched in order, a union is searched
/// through the variant that encodes the value, and wrapping nodes through their child.
pub open spec fn lookup<D: CustomDecoder>(
    decoders: Map<Seq<char>, RegisteredDecoder<D>>,
    localized: bool,
    selects: spec_fn(SchemaNode, usize, Seq<u8>, Result<Option<i64>, SemanticError>) -> bool,
    narrowed: spec_fn(u64, u32) -> bool,
    node: SchemaNode,
    value: SpecOwnedValue,
    target: Seq<char>,
    occurrence: nat,
    out: Result<Lookup, SemanticError>,
) -> bool
    decreases node, 0nat,
{
    if node.path@ == target {
        if occurrence == 0 {
            out == Ok::<Lookup, SemanticError>(Lookup::Found(value))
        } else {
            out == Ok::<Lookup, SemanticError>(Lookup::Missing((occurrence - 1) as nat))
        }
    } else {
        match (node.kind, value) {
            (SchemaNodeKind::Struct { fields }, SpecOwnedValue::Struct(values)) => lookup_members(
                decoders,
                localized,
                selects,
                narrowed,
                fields@,
                values,
                target,
                0,
                occurrence,
                out,
            ),
            (SchemaNodeKind::Array { element, .. }, SpecOwnedValue::Array(values)) => lookup_items(
                decoders,
                localized,
                selects,
                narrowed,
                *element,
                values,
                target,
                0,
                occurrence,
                out,
            ),
            (SchemaNodeKind::Union { variants, .. }, _) => exists|
                c: Result<(nat, Seq<u8>), SemanticError>,
            |
                #[trigger] candidate_choice(c) && union_choice(
                    decoders,
                    localized,
                    selects,
                    narrowed,
                    node,
                    variants@,
                    0,
                    value,
                    c,
                ) && match c {
                    Ok((i, _)) => i < variants@.len() && lookup(
                        decoders,
                        localized,
                        selects,
                        narrowed,
                        variants@[i as int],
                        value,
                        target,
                        occurrence,
                        out,
                    ),
                    Err(e) => out == Err::<Lookup, SemanticError>(e),
                },
            (SchemaNodeKind::Subrecord { payload, .. }, _) => lookup(
                decoders,
                localized,
                selects,
                narrowed,
                *payload,
                value,
                target,
                occurrence,
                out,
            ),
            (SchemaNodeKind::Compressed { child }, _) => lookup(
                decoders,
                localized,
                selects,
                narrowed,
                *child,
                value,
                target,
                occurrence,
                out,
            ),
            (SchemaNodeKind::Terminated { child, .. }, _) => lookup(
                decoders,
                localized,
                selects,
                narrowed,
                *child,
                value,
                target,
                occurrence,
                out,
            ),
            _ => out == Ok::<Lookup, SemanticError>(Lookup::Missing(occurrence)),
        }
    }
}

/// The search continued over struct members from member `k` on, with their nodes.
pub open spec fn lookup_members<D: CustomDecoder>(
    decoders: Map<Seq<char>, RegisteredDecoder<D>>,
    localized: bool,
    selects: spec_fn(SchemaNode, usize, Seq<u8>, Result<Option<i64>, SemanticError>) -> bool,
    narrowed: spec_fn(u64, u32) -> bool,
    fields: Seq<SchemaNode>,
    values: Seq<SpecOwnedValue>,
    target: Seq<char>,
    k: nat,
    occurrence: nat,
    out: Result<Lookup, SemanticError>,
) -> bool
    decreases fields, fields.len() - k,
{
    if k >= fields.len() || k >= values.len() {
        out == Ok::<Lookup, SemanticError>(Lookup::Missing(occurrence))
    } else {
        exists|r: Result<Lookup, SemanticError>|
            #[trigger] candidate_lookup(r) && lookup(
                decoders,
                localized,
                selects,
                narrowed,
                fields[k as int],
                values[k as int],
                target,
                occurrence,
                r,
            ) && match r {
                Ok(Lookup::Missing(remaining)) => lookup_members(
                    decoders,
                    localized,
                    selects,
                    narrowed,
                    fields,
                    values,
                    target,
                    k + 1,
                    remaining,
                    out,
                ),
                _ => out == r,
            }
    }
}

/// The search continued over array items from item `k` on, with the element node.
pub open spec fn lookup_items<D: CustomDecoder>(
    decoders: Map<Seq<char>, RegisteredDecoder<D>>,
    localized: bool,
    selects: spec_fn(SchemaNode, usize, Seq<u8>, Result<Option<i64>, SemanticError>) -> bool,
    narrowed: spec_fn(u64, u32) -> bool,
    element: SchemaNode,
    values: Seq<SpecOwnedValue>,
    target: Seq<char>,
    k: nat,
    occurrence: nat,
    out: Result<Lookup, SemanticError>,
) -> bool
    decreases element, values.len() - k,
{
    if k >= values.len() {
        out == Ok::<Lookup, SemanticError>(Lookup::Missing(occurrence))
    } else {
        exists|r: Result<Lookup, SemanticError>|
            #[trigger] candidate_lookup(r) && lookup(
                decoders,
                localized,
                selects,
                narrowed,
                element,
                values[k as int],
                target,
                occurrence,
                r,
            ) && match r {
                Ok(Lookup::Missing(remaining)) => lookup_items(
                    decoders,
                    localized,
                    selects,
                    narrowed,
                    element,
                    values,
                    target,
                    k + 1,
                    remaining,
                    out,
                ),
                _ => out == r,
            }
    }
}

/// A search result with the value found taken by view, and `remaining` matches still to
/// skip when none was found.
pub open spec fn lookup_of<'a>(
    res: Result<Option<&'a OwnedFieldValue>, SemanticError>,
    remaining: usize,
) -> Result<Lookup, SemanticError> {
    match res {
        Ok(Some(v)) => Ok(Lookup::Found(v@)),
        Ok(None) => Ok(Lookup::Missing(remaining as nat)),
        Err(e) => Err(e),
    }
}

/// One struct member searched: its outcome decides how the search over members goes on.
proof fn lemma_members_step<D: CustomDecoder>(
    decoders: Map<Seq<char>, RegisteredDecoder<D>>,
    localized: bool,
    selects: spec_fn(SchemaNode, usize, Seq<u8>, Result<Option<i64>, SemanticError>) -> bool,
    narrowed: spec_fn(u64, u32) -> bool,
    fields: Seq<SchemaNode>,
    values: Seq<SpecOwnedValue>,
    target: Seq<char>,
    k: nat,
    occurrence: nat,
    r: Result<Lookup, SemanticError>,
    out: Result<Lookup, SemanticError>,
)
    requires
        k < fields.len(),
        k < values.len(),
        lookup(decoders, localized, selects, narrowed, fields[k as int], values[k as int], target, occurrence, r),
        match r {
            Ok(Lookup::Missing(remaining)) => lookup_members(
                decoders,
                localized,
                selects,
                narrowed,
                fields,
                values,
                target,
                k + 1,
                remaining,
                out,
            ),
            _ => out == r,
        },
    ensures
        lookup_members(decoders, localized, selects, narrowed, fields, values, target, k, occurrence, out),
{
    assert(candidate_lookup(r));
}

/// One array item searched: its outcome decides how the search over items goes on.
proof fn lemma_items_step<D: CustomDecoder>(
    decoders: Map<Seq<char>, RegisteredDecoder<D>>,
    localized: bool,
    selects: spec_fn(SchemaNode, usize, Seq<u8>, Result<Option<i64>, SemanticError>) -> bool,
    narrowed: spec_fn(u64, u32) -> bool,
    element: SchemaNode,
    values: Seq<SpecOwnedValue>,
    target: Seq<char>,
    k: nat,
    occurrence: nat,
    r: Result<Lookup, SemanticError>,
    out: Result<Lookup, SemanticError>,
)
    requires
        k < values.len(),
        lookup(decoders, localized, selects, narrowed, element, values[k as int], target, occurrence, r),
        match r {
            Ok(Lookup::Missing(remaining)) => lookup_items(
                decoders,
                localized,
                selects,
                narrowed,
                element,
                values,
                target,
                k + 1,
                remaining,
                out,
            ),
            _ => out == r,
        },
    ensures
        lookup_items(decoders, localized, selects, narrowed, element, values, target, k, occurrence, out),
{
    assert(candidate_lookup(r));
}

/// Finds the value at match number `*occurrence` of the schema path `target_path` inside
/// `value`, read with `node`. Returns `None` when fewer matches exist; `*occurrence` then
/// holds how many of the requested ones were not found.
pub fn nested_value_at<'a, D, S, N>(
    node: &SchemaNode,
    value: &'a OwnedFieldValue,
    target_path: &str,
    occurrence: &mut usize,
    localized: bool,
    decoders: &DecoderRegistry<D>,
    selector: &S,
    narrow: &N,
) -> (res: Result<Option<&'a OwnedFieldValue>, SemanticError>)
    where
        D: CustomDecoder,
        S: Fn(&SchemaNode, usize, &Vec<u8>) -> Result<Option<i64>, SemanticError>,
        N: Fn(u64) -> u32,
    requires
        decoders.wf(),
        prefixes_reserved(*node),
        forall|bits: u64| narrow.requires((bits,)),
        forall|n: &SchemaNode, i: usize, p: &Vec<u8>| selector.requires((n, i, p)),
    ensures
        lookup(
            decoders@,
            localized,
            selection_of(*selector),
            narrowing_of(*narrow),
            *node,
            value@,
            target_path@,
            *old(occurrence) as nat,
            lookup_of(res, *final(occurrence)),
        ),
        res matches Ok(Some(_)) ==> *final(occurrence) == 0,
    decreases node,
{
    let ghost sels = selection_of(*selector);
    let ghost nars = narrowing_of(*narrow);
    if text_eq(node.path.as_str(), target_path) {
        if *occurrence == 0 {
            return Ok(Some(value));
        }
        *occurrence = *occurrence - 1;
        return Ok(None);
    }
    match &node.kind {
        SchemaNodeKind::Struct { fields } => match value {
            OwnedFieldValue::Struct(values) => {
                let ghost vs = value@->Struct_0;
                let ghost start = *occurrence as nat;
                let mut i: usize = 0;
                while i < fields.len() && i < values.len()
                    invariant
                        node.kind matches SchemaNodeKind::Struct { fields: f } && f == *fields,
                        node.path@ != target_path@,
                        value@ == SpecOwnedValue::Struct(vs),
                        vs.len() == values@.len(),
                        forall|j: int| 0 <= j < vs.len() ==> vs[j] == (#[trigger] values@[j])@,
                        prefixes_reserved(*node),
                        decoders.wf(),
                        forall|bits: u64| narrow.requires((bits,)),
                        forall|n: &SchemaNode, k: usize, p: &Vec<u8>| selector.requires((n, k, p)),
                        sels == selection_of(*selector),
                        nars == narrowing_of(*narrow),
                        i <= fields@.len(),
                        forall|out: Result<Lookup, SemanticError>|
                            lookup_members(decoders@, localized, sels, nars, fields@, vs, target_path@, i as nat, *occurrence as nat, out)
                                ==> #[trigger] lookup_members(
                                decoders@,
                                localized,
                                sels,
                                nars,
                                fields@,
                                vs,
                                target_path@,
                                0,
                                start,
                                out,
                            ),
                        start == *old(occurrence) as nat,
                    decreases fields.len() - i,
                {
                    assert(decreases_to!(*node => fields@[i as int]));
                    proof {
                        lemma_reserved_at(fields@, i as int);
                    }
                    let ghost before = *occurrence;
                    let r = nested_value_at(
                        &fields[i],
                        &values[i],
                        target_path,
                        occurrence,
                        localized,
                        decoders,
                        selector,
                        narrow,
                    );
                    proof {
                        let rr = lookup_of(r, *occurrence);
                        if !(rr matches Ok(Lookup::Missing(_))) {
                            lemma_members_step(
                                decoders@,
                                localized,
                                sels,
                                nars,
                                fields@,
                                vs,
                                target_path@,
                                i as nat,
                                before as nat,
                                rr,
                                rr,
                            );
                            assert(lookup_members(
                                decoders@,
                                localized,
                                sels,
                                nars,
                                fields@,
                                vs,
                                target_path@,
                                0,
                                start,
                                rr,
                            ));
                        }
                    }
                    match r {
                        Ok(None) => {},
                        _ => {
                            return r;
                        },
                    }
                    proof {
                        assert forall|out: Result<Lookup, SemanticError>|
                            lookup_members(
                                decoders@,
                                localized,
                                sels,
                                nars,
                                fields@,
                                vs,
                                target_path@,
                                (i + 1) as nat,
                                *occurrence as nat,
                                out,
                            ) implies #[trigger] lookup_members(
                            decoders@,
                            localized,
                            sels,
                            nars,
                            fields@,
                            vs,
                            target_path@,
                            0,
                            start,
                            out,
                        ) by {
                            lemma_members_step(
                                decoders@,
                                localized,
                                sels,
                                nars,
                                fields@,
                                vs,
                                target_path@,
                                i as nat,
                                before as nat,
                                lookup_of(r, *occurrence),
                                out,
                            );
                        }
                    }
                    i += 1;
                }
                assert(lookup_members(
                    decoders@,
                    localized,
                    sels,
                    nars,
                    fields@,
                    vs,
                    target_path@,
                    0,
                    start,
                    Ok(Lookup::Missing(*occurrence as nat)),
                ));
                Ok(None)
            },
            _ => Ok(None),
        },
        SchemaNodeKind::Array { element, .. } => match value {
            OwnedFieldValue::Array(values) => {
                let ghost vs = value@->Array_0;
                let ghost start = *occurrence as nat;
                let mut i: usize = 0;
                while i < values.len()
                    invariant
                        node.kind matches SchemaNodeKind::Array { element: el, .. } && el == *element,
                        node.path@ != target_path@,
                        value@ == SpecOwnedValue::Array(vs),
                        vs.len() == values@.len(),
                        forall|j: int| 0 <= j < vs.len() ==> vs[j] == (#[trigger] values@[j])@,
                        prefixes_reserved(*node),
                        decoders.wf(),
                        forall|bits: u64| narrow.requires((bits,)),
                        forall|n: &SchemaNode, k: usize, p: &Vec<u8>| selector.requires((n, k, p)),
                        sels == selection_of(*selector),
                        nars == narrowing_of(*narrow),
                        i <= values@.len(),
                        forall|out: Result<Lookup, SemanticError>|
                            lookup_items(decoders@, localized, sels, nars, **element, vs, target_path@, i as nat, *occurrence as nat, out)
                                ==> #[trigger] lookup_items(
                                decoders@,
                                localized,
                                sels,
                                nars,
                                **element,
                                vs,
                                target_path@,
                                0,
                                start,
                                out,
                            ),
                        start == *old(occurrence) as nat,
                    decreases values.len() - i,
                {
                    assert(decreases_to!(*node => **element));
                    let ghost before = *occurrence;
                    let r = nested_value_at(
                        element,
                        &values[i],
                        target_path,
                        occurrence,
                        localized,
                        decoders,
                        selector,
                        narrow,
                    );
                    proof {
                        let rr = lookup_of(r, *occurrence);
                        if !(rr matches Ok(Lookup::Missing(_))) {
                            lemma_items_step(
                                decoders@,
                                localized,
                                sels,
                                nars,
                                **element,
                                vs,
                                target_path@,
                                i as nat,
                                before as nat,
                                rr,
                                rr,
                            );
                            assert(lookup_items(
                                decoders@,
                                localized,
                                sels,
                                nars,
                                **element,
                                vs,
                                target_path@,
                                0,
                                start,
                                rr,
                            ));
                        }
                    }
                    match r {
                        Ok(None) => {},
                        _ => {
                            return r;
                        },
                    }
                    proof {
                        assert forall|out: Result<Lookup, SemanticError>|
                            lookup_items(
                                decoders@,
                                localized,
                                sels,
                                nars,
                                **element,
                                vs,
                                target_path@,
                                (i + 1) as nat,
                                *occurrence as nat,
                                out,
                            ) implies #[trigger] lookup_items(
                            decoders@,
                            localized,
                            sels,
                            nars,
                            **element,
                            vs,
                            target_path@,
                            0,
                            start,
                            out,
                        ) by {
                            lemma_items_step(
                                decoders@,
                                localized,
                                sels,
                                nars,
                                **element,
                                vs,
                                target_path@,
                                i as nat,
                                before as nat,
                                lookup_of(r, *occurrence),
                                out,
                            );
                        }
                    }
                    i += 1;
                }
                assert(lookup_items(
                    decoders@,
                    localized,
                    sels,
                    nars,
                    **element,
                    vs,
                    target_path@,
                    0,
                    start,
                    Ok(Lookup::Missing(*occurrence as nat)),
                ));
                Ok(None)
            },
            _ => Ok(None),
        },
        SchemaNodeKind::Union { variants, .. } => {
            let chosen = select_union_variant(node, value, localized, decoders, selector, narrow);
            proof {
                assert(candidate_choice(choice_of(chosen)));
            }
            match chosen {
                Err(e) => Err(e),
                Ok((index, _)) => {
                    proof {
                        lemma_choice_in_range(
                            decoders@,
                            localized,
                            sels,
                            nars,
                            *node,
                            variants@,
                            0,
                            value@,
                            index as nat,
                            choice_of(chosen)->Ok_0.1,
                        );
                        lemma_reserved_at(variants@, index as int);
                    }
                    assert(decreases_to!(*node => variants@[index as int]));
                    nested_value_at(
                        &variants[index],
                        value,
                        target_path,
                        occurrence,
                        localized,
                        decoders,
                        selector,
                        narrow,
                    )
                },
            }
        },
        SchemaNodeKind::Subrecord { payload, .. } => {
            assert(decreases_to!(*node => **payload));
            nested_value_at(payload, value, target_path, occurrence, localized, decoders, selector, narrow)
        },
        SchemaNodeKind::Compressed { child } => {
            assert(decreases_to!(*node => **child));
            nested_value_at(child, value, target_path, occurrence, localized, decoders, selector, narrow)
        },
        SchemaNodeKind::Terminated { child, .. } => {
            assert(decreases_to!(*node => **child));
            nested_value_at(child, value, target_path, occurrence, localized, decoders, selector, narrow)
        },
        _ => Ok(None),
    }
}

/// What a write at an occurrence of a schema path yields: the whole value with the match
/// replaced, or how many more matches remain to be skipped.
pub enum Update {
    Done(SpecOwnedValue),
    Missing(nat),
}

/// Marks a candidate write outcome; every outcome is one.
pub open spec fn candidate_update(r: Result<Update, SemanticError>) -> bool {
    true
}

/// The error of a write that reaches its match with no replacement value left.
pub open spec fn no_replacement(e: SemanticError) -> bool {
    handler_error_is(e, "def.after_set"@, "local mutation has no replacement value"@)
}

/// An optional owned value taken by view.
pub open spec fn owned_option(o: Option<OwnedFieldValue>) -> Option<SpecOwnedValue> {
    match o {
        Some(v) => Some(v@),
        None => None,
    }
}

/// Whether `out` is a possible outcome of replacing, inside `value` read with `node`, the
/// match number `occurrence` of the node at `target` with `replacement`. Matches are
/// counted as [`lookup`] counts them; reaching the match with no replacement is an error.
pub open spec fn update<D: CustomDecoder>(
    decoders: Map<Seq<char>, RegisteredDecoder<D>>,
    localized: bool,
    selects: spec_fn(SchemaNode, usize, Seq<u8>, Result<Option<i64>, SemanticError>) -> bool,
    narrowed: spec_fn(u64, u32) -> bool,
    node: SchemaNode,
    value: SpecOwnedValue,
    target: Seq<char>,
    occurrence: nat,
    replacement: Option<SpecOwnedValue>,
    out: Result<Update, SemanticError>,
) -> bool
    decreases node, 0nat,
{
    if node.path@ == target {
        if occurrence == 0 {
            match replacement {
                Some(r) => out == Ok::<Update, SemanticError>(Update::Done(r)),
                None => out matches Err(e) && no_replacement(e),
            }
        } else {
            out == Ok::<Update, SemanticError>(Update::Missing((occurrence - 1) as nat))
        }
    } else {
        match (node.kind, value) {
            (SchemaNodeKind::Struct { fields }, SpecOwnedValue::Struct(values)) => update_members(
                decoders,
                localized,
                selects,
                narrowed,
                fields@,
                values,
                target,
                0,
                occurrence,
                replacement,
                out,
            ),
            (SchemaNodeKind::Array { element, .. }, SpecOwnedValue::Array(values)) => update_items(
                decoders,
                localized,
                selects,
                narrowed,
                *element,
                values,
                target,
                0,
                occurrence,
                replacement,
                out,
            ),
            (SchemaNodeKind::Union { variants, .. }, _) => exists|
                c: Result<(nat, Seq<u8>), SemanticError>,
            |
                #[trigger] candidate_choice(c) && union_choice(
                    decoders,
                    localized,
                    selects,
                    narrowed,
                    node,
                    variants@,
                    0,
                    value,
                    c,
                ) && match c {
                    Ok((i, _)) => i < variants@.len() && update(
                        decoders,
                        localized,
                        selects,
                        narrowed,
                        variants@[i as int],
                        value,
                        target,
                        occurrence,
                        replacement,
                        out,
                    ),
                    Err(e) => out == Err::<Update, SemanticError>(e),
                },
            (SchemaNodeKind::Subrecord { payload, .. }, _) => update(
                decoders,
                localized,
                selects,
                narrowed,
                *payload,
                value,
                target,
                occurrence,
                replacement,
                out,
            ),
            (SchemaNodeKind::Compressed { child }, _) => update(
                decoders,
                localized,
                selects,
                narrowed,
                *child,
                value,
                target,
                occurrence,
                replacement,
                out,
            ),
            (SchemaNodeKind::Terminated { child, .. }, _) => update(
                decoders,
                localized,
                selects,
                narrowed,
                *child,
                value,
                target,
                occurrence,
                replacement,
                out,
            ),
            _ => out == Ok::<Update, SemanticError>(Update::Missing(occurrence)),
        }
    }
}

/// The write continued over struct members from member `k` on; a replaced member gives
/// the struct with that member changed.
pub open spec fn update_members<D: CustomDecoder>(
    decoders: Map<Seq<char>, RegisteredDecoder<D>>,
    localized: bool,
    selects: spec_fn(SchemaNode, usize, Seq<u8>, Result<Option<i64>, SemanticError>) -> bool,
    narrowed: spec_fn(u64, u32) -> bool,
    fields: Seq<SchemaNode>,
    values: Seq<SpecOwnedValue>,
    target: Seq<char>,
    k: nat,
    occurrence: nat,
    replacement: Option<SpecOwnedValue>,
    out: Result<Update, SemanticError>,
) -> bool
    decreases fields, fields.len() - k,
{
    if k >= fields.len() || k >= values.len() {
        out == Ok::<Update, SemanticError>(Update::Missing(occurrence))
    } else {
        exists|r: Result<Update, SemanticError>|
            #[trigger] candidate_update(r) && update(
                decoders,
                localized,
                selects,
                narrowed,
                fields[k as int],
                values[k as int],
                target,
                occurrence,
                replacement,
                r,
            ) && match r {
                Ok(Update::Missing(remaining)) => update_members(
                    decoders,
                    localized,
                    selects,
                    narrowed,
                    fields,
                    values,
                    target,
                    k + 1,
                    remaining,
                    replacement,
                    out,
                ),
                Ok(Update::Done(v)) => out == Ok::<Update, SemanticError>(
                    Update::Done(SpecOwnedValue::Struct(values.update(k as int, v))),
                ),
                Err(e) => out == Err::<Update, SemanticError>(e),
            }
    }
}

/// The write continued over array items from item `k` on; a replaced item gives the
/// array with that item changed.
pub open spec fn update_items<D: CustomDecoder>(
    decoders: Map<Seq<char>, RegisteredDecoder<D>>,
    localized: bool,
    selects: spec_fn(SchemaNode, usize, Seq<u8>, Result<Option<i64>, SemanticError>) -> bool,
    narrowed: spec_fn(u64, u32) -> bool,
    element: SchemaNode,
    values: Seq<SpecOwnedValue>,
    target: Seq<char>,
    k: nat,
    occurrence: nat,
    replacement: Option<SpecOwnedValue>,
    out: Result<Update, SemanticError>,
) -> bool
    decreases element, values.len() - k,
{
    if k >= values.len() {
        out == Ok::<Update, SemanticError>(Update::Missing(occurrence))
    } else {
        exists|r: Result<Update, SemanticError>|
            #[trigger] candidate_update(r) && update(
                decoders,
                localized,
                selects,
                narrowed,
                element,
                values[k as int],
                target,
                occurrence,
                replacement,
                r,
            ) && match r {
                Ok(Update::Missing(remaining)) => update_items(
                    decoders,
                    localized,
                    selects,
                    narrowed,
                    element,
                    values,
                    target,
                    k + 1,
                    remaining,
                    replacement,
                    out,
                ),
                Ok(Update::Done(v)) => out == Ok::<Update, SemanticError>(
                    Update::Done(SpecOwnedValue::Array(values.update(k as int, v))),
                ),
                Err(e) => out == Err::<Update, SemanticError>(e),
            }
    }
}

/// A write result: `true` gives the written value, `false` the matches still to skip.
pub open spec fn update_of(
    res: Result<bool, SemanticError>,
    written: SpecOwnedValue,
    remaining: usize,
) -> Result<Update, SemanticError> {
    match res {
        Ok(true) => Ok(Update::Done(written)),
        Ok(false) => Ok(Update::Missing(remaining as nat)),
        Err(e) => Err(e),
    }
}

/// One struct member written: its outcome decides how the write goes on.
proof fn lemma_update_members_step<D: CustomDecoder>(
    decoders: Map<Seq<char>, RegisteredDecoder<D>>,
    localized: bool,
    selects: spec_fn(SchemaNode, usize, Seq<u8>, Result<Option<i64>, SemanticError>) -> bool,
    narrowed: spec_fn(u64, u32) -> bool,
    fields: Seq<SchemaNode>,
    values: Seq<SpecOwnedValue>,
    target: Seq<char>,
    k: nat,
    occurrence: nat,
    replacement: Option<SpecOwnedValue>,
    r: Result<Update, SemanticError>,
    out: Result<Update, SemanticError>,
)
    requires
        k < fields.len(),
        k < values.len(),
        update(
            decoders,
            localized,
            selects,
            narrowed,
            fields[k as int],
            values[k as int],
            target,
            occurrence,
            replacement,
            r,
        ),
        match r {
            Ok(Update::Missing(remaining)) => update_members(
                decoders,
                localized,
                selects,
                narrowed,
                fields,
                values,
                target,
                k + 1,
                remaining,
                replacement,
                out,
            ),
            Ok(Update::Done(v)) => out == Ok::<Update, SemanticError>(
                Update::Done(SpecOwnedValue::Struct(values.update(k as int, v))),
            ),
            Err(e) => out == Err::<Update, SemanticError>(e),
        },
    ensures
        update_members(decoders, localized, selects, narrowed, fields, values, target, k, occurrence, replacement, out),
{
    assert(candidate_update(r));
}

/// One array item written: its outcome decides how the write goes on.
proof fn lemma_update_items_step<D: CustomDecoder>(
    decoders: Map<Seq<char>, RegisteredDecoder<D>>,
    localized: bool,
    selects: spec_fn(SchemaNode, usize, Seq<u8>, Result<Option<i64>, SemanticError>) -> bool,
    narrowed: spec_fn(u64, u32) -> bool,
    element: SchemaNode,
    values: Seq<SpecOwnedValue>,
    target: Seq<char>,
    k: nat,
    occurrence: nat,
    replacement: Option<SpecOwnedValue>,
    r: Result<Update, SemanticError>,
    out: Result<Update, SemanticError>,
)
    requires
        
        k < values.len(),
        update(
            decoders,
            localized,
            selects,
            narrowed,
            element,
            values[k as int],
            target,
            occurrence,
            replacement,
            r,
        ),
        match r {
            Ok(Update::Missing(remaining)) => update_items(
                decoders,
                localized,
                selects,
                narrowed,
                element,
                values,
                target,
                k + 1,
                remaining,
                replacement,
                out,
            ),
            Ok(Update::Done(v)) => out == Ok::<Update, SemanticError>(
                Update::Done(SpecOwnedValue::Array(values.update(k as int, v))),
            ),
            Err(e) => out == Err::<Update, SemanticError>(e),
        },
    ensures
        update_items(decoders, localized, selects, narrowed, element, values, target, k, occurrence, replacement, out),
{
    assert(candidate_update(r));
}

/// Replaces the value at match number `*occurrence` of the schema path `target_path`
/// inside `value`, read with `node`, with the value taken out of `replacement`. Returns
/// `false`, with `value` and `replacement` unchanged, when fewer matches exist;
/// `*occurrence` then holds how many of the requested ones were not found.
pub fn set_nested_value<D, S, N>(
    node: &SchemaNode,
    value: &mut OwnedFieldValue,
    target_path: &str,
    occurrence: &mut usize,
    replacement: &mut Option<OwnedFieldValue>,
    localized: bool,
    decoders: &DecoderRegistry<D>,
    selector: &S,
    narrow: &N,
) -> (res: Result<bool, SemanticError>)
    where
        D: CustomDecoder,
        S: Fn(&SchemaNode, usize, &Vec<u8>) -> Result<Option<i64>, SemanticError>,
        N: Fn(u64) -> u32,
    requires
        decoders.wf(),
        prefixes_reserved(*node),
        forall|bits: u64| narrow.requires((bits,)),
        forall|n: &SchemaNode, i: usize, p: &Vec<u8>| selector.requires((n, i, p)),
    ensures
        update(
            decoders@,
            localized,
            selection_of(*selector),
            narrowing_of(*narrow),
            *node,
            old(value)@,
            target_path@,
            *old(occurrence) as nat,
            owned_option(*old(replacement)),
            update_of(res, final(value)@, *final(occurrence)),
        ),
        res matches Ok(true) ==> *final(occurrence) == 0 && *final(replacement) is None,
        !(res matches Ok(true)) ==> final(value)@ == old(value)@ && *final(replacement)
            == *old(replacement),
    decreases node,
{
    let ghost sels = selection_of(*selector);
    let ghost nars = narrowing_of(*narrow);
    let ghost original = value@;
    let ghost initial = *replacement;
    if text_eq(node.path.as_str(), target_path) {
        if *occurrence == 0 {
            return match replacement.take() {
                Some(r) => {
                    *value = r;
                    Ok(true)
                },
                None => Err(
                    SemanticError::Handler {
                        handler: String::from_str("def.after_set"),
                        message: String::from_str("local mutation has no replacement value"),
                    },
                ),
            };
        }
        *occurrence = *occurrence - 1;
        return Ok(false);
    }
    match &node.kind {
        SchemaNodeKind::Struct { fields } => {
            let mut taken = OwnedFieldValue::Absent;
            std::mem::swap(&mut taken, value);
            match taken {
                OwnedFieldValue::Struct(mut values) => {
                    let ghost vs = original->Struct_0;
                    let ghost start = *occurrence as nat;
                    let mut i: usize = 0;
                    while i < fields.len() && i < values.len()
                        invariant
                            node.kind matches SchemaNodeKind::Struct { fields: f } && f == *fields,
                            node.path@ != target_path@,
                            original == SpecOwnedValue::Struct(vs),
                            vs.len() == values@.len(),
                            forall|j: int| 0 <= j < vs.len() ==> vs[j] == (#[trigger] values@[j])@,
                            prefixes_reserved(*node),
                            decoders.wf(),
                            forall|bits: u64| narrow.requires((bits,)),
                            forall|n: &SchemaNode, k: usize, p: &Vec<u8>| selector.requires((n, k, p)),
                            sels == selection_of(*selector),
                            nars == narrowing_of(*narrow),
                            i <= fields@.len(),
                            *replacement == initial,
                            initial == *old(replacement),
                            original == old(value)@,
                            start == *old(occurrence) as nat,
                            forall|out: Result<Update, SemanticError>|
                                update_members(
                                    decoders@,
                                    localized,
                                    sels,
                                    nars,
                                    fields@,
                                    vs,
                                    target_path@,
                                    i as nat,
                                    *occurrence as nat,
                                    owned_option(initial),
                                    out,
                                ) ==> #[trigger] update_members(
                                    decoders@,
                                    localized,
                                    sels,
                                    nars,
                                    fields@,
                                    vs,
                                    target_path@,
                                    0,
                                    start,
                                    owned_option(initial),
                                    out,
                                ),
                        decreases values.len() - i,
                    {
                        assert(decreases_to!(*node => fields@[i as int]));
                        proof {
                            lemma_reserved_at(fields@, i as int);
                        }
                        let ghost before = *occurrence;
                        let r = set_nested_value(
                            &fields[i],
                            &mut values[i],
                            target_path,
                            occurrence,
                            replacement,
                            localized,
                            decoders,
                            selector,
                            narrow,
                        );
                        let ghost written = values@[i as int]@;
                        let ghost rr = update_of(r, written, *occurrence);
                        match r {
                            Ok(false) => {},
                            _ => {
                                let ghost out = match rr {
                                    Ok(Update::Done(v)) => Ok(Update::Done(SpecOwnedValue::Struct(vs.update(i as int, v)))),
                                    _ => rr,
                                };
                                proof {
                                    lemma_update_members_step(
                                        decoders@,
                                        localized,
                                        sels,
                                        nars,
                                        fields@,
                                        vs,
                                        target_path@,
                                        i as nat,
                                        before as nat,
                                        owned_option(initial),
                                        rr,
                                        out,
                                    );
                                    assert(update_members(
                                        decoders@,
                                        localized,
                                        sels,
                                        nars,
                                        fields@,
                                        vs,
                                        target_path@,
                                        0,
                                        start,
                                        owned_option(initial),
                                        out,
                                    ));
                                }
                                *value = OwnedFieldValue::Struct(values);
                                proof {
                                    if r is Ok {
                                        assert(value@->Struct_0 =~= vs.update(i as int, written));
                                    } else {
                                        assert(value@->Struct_0 =~= vs);
                                    }
                                }
                                return r;
                            },
                        }
                        proof {
                            assert forall|out: Result<Update, SemanticError>|
                                update_members(
                                    decoders@,
                                    localized,
                                    sels,
                                    nars,
                                    fields@,
                                    vs,
                                    target_path@,
                                    (i + 1) as nat,
                                    *occurrence as nat,
                                    owned_option(initial),
                                    out,
                                ) implies #[trigger] update_members(
                                decoders@,
                                localized,
                                sels,
                                nars,
                                fields@,
                                vs,
                                target_path@,
                                0,
                                start,
                                owned_option(initial),
                                out,
                            ) by {
                                lemma_update_members_step(
                                    decoders@,
                                    localized,
                                    sels,
                                    nars,
                                    fields@,
                                    vs,
                                    target_path@,
                                    i as nat,
                                    before as nat,
                                    owned_option(initial),
                                    rr,
                                    out,
                                );
                            }
                        }
                        i += 1;
                    }
                    assert(update_members(
                        decoders@,
                        localized,
                        sels,
                        nars,
                        fields@,
                        vs,
                        target_path@,
                        0,
                        start,
                        owned_option(initial),
                        Ok(Update::Missing(*occurrence as nat)),
                    ));
                    *value = OwnedFieldValue::Struct(values);
                    proof {
                        assert(value@->Struct_0 =~= vs);
                    }
                    Ok(false)
                },
                other => {
                    *value = other;
                    Ok(false)
                },
            }
        },
        SchemaNodeKind::Array { element, .. } => {
            let mut taken = OwnedFieldValue::Absent;
            std::mem::swap(&mut taken, value);
            match taken {
                OwnedFieldValue::Array(mut values) => {
                    let ghost vs = original->Array_0;
                    let ghost start = *occurrence as nat;
                    let mut i: usize = 0;
                    while i < values.len()
                        invariant
                            node.kind matches SchemaNodeKind::Array { element: el, .. } && el == *element,
                            node.path@ != target_path@,
                            original == SpecOwnedValue::Array(vs),
                            vs.len() == values@.len(),
                            forall|j: int| 0 <= j < vs.len() ==> vs[j] == (#[trigger] values@[j])@,
                            prefixes_reserved(*node),
                            decoders.wf(),
                            forall|bits: u64| narrow.requires((bits,)),
                            forall|n: &SchemaNode, k: usize, p: &Vec<u8>| selector.requires((n, k, p)),
                            sels == selection_of(*selector),
                            nars == narrowing_of(*narrow),
                            i <= values@.len(),
                            *replacement == initial,
                            initial == *old(replacement),
                            original == old(value)@,
                            start == *old(occurrence) as nat,
                            forall|out: Result<Update, SemanticError>|
                                update_items(
                                    decoders@,
                                    localized,
                                    sels,
                                    nars,
                                    **element,
                                    vs,
                                    target_path@,
                                    i as nat,
                                    *occurrence as nat,
                                    owned_option(initial),
                                    out,
                                ) ==> #[trigger] update_items(
                                    decoders@,
                                    localized,
                                    sels,
                                    nars,
                                    **element,
                                    vs,
                                    target_path@,
                                    0,
                                    start,
                                    owned_option(initial),
                                    out,
                                ),
                        decreases values.len() - i,
                    {
                        assert(decreases_to!(*node => **element));
                        let ghost before = *occurrence;
                        let r = set_nested_value(
                            element,
                            &mut values[i],
                            target_path,
                            occurrence,
                            replacement,
                            localized,
                            decoders,
                            selector,
                            narrow,
                        );
                        let ghost written = values@[i as int]@;
                        let ghost rr = update_of(r, written, *occurrence);
                        match r {
                            Ok(false) => {},
                            _ => {
                                let ghost out = match rr {
                                    Ok(Update::Done(v)) => Ok(Update::Done(SpecOwnedValue::Array(vs.update(i as int, v)))),
                                    _ => rr,
                                };
                                proof {
                                    lemma_update_items_step(
                                        decoders@,
                                        localized,
                                        sels,
                                        nars,
                                        **element,
                                        vs,
                                        target_path@,
                                        i as nat,
                                        before as nat,
                                        owned_option(initial),
                                        rr,
                                        out,
                                    );
                                    assert(update_items(
                                        decoders@,
                                        localized,
                                        sels,
                                        nars,
                                        **element,
                                        vs,
                                        target_path@,
                                        0,
                                        start,
                                        owned_option(initial),
                                        out,
                                    ));
                                }
                                *value = OwnedFieldValue::Array(values);
                                proof {
                                    if r is Ok {
                                        assert(value@->Array_0 =~= vs.update(i as int, written));
                                    } else {
                                        assert(value@->Array_0 =~= vs);
                                    }
                                }
                                return r;
                            },
                        }
                        proof {
                            assert forall|out: Result<Update, SemanticError>|
                                update_items(
                                    decoders@,
                                    localized,
                                    sels,
                                    nars,
                                    **element,
                                    vs,
                                    target_path@,
                                    (i + 1) as nat,
                                    *occurrence as nat,
                                    owned_option(initial),
                                    out,
                                ) implies #[trigger] update_items(
                                decoders@,
                                localized,
                                sels,
                                nars,
                                **element,
                                vs,
                                target_path@,
                                0,
                                start,
                                owned_option(initial),
                                out,
                            ) by {
                                lemma_update_items_step(
                                    decoders@,
                                    localized,
                                    sels,
                                    nars,
                                    **element,
                                    vs,
                                    target_path@,
                                    i as nat,
                                    before as nat,
                                    owned_option(initial),
                                    rr,
                                    out,
                                );
                            }
                        }
                        i += 1;
                    }
                    assert(update_items(
                        decoders@,
                        localized,
                        sels,
                        nars,
                        **element,
                        vs,
                        target_path@,
                        0,
                        start,
                        owned_option(initial),
                        Ok(Update::Missing(*occurrence as nat)),
                    ));
                    *value = OwnedFieldValue::Array(values);
                    proof {
                        assert(value@->Array_0 =~= vs);
                    }
                    Ok(false)
                },
                other => {
                    *value = other;
                    Ok(false)
                },
            }
        },
        SchemaNodeKind::Union { variants, .. } => {
            let chosen = select_union_variant(node, &*value, localized, decoders, selector, narrow);
            proof {
                assert(candidate_choice(choice_of(chosen)));
            }
            match chosen {
                Err(e) => Err(e),
                Ok((index, _)) => {
                    proof {
                        lemma_choice_in_range(
                            decoders@,
                            localized,
                            sels,
                            nars,
                            *node,
                            variants@,
                            0,
                            original,
                            index as nat,
                            choice_of(chosen)->Ok_0.1,
                        );
                        lemma_reserved_at(variants@, index as int);
                    }
                    assert(decreases_to!(*node => variants@[index as int]));
                    set_nested_value(
                        &variants[index],
                        value,
                        target_path,
                        occurrence,
                        replacement,
                        localized,
                        decoders,
                        selector,
                        narrow,
                    )
                },
            }
        },
        SchemaNodeKind::Subrecord { payload, .. } => {
            assert(decreases_to!(*node => **payload));
            set_nested_value(
                payload,
                value,
                target_path,
                occurrence,
                replacement,
                localized,
                decoders,
                selector,
                narrow,
            )
        },
        SchemaNodeKind::Compressed { child } => {
            assert(decreases_to!(*node => **child));
            set_nested_value(
                child,
                value,
                target_path,
                occurrence,
                replacement,
                localized,
                decoders,
                selector,
                narrow,
            )
        },
        SchemaNodeKind::Terminated { child, .. } => {
            assert(decreases_to!(*node => **child));
            set_nested_value(
                child,
                value,
                target_path,
                occurrence,
                replacement,
                localized,
                decoders,
                selector,
                narrow,
            )
        },
        _ => Ok(false),
    }
}

/// A fresh-value result as the outcome of a reset at its match.
pub open spec fn reset_of(r: Result<SpecOwnedValue, SemanticError>) -> Result<Update, SemanticError> {
    match r {
        Ok(v) => Ok(Update::Done(v)),
        Err(e) => Err(e),
    }
}

/// Whether `out` is a possible outcome of resetting, inside `value` read with `node` at
/// the array indices `indices`, the match number `occurrence` of the node at `target` to
/// a fresh value built with [`defaults`]. Matches are counted as [`lookup`] counts them.
pub open spec fn resets<D: CustomDecoder>(
    decoders: Map<Seq<char>, RegisteredDecoder<D>>,
    localized: bool,
    selects: spec_fn(SchemaNode, usize, Seq<u8>, Result<Option<i64>, SemanticError>) -> bool,
    narrowed: spec_fn(u64, u32) -> bool,
    picks: spec_fn(SchemaNode, Result<i64, SemanticError>) -> bool,
    finishes: spec_fn(SchemaNode, SpecOwnedValue, Seq<usize>, Result<SpecOwnedValue, SemanticError>) -> bool,
    node: SchemaNode,
    value: SpecOwnedValue,
    target: Seq<char>,
    occurrence: nat,
    indices: Seq<usize>,
    out: Result<Update, SemanticError>,
) -> bool
    decreases node, 0nat,
{
    if node.path@ == target {
        if occurrence == 0 {
            exists|r: Result<SpecOwnedValue, SemanticError>|
                #[trigger] candidate_default(r) && defaults(localized, picks, finishes, node, 0, indices, r)
                    && out == reset_of(r)
        } else {
            out == Ok::<Update, SemanticError>(Update::Missing((occurrence - 1) as nat))
        }
    } else {
        match (node.kind, value) {
            (SchemaNodeKind::Struct { fields }, SpecOwnedValue::Struct(values)) => resets_members(
                decoders, localized, selects, narrowed, picks, finishes,
                fields@,
                values,
                target,
                0,
                occurrence,
                indices,
                out,
            ),
            (SchemaNodeKind::Array { element, .. }, SpecOwnedValue::Array(values)) => resets_items(
                decoders, localized, selects, narrowed, picks, finishes,
                *element,
                values,
                target,
                0,
                occurrence,
                indices,
                out,
            ),
            (SchemaNodeKind::Union { variants, .. }, _) => exists|
                c: Result<(nat, Seq<u8>), SemanticError>,
            |
                #[trigger] candidate_choice(c) && union_choice(
                    decoders,
                    localized,
                    selects,
                    narrowed,
                    node,
                    variants@,
                    0,
                    value,
                    c,
                ) && match c {
                    Ok((i, _)) => i < variants@.len() && resets(
                        decoders, localized, selects, narrowed, picks, finishes,
                        variants@[i as int],
                        value,
                        target,
                        occurrence,
                        indices,
                        out,
                    ),
                    Err(e) => out == Err::<Update, SemanticError>(e),
                },
            (SchemaNodeKind::Subrecord { payload, .. }, _) => resets(
                decoders, localized, selects, narrowed, picks, finishes,
                *payload,
                value,
                target,
                occurrence,
                indices,
                out,
            ),
            (SchemaNodeKind::Compressed { child }, _) => resets(
                decoders, localized, selects, narrowed, picks, finishes,
                *child,
                value,
                target,
                occurrence,
                indices,
                out,
            ),
            (SchemaNodeKind::Terminated { child, .. }, _) => resets(
                decoders, localized, selects, narrowed, picks, finishes,
                *child,
                value,
                target,
                occurrence,
                indices,
                out,
            ),
            _ => out == Ok::<Update, SemanticError>(Update::Missing(occurrence)),
        }
    }
}

/// The reset continued over struct members from member `k` on.
pub open spec fn resets_members<D: CustomDecoder>(
    decoders: Map<Seq<char>, RegisteredDecoder<D>>,
    localized: bool,
    selects: spec_fn(SchemaNode, usize, Seq<u8>, Result<Option<i64>, SemanticError>) -> bool,
    narrowed: spec_fn(u64, u32) -> bool,
    picks: spec_fn(SchemaNode, Result<i64, SemanticError>) -> bool,
    finishes: spec_fn(SchemaNode, SpecOwnedValue, Seq<usize>, Result<SpecOwnedValue, SemanticError>) -> bool,
    fields: Seq<SchemaNode>,
    values: Seq<SpecOwnedValue>,
    target: Seq<char>,
    k: nat,
    occurrence: nat,
    indices: Seq<usize>,
    out: Result<Update, SemanticError>,
) -> bool
    decreases fields, fields.len() - k,
{
    if k >= fields.len() || k >= values.len() {
        out == Ok::<Update, SemanticError>(Update::Missing(occurrence))
    } else {
        exists|r: Result<Update, SemanticError>|
            #[trigger] candidate_update(r) && resets(
                decoders, localized, selects, narrowed, picks, finishes,
                fields[k as int],
                values[k as int],
                target,
                occurrence,
                indices,
                r,
            ) && match r {
                Ok(Update::Missing(remaining)) => resets_members(
                    decoders, localized, selects, narrowed, picks, finishes,
                    fields,
                    values,
                    target,
                    k + 1,
                    remaining,
                    indices,
                    out,
                ),
                Ok(Update::Done(v)) => out == Ok::<Update, SemanticError>(
                    Update::Done(SpecOwnedValue::Struct(values.update(k as int, v))),
                ),
                Err(e) => out == Err::<Update, SemanticError>(e),
            }
    }
}

/// The reset continued over array items from item `k` on, each at its own index
/// appended to `indices`.
pub open spec fn resets_items<D: CustomDecoder>(
    decoders: Map<Seq<char>, RegisteredDecoder<D>>,
    localized: bool,
    selects: spec_fn(SchemaNode, usize, Seq<u8>, Result<Option<i64>, SemanticError>) -> bool,
    narrowed: spec_fn(u64, u32) -> bool,
    picks: spec_fn(SchemaNode, Result<i64, SemanticError>) -> bool,
    finishes: spec_fn(SchemaNode, SpecOwnedValue, Seq<usize>, Result<SpecOwnedValue, SemanticError>) -> bool,
    element: SchemaNode,
    values: Seq<SpecOwnedValue>,
    target: Seq<char>,
    k: nat,
    occurrence: nat,
    indices: Seq<usize>,
    out: Result<Update, SemanticError>,
) -> bool
    decreases element, values.len() - k,
{
    if k >= values.len() {
        out == Ok::<Update, SemanticError>(Update::Missing(occurrence))
    } else {
        exists|r: Result<Update, SemanticError>|
            #[trigger] candidate_update(r) && resets(
                decoders, localized, selects, narrowed, picks, finishes,
                element,
                values[k as int],
                target,
                occurrence,
                indices.push(k as usize),
                r,
            ) && match r {
                Ok(Update::Missing(remaining)) => resets_items(
                    decoders, localized, selects, narrowed, picks, finishes,
                    element,
                    values,
                    target,
                    k + 1,
                    remaining,
                    indices,
                    out,
                ),
                Ok(Update::Done(v)) => out == Ok::<Update, SemanticError>(
                    Update::Done(SpecOwnedValue::Array(values.update(k as int, v))),
                ),
                Err(e) => out == Err::<Update, SemanticError>(e),
            }
    }
}

/// One struct member reset: its outcome decides how the reset goes on.
proof fn lemma_resets_members_step<D: CustomDecoder>(
    decoders: Map<Seq<char>, RegisteredDecoder<D>>,
    localized: bool,
    selects: spec_fn(SchemaNode, usize, Seq<u8>, Result<Option<i64>, SemanticError>) -> bool,
    narrowed: spec_fn(u64, u32) -> bool,
    picks: spec_fn(SchemaNode, Result<i64, SemanticError>) -> bool,
    finishes: spec_fn(SchemaNode, SpecOwnedValue, Seq<usize>, Result<SpecOwnedValue, SemanticError>) -> bool,
    fields: Seq<SchemaNode>,
    values: Seq<SpecOwnedValue>,
    target: Seq<char>,
    k: nat,
    occurrence: nat,
    indices: Seq<usize>,
    r: Result<Update, SemanticError>,
    out: Result<Update, SemanticError>,
)
    requires
        k < fields.len(),
        k < values.len(),
        resets(decoders, localized, selects, narrowed, picks, finishes, fields[k as int], values[k as int], target, occurrence, indices, r),
        match r {
            Ok(Update::Missing(remaining)) => resets_members(
                decoders, localized, selects, narrowed, picks, finishes,
                fields,
                values,
                target,
                k + 1,
                remaining,
                indices,
                out,
            ),
            Ok(Update::Done(v)) => out == Ok::<Update, SemanticError>(
                Update::Done(SpecOwnedValue::Struct(values.update(k as int, v))),
            ),
            Err(e) => out == Err::<Update, SemanticError>(e),
        },
    ensures
        resets_members(decoders, localized, selects, narrowed, picks, finishes, fields, values, target, k, occurrence, indices, out),
{
    assert(candidate_update(r));
}

/// One array item reset: its outcome decides how the reset goes on.
proof fn lemma_resets_items_step<D: CustomDecoder>(
    decoders: Map<Seq<char>, RegisteredDecoder<D>>,
    localized: bool,
    selects: spec_fn(SchemaNode, usize, Seq<u8>, Result<Option<i64>, SemanticError>) -> bool,
    narrowed: spec_fn(u64, u32) -> bool,
    picks: spec_fn(SchemaNode, Result<i64, SemanticError>) -> bool,
    finishes: spec_fn(SchemaNode, SpecOwnedValue, Seq<usize>, Result<SpecOwnedValue, SemanticError>) -> bool,
    element: SchemaNode,
    values: Seq<SpecOwnedValue>,
    target: Seq<char>,
    k: nat,
    occurrence: nat,
    indices: Seq<usize>,
    r: Result<Update, SemanticError>,
    out: Result<Update, SemanticError>,
)
    requires
        
        k < values.len(),
        resets(decoders, localized, selects, narrowed, picks, finishes, element, values[k as int], target, occurrence, indices.push(k as usize), r),
        match r {
            Ok(Update::Missing(remaining)) => resets_items(
                decoders, localized, selects, narrowed, picks, finishes,
                element,
                values,
                target,
                k + 1,
                remaining,
                indices,
                out,
            ),
            Ok(Update::Done(v)) => out == Ok::<Update, SemanticError>(
                Update::Done(SpecOwnedValue::Array(values.update(k as int, v))),
            ),
            Err(e) => out == Err::<Update, SemanticError>(e),
        },
    ensures
        resets_items(decoders, localized, selects, narrowed, picks, finishes, element, values, target, k, occurrence, indices, out),
{
    assert(candidate_update(r));
}

/// Resets the value at match number `*occurrence` of the schema path `target_path`
/// inside `value`, read with `node` at the array indices `array_indices`, to a fresh
/// value for its node (see [`default_value_for_node`]). Returns `false`, with `value`
/// unchanged, when fewer matches exist; `*occurrence` then holds how many of the
/// requested ones were not found.
pub fn reset_nested_value<D, S, N, C, F>(
    node: &SchemaNode,
    value: &mut OwnedFieldValue,
    target_path: &str,
    occurrence: &mut usize,
    array_indices: &Vec<usize>,
    localized: bool,
    decoders: &DecoderRegistry<D>,
    selector: &S,
    narrow: &N,
    pick: &C,
    finish: &F,
) -> (res: Result<bool, SemanticError>)
    where
        D: CustomDecoder,
        S: Fn(&SchemaNode, usize, &Vec<u8>) -> Result<Option<i64>, SemanticError>,
        N: Fn(u64) -> u32,
        C: Fn(&SchemaNode) -> Result<i64, SemanticError>,
        F: Fn(&SchemaNode, OwnedFieldValue, &Vec<usize>) -> Result<OwnedFieldValue, SemanticError>,
    requires
        decoders.wf(),
        prefixes_reserved(*node),
        forall|bits: u64| narrow.requires((bits,)),
        forall|n: &SchemaNode, i: usize, p: &Vec<u8>| selector.requires((n, i, p)),
        forall|n: &SchemaNode| pick.requires((n,)),
        forall|n: &SchemaNode, v: OwnedFieldValue, ix: &Vec<usize>| finish.requires((n, v, ix)),
    ensures
        resets(
            decoders@,
            localized,
            selection_of(*selector),
            narrowing_of(*narrow),
            picking_of(*pick),
            finishing_of(*finish),
            *node,
            old(value)@,
            target_path@,
            *old(occurrence) as nat,
            array_indices@,
            update_of(res, final(value)@, *final(occurrence)),
        ),
        res matches Ok(true) ==> *final(occurrence) == 0,
        !(res matches Ok(true)) ==> final(value)@ == old(value)@,
    decreases node,
{
    let ghost sels = selection_of(*selector);
    let ghost nars = narrowing_of(*narrow);
    let ghost picks = picking_of(*pick);
    let ghost finishes = finishing_of(*finish);
    let ghost original = value@;
    if text_eq(node.path.as_str(), target_path) {
        if *occurrence == 0 {
            let fresh = default_value_for_node(node, localized, 0, array_indices, pick, finish);
            proof {
                assert(candidate_default(crate::defaults::owned_result(fresh)));
            }
            return match fresh {
                Ok(v) => {
                    *value = v;
                    Ok(true)
                },
                Err(e) => Err(e),
            };
        }
        *occurrence = *occurrence - 1;
        return Ok(false);
    }
    match &node.kind {
        SchemaNodeKind::Struct { fields } => {
            let mut taken = OwnedFieldValue::Absent;
            std::mem::swap(&mut taken, value);
            match taken {
                OwnedFieldValue::Struct(mut values) => {
                    let ghost vs = original->Struct_0;
                    let ghost start = *occurrence as nat;
                    let mut i: usize = 0;
                    while i < fields.len() && i < values.len()
                        invariant
                            node.kind matches SchemaNodeKind::Struct { fields: f } && f == *fields,
                            node.path@ != target_path@,
                            original == SpecOwnedValue::Struct(vs),
                            original == old(value)@,
                            vs.len() == values@.len(),
                            forall|j: int| 0 <= j < vs.len() ==> vs[j] == (#[trigger] values@[j])@,
                            prefixes_reserved(*node),
                            decoders.wf(),
                            forall|bits: u64| narrow.requires((bits,)),
                            forall|n: &SchemaNode, k: usize, p: &Vec<u8>| selector.requires((n, k, p)),
                            forall|n: &SchemaNode| pick.requires((n,)),
                            forall|n: &SchemaNode, v: OwnedFieldValue, ix: &Vec<usize>| finish.requires((n, v, ix)),
                            sels == selection_of(*selector),
                            nars == narrowing_of(*narrow),
                            picks == picking_of(*pick),
                            finishes == finishing_of(*finish),
                            i <= fields@.len(),
                            start == *old(occurrence) as nat,
                            forall|out: Result<Update, SemanticError>|
                                resets_members(
                                    decoders@, localized, sels, nars, picks, finishes,
                                    fields@,
                                    vs,
                                    target_path@,
                                    i as nat,
                                    *occurrence as nat,
                                    array_indices@,
                                    out,
                                ) ==> #[trigger] resets_members(
                                    decoders@, localized, sels, nars, picks, finishes,
                                    fields@,
                                    vs,
                                    target_path@,
                                    0,
                                    start,
                                    array_indices@,
                                    out,
                                ),
                        decreases values.len() - i,
                    {
                        assert(decreases_to!(*node => fields@[i as int]));
                        proof {
                            lemma_reserved_at(fields@, i as int);
                        }
                        
                        let ghost before = *occurrence;
                        let r = reset_nested_value(
                            &fields[i],
                            &mut values[i],
                            target_path,
                            occurrence,
                            array_indices,
                            localized,
                            decoders,
                            selector,
                            narrow,
                            pick,
                            finish,
                        );
                        let ghost written = values@[i as int]@;
                        let ghost rr = update_of(r, written, *occurrence);
                        match r {
                            Ok(false) => {},
                            _ => {
                                let ghost out = match rr {
                                    Ok(Update::Done(v)) => Ok(Update::Done(SpecOwnedValue::Struct(vs.update(i as int, v)))),
                                    _ => rr,
                                };
                                proof {
                                    lemma_resets_members_step(
                                        decoders@, localized, sels, nars, picks, finishes,
                                        fields@,
                                        vs,
                                        target_path@,
                                        i as nat,
                                        before as nat,
                                        array_indices@,
                                        rr,
                                        out,
                                    );
                                    assert(resets_members(
                                        decoders@, localized, sels, nars, picks, finishes,
                                        fields@,
                                        vs,
                                        target_path@,
                                        0,
                                        start,
                                        array_indices@,
                                        out,
                                    ));
                                }
                                *value = OwnedFieldValue::Struct(values);
                                proof {
                                    if r is Ok {
                                        assert(value@->Struct_0 =~= vs.update(i as int, written));
                                    } else {
                                        assert(value@->Struct_0 =~= vs);
                                    }
                                }
                                return r;
                            },
                        }
                        proof {
                            assert forall|out: Result<Update, SemanticError>|
                                resets_members(
                                    decoders@, localized, sels, nars, picks, finishes,
                                    fields@,
                                    vs,
                                    target_path@,
                                    (i + 1) as nat,
                                    *occurrence as nat,
                                    array_indices@,
                                    out,
                                ) implies #[trigger] resets_members(
                                decoders@, localized, sels, nars, picks, finishes,
                                fields@,
                                vs,
                                target_path@,
                                0,
                                start,
                                array_indices@,
                                out,
                            ) by {
                                lemma_resets_members_step(
                                    decoders@, localized, sels, nars, picks, finishes,
                                    fields@,
                                    vs,
                                    target_path@,
                                    i as nat,
                                    before as nat,
                                    array_indices@,
                                    rr,
                                    out,
                                );
                            }
                        }
                        i += 1;
                    }
                    assert(resets_members(
                        decoders@, localized, sels, nars, picks, finishes,
                        fields@,
                        vs,
                        target_path@,
                        0,
                        start,
                        array_indices@,
                        Ok(Update::Missing(*occurrence as nat)),
                    ));
                    *value = OwnedFieldValue::Struct(values);
                    proof {
                        assert(value@->Struct_0 =~= vs);
                    }
                    Ok(false)
                },
                other => {
                    *value = other;
                    Ok(false)
                },
            }
        },
        SchemaNodeKind::Array { element, .. } => {
            let mut taken = OwnedFieldValue::Absent;
            std::mem::swap(&mut taken, value);
            match taken {
                OwnedFieldValue::Array(mut values) => {
                    let ghost vs = original->Array_0;
                    let ghost start = *occurrence as nat;
                    let mut i: usize = 0;
                    while i < values.len()
                        invariant
                            node.kind matches SchemaNodeKind::Array { element: el, .. } && el == *element,
                            node.path@ != target_path@,
                            original == SpecOwnedValue::Array(vs),
                            original == old(value)@,
                            vs.len() == values@.len(),
                            forall|j: int| 0 <= j < vs.len() ==> vs[j] == (#[trigger] values@[j])@,
                            prefixes_reserved(*node),
                            decoders.wf(),
                            forall|bits: u64| narrow.requires((bits,)),
                            forall|n: &SchemaNode, k: usize, p: &Vec<u8>| selector.requires((n, k, p)),
                            forall|n: &SchemaNode| pick.requires((n,)),
                            forall|n: &SchemaNode, v: OwnedFieldValue, ix: &Vec<usize>| finish.requires((n, v, ix)),
                            sels == selection_of(*selector),
                            nars == narrowing_of(*narrow),
                            picks == picking_of(*pick),
                            finishes == finishing_of(*finish),
                            i <= values@.len(),
                            start == *old(occurrence) as nat,
                            forall|out: Result<Update, SemanticError>|
                                resets_items(
                                    decoders@, localized, sels, nars, picks, finishes,
                                    **element,
                                    vs,
                                    target_path@,
                                    i as nat,
                                    *occurrence as nat,
                                    array_indices@,
                                    out,
                                ) ==> #[trigger] resets_items(
                                    decoders@, localized, sels, nars, picks, finishes,
                                    **element,
                                    vs,
                                    target_path@,
                                    0,
                                    start,
                                    array_indices@,
                                    out,
                                ),
                        decreases values.len() - i,
                    {
                        assert(decreases_to!(*node => **element));
                        let child_indices = item_indices(array_indices, i);
                        let ghost before = *occurrence;
                        let r = reset_nested_value(
                            element,
                            &mut values[i],
                            target_path,
                            occurrence,
                            &child_indices,
                            localized,
                            decoders,
                            selector,
                            narrow,
                            pick,
                            finish,
                        );
                        let ghost written = values@[i as int]@;
                        let ghost rr = update_of(r, written, *occurrence);
                        match r {
                            Ok(false) => {},
                            _ => {
                                let ghost out = match rr {
                                    Ok(Update::Done(v)) => Ok(Update::Done(SpecOwnedValue::Array(vs.update(i as int, v)))),
                                    _ => rr,
                                };
                                proof {
                                    lemma_resets_items_step(
                                        decoders@, localized, sels, nars, picks, finishes,
                                        **element,
                                        vs,
                                        target_path@,
                                        i as nat,
                                        before as nat,
                                        array_indices@,
                                        rr,
                                        out,
                                    );
                                    assert(resets_items(
                                        decoders@, localized, sels, nars, picks, finishes,
                                        **element,
                                        vs,
                                        target_path@,
                                        0,
                                        start,
                                        array_indices@,
                                        out,
                                    ));
                                }
                                *value = OwnedFieldValue::Array(values);
                                proof {
                                    if r is Ok {
                                        assert(value@->Array_0 =~= vs.update(i as int, written));
                                    } else {
                                        assert(value@->Array_0 =~= vs);
                                    }
                                }
                                return r;
                            },
                        }
                        proof {
                            assert forall|out: Result<Update, SemanticError>|
                                resets_items(
                                    decoders@, localized, sels, nars, picks, finishes,
                                    **element,
                                    vs,
                                    target_path@,
                                    (i + 1) as nat,
                                    *occurrence as nat,
                                    array_indices@,
                                    out,
                                ) implies #[trigger] resets_items(
                                decoders@, localized, sels, nars, picks, finishes,
                                **element,
                                vs,
                                target_path@,
                                0,
                                start,
                                array_indices@,
                                out,
                            ) by {
                                lemma_resets_items_step(
                                    decoders@, localized, sels, nars, picks, finishes,
                                    **element,
                                    vs,
                                    target_path@,
                                    i as nat,
                                    before as nat,
                                    array_indices@,
                                    rr,
                                    out,
                                );
                            }
                        }
                        i += 1;
                    }
                    assert(resets_items(
                        decoders@, localized, sels, nars, picks, finishes,
                        **element,
                        vs,
                        target_path@,
                        0,
                        start,
                        array_indices@,
                        Ok(Update::Missing(*occurrence as nat)),
                    ));
                    *value = OwnedFieldValue::Array(values);
                    proof {
                        assert(value@->Array_0 =~= vs);
                    }
                    Ok(false)
                },
                other => {
                    *value = other;
                    Ok(false)
                },
            }
        },
        SchemaNodeKind::Union { variants, .. } => {
            let chosen = select_union_variant(node, &*value, localized, decoders, selector, narrow);
            proof {
                assert(candidate_choice(choice_of(chosen)));
            }
            match chosen {
                Err(e) => Err(e),
                Ok((index, _)) => {
                    proof {
                        lemma_choice_in_range(
                            decoders@,
                            localized,
                            sels,
                            nars,
                            *node,
                            variants@,
                            0,
                            original,
                            index as nat,
                            choice_of(chosen)->Ok_0.1,
                        );
                        lemma_reserved_at(variants@, index as int);
                    }
                    assert(decreases_to!(*node => variants@[index as int]));
                    reset_nested_value(
                &variants[index],
                value,
                target_path,
                occurrence,
                array_indices,
                localized,
                decoders,
                selector,
                narrow,
                pick,
                finish,
            )
                },
            }
        },
        SchemaNodeKind::Subrecord { payload, .. } => {
            assert(decreases_to!(*node => **payload));
            reset_nested_value(
                payload,
                value,
                target_path,
                occurrence,
                array_indices,
                localized,
                decoders,
                selector,
                narrow,
                pick,
                finish,
            )
        },
        SchemaNodeKind::Compressed { child } => {
            assert(decreases_to!(*node => **child));
            reset_nested_value(
                child,
                value,
                target_path,
                occurrence,
                array_indices,
                localized,
                decoders,
                selector,
                narrow,
                pick,
                finish,
            )
        },
        SchemaNodeKind::Terminated { child, .. } => {
            assert(decreases_to!(*node => **child));
            reset_nested_value(
                child,
                value,
                target_path,
                occurrence,
                array_indices,
                localized,
                decoders,
                selector,
                narrow,
                pick,
                finish,
            )
        },
        _ => Ok(false),
    }
}

} // verus!
