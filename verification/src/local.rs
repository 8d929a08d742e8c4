//! Handler mutations applied inside one field value before it is encoded: value writes
//! and resets at paths below the field's node.
use vstd::prelude::*;

use crate::decoder::{CustomDecoder, DecoderRegistry, RegisteredDecoder};
use crate::defaults::{finishing_of, picking_of};
use crate::editor::{owned_values_eq, owned_values_equal};
use crate::encode::{narrowing_of, prefixes_reserved, selection_of};
use crate::mutation::{missing_occurrence, missing_occurrence_is, HandlerMutation};
use crate::nested::{
    candidate_lookup, candidate_update, lookup, lookup_of, nested_value_at, reset_nested_value,
    resets, set_nested_value, update, update_of, Lookup, Update,
};
use crate::schema::SchemaNode;
use crate::tree::{is_within, path_is_within};
use crate::value::{OwnedFieldValue, SemanticError, SpecOwnedValue};

verus! {

/// Whether a mutation writes a value at a path inside the node at `node_path`.
pub open spec fn local_write(node_path: Seq<char>, m: HandlerMutation) -> bool {
    match m {
        HandlerMutation::SetValue { path, .. } => is_within(path@, node_path),
        HandlerMutation::SetIfEqual { path, .. } => is_within(path@, node_path),
        _ => false,
    }
}

/// Whether a mutation resets a path inside the node at `node_path` to its default.
pub open spec fn local_reset(node_path: Seq<char>, m: HandlerMutation) -> bool {
    m matches HandlerMutation::ResetToDefault { path, .. } && is_within(path@, node_path)
}

/// The mutations that stay pending after the local writes of a node are applied.
pub open spec fn kept_after_writes(node_path: Seq<char>) -> spec_fn(HandlerMutation) -> bool {
    |m: HandlerMutation| !local_write(node_path, m)
}

/// The mutations that stay pending after the local resets of a node are applied.
pub open spec fn kept_after_resets(node_path: Seq<char>) -> spec_fn(HandlerMutation) -> bool {
    |m: HandlerMutation| !local_reset(node_path, m)
}

/// A unit result as the error it carries, if any.
pub open spec fn error_of(res: Result<(), SemanticError>) -> Option<SemanticError> {
    match res {
        Ok(_) => None,
        Err(e) => Some(e),
    }
}

/// Whether a run stopped at `value` because occurrence `occurrence` of `path` is missing.
pub open spec fn stopped_missing(
    out: (SpecOwnedValue, Option<SemanticError>),
    value: SpecOwnedValue,
    path: Seq<char>,
    occurrence: nat,
) -> bool {
    out.0 == value && (out.1 matches Some(e) && missing_occurrence_is(e, path, occurrence))
}

/// Whether `out` is a possible outcome, as the value reached and the error that stopped
/// the run, of applying the local writes among `ms` from index `k` on to `value`, read
/// with `node`.
///
/// A `SetValue` replaces its occurrence; one that finds no occurrence fails with the
/// occurrences it still lacked. A `SetIfEqual` replaces its occurrence when the value there
/// equals the expected one and is dropped otherwise; one whose occurrence is missing fails
/// with the occurrence it named. Other mutations are left alone.
pub open spec fn local_writes<D: CustomDecoder>(
    decoders: Map<Seq<char>, RegisteredDecoder<D>>,
    localized: bool,
    selects: spec_fn(SchemaNode, usize, Seq<u8>, Result<Option<i64>, SemanticError>) -> bool,
    narrowed: spec_fn(u64, u32) -> bool,
    node: SchemaNode,
    value: SpecOwnedValue,
    ms: Seq<HandlerMutation>,
    k: nat,
    out: (SpecOwnedValue, Option<SemanticError>),
) -> bool
    decreases ms.len() - k,
{
    if k >= ms.len() {
        out == (value, None::<SemanticError>)
    } else if !local_write(node.path@, ms[k as int]) {
        local_writes(decoders, localized, selects, narrowed, node, value, ms, k + 1, out)
    } else {
        match ms[k as int] {
            HandlerMutation::SetValue { path, occurrence, value: replacement } => exists|
                r: Result<Update, SemanticError>,
            |
                #[trigger] candidate_update(r) && update(
                    decoders,
                    localized,
                    selects,
                    narrowed,
                    node,
                    value,
                    path@,
                    occurrence as nat,
                    Some(replacement@),
                    r,
                ) && match r {
                    Ok(Update::Done(v)) => local_writes(
                        decoders,
                        localized,
                        selects,
                        narrowed,
                        node,
                        v,
                        ms,
                        k + 1,
                        out,
                    ),
                    Ok(Update::Missing(remaining)) => stopped_missing(out, value, path@, remaining),
                    Err(e) => out == (value, Some(e)),
                },
            HandlerMutation::SetIfEqual { path, occurrence, expected, value: replacement } => exists|
                l: Result<Lookup, SemanticError>,
            |
                #[trigger] candidate_lookup(l) && lookup(
                    decoders,
                    localized,
                    selects,
                    narrowed,
                    node,
                    value,
                    path@,
                    occurrence as nat,
                    l,
                ) && match l {
                    Err(e) => out == (value, Some(e)),
                    Ok(Lookup::Missing(_)) => stopped_missing(out, value, path@, occurrence as nat),
                    Ok(Lookup::Found(current)) => if !owned_values_eq(current, expected@) {
                        local_writes(decoders, localized, selects, narrowed, node, value, ms, k + 1, out)
                    } else {
                        exists|r: Result<Update, SemanticError>|
                            #[trigger] candidate_update(r) && update(
                                decoders,
                                localized,
                                selects,
                                narrowed,
                                node,
                                value,
                                path@,
                                occurrence as nat,
                                Some(replacement@),
                                r,
                            ) && match r {
                                Ok(Update::Done(v)) => local_writes(
                                    decoders,
                                    localized,
                                    selects,
                                    narrowed,
                                    node,
                                    v,
                                    ms,
                                    k + 1,
                                    out,
                                ),
                                Ok(Update::Missing(_)) => stopped_missing(out, value, path@, occurrence as nat),
                                Err(e) => out == (value, Some(e)),
                            }
                    },
                },
            _ => local_writes(decoders, localized, selects, narrowed, node, value, ms, k + 1, out),
        }
    }
}

/// Whether `out` is a possible outcome, as the value reached and the error that stopped
/// the run, of applying the local resets among `ms` from index `k` on to `value`, read
/// with `node`: each resets its occurrence to a fresh value, and one whose occurrence is
/// missing fails with the occurrence it named. Other mutations are left alone.
pub open spec fn local_resets<D: CustomDecoder>(
    decoders: Map<Seq<char>, RegisteredDecoder<D>>,
    localized: bool,
    selects: spec_fn(SchemaNode, usize, Seq<u8>, Result<Option<i64>, SemanticError>) -> bool,
    narrowed: spec_fn(u64, u32) -> bool,
    picks: spec_fn(SchemaNode, Result<i64, SemanticError>) -> bool,
    finishes: spec_fn(SchemaNode, SpecOwnedValue, Seq<usize>, Result<SpecOwnedValue, SemanticError>) -> bool,
    node: SchemaNode,
    value: SpecOwnedValue,
    ms: Seq<HandlerMutation>,
    k: nat,
    out: (SpecOwnedValue, Option<SemanticError>),
) -> bool
    decreases ms.len() - k,
{
    if k >= ms.len() {
        out == (value, None::<SemanticError>)
    } else {
        match ms[k as int] {
            HandlerMutation::ResetToDefault { path, occurrence } => if !is_within(path@, node.path@) {
                local_resets(
                    decoders,
                    localized,
                    selects,
                    narrowed,
                    picks,
                    finishes,
                    node,
                    value,
                    ms,
                    k + 1,
                    out,
                )
            } else {
                exists|r: Result<Update, SemanticError>|
                    #[trigger] candidate_update(r) && resets(
                        decoders,
                        localized,
                        selects,
                        narrowed,
                        picks,
                        finishes,
                        node,
                        value,
                        path@,
                        occurrence as nat,
                        Seq::empty(),
                        r,
                    ) && match r {
                        Ok(Update::Done(v)) => local_resets(
                            decoders,
                            localized,
                            selects,
                            narrowed,
                            picks,
                            finishes,
                            node,
                            v,
                            ms,
                            k + 1,
                            out,
                        ),
                        Ok(Update::Missing(_)) => stopped_missing(out, value, path@, occurrence as nat),
                        Err(e) => out == (value, Some(e)),
                    }
            },
            _ => local_resets(
                decoders,
                localized,
                selects,
                narrowed,
                picks,
                finishes,
                node,
                value,
                ms,
                k + 1,
                out,
            ),
        }
    }
}

/// Applies the writes among `mutations` that target paths inside `node` to `value`, in
/// order, and leaves the other mutations pending in their order.
///
/// A `SetValue` whose occurrence is missing fails with `MissingOccurrence` for the
/// occurrences it still lacked; a `SetIfEqual` whose occurrence is missing fails with the
/// occurrence it named, and one whose current value differs from the expected one is
/// dropped. On an error the pending list is emptied and `value` keeps the writes made
/// before it.
pub fn apply_local_set_mutations<D, S, N>(
    node: &SchemaNode,
    value: &mut OwnedFieldValue,
    mutations: &mut Vec<HandlerMutation>,
    localized: bool,
    decoders: &DecoderRegistry<D>,
    selector: &S,
    narrow: &N,
) -> (res: Result<(), SemanticError>)
    where
        D: CustomDecoder,
        S: Fn(&SchemaNode, usize, &Vec<u8>) -> Result<Option<i64>, SemanticError>,
        N: Fn(u64) -> u32,
    requires
        decoders.wf(),
        prefixes_reserved(*node),
        forall|bits: u64| narrow.requires((bits,)),
        forall|n: &SchemaNode, i: usize, p: &Vec<u8>| selector.requires((n, i, p)),
    ensures
        local_writes(
            decoders@,
            localized,
            selection_of(*selector),
            narrowing_of(*narrow),
            *node,
            old(value)@,
            old(mutations)@,
            0,
            (final(value)@, error_of(res)),
        ),
        res is Ok ==> final(mutations)@ == old(mutations)@.filter(kept_after_writes(node.path@)),
        res is Err ==> final(mutations)@.len() == 0,
{
    let ghost ms = mutations@;
    let ghost sels = selection_of(*selector);
    let ghost nars = narrowing_of(*narrow);
    let ghost start = value@;
    let ghost pred = kept_after_writes(node.path@);
    let mut pending: Vec<HandlerMutation> = Vec::new();
    std::mem::swap(&mut pending, mutations);
    let mut remaining: Vec<HandlerMutation> = Vec::new();
    let mut k: usize = 0;
    let total = pending.len();
    proof {
        assert(ms.take(0) =~= Seq::<HandlerMutation>::empty());
        reveal(Seq::filter);
        assert(pending@ =~= ms.skip(0));
    }
    while pending.len() > 0
        invariant
            k <= ms.len(),
            ms.len() == total,
            pending@ == ms.skip(k as int),
            mutations@.len() == 0,
            remaining@ == ms.take(k as int).filter(pred),
            pred == kept_after_writes(node.path@),
            start == old(value)@,
            ms == old(mutations)@,
            decoders.wf(),
            prefixes_reserved(*node),
            forall|bits: u64| narrow.requires((bits,)),
            forall|n: &SchemaNode, i: usize, p: &Vec<u8>| selector.requires((n, i, p)),
            sels == selection_of(*selector),
            nars == narrowing_of(*narrow),
            forall|out: (SpecOwnedValue, Option<SemanticError>)|
                local_writes(decoders@, localized, sels, nars, *node, value@, ms, k as nat, out)
                    ==> #[trigger] local_writes(decoders@, localized, sels, nars, *node, start, ms, 0, out),
        decreases pending.len(),
    {
        let ghost before = value@;
        let mutation = pending.remove(0);
        proof {
            assert(ms.skip(k as int)[0] == ms[k as int]);
            assert(pending@ =~= ms.skip(k + 1));
            assert(ms.take(k + 1) =~= ms.take(k as int).push(ms[k as int]));
            ms.take(k as int).lemma_filter_push(ms[k as int], pred);
        }
        match mutation {
            HandlerMutation::SetValue { path, occurrence, value: replacement } => {
                if !path_is_within(path.as_str(), node.path.as_str()) {
                    remaining.push(HandlerMutation::SetValue { path, occurrence, value: replacement });
                } else {
                    let mut left = occurrence;
                    let mut slot = Some(replacement);
                    let r = set_nested_value(
                        node,
                        value,
                        path.as_str(),
                        &mut left,
                        &mut slot,
                        localized,
                        decoders,
                        selector,
                        narrow,
                    );
                    proof {
                        assert(candidate_update(update_of(r, value@, left)));
                    }
                    match r {
                        Ok(true) => {},
                        Ok(false) => {
                            let e = missing_occurrence(path.as_str(), left);
                            assert(local_writes(decoders@, localized, sels, nars, *node, before, ms, k as nat, (value@, Some(e))));
                            assert(local_writes(decoders@, localized, sels, nars, *node, start, ms, 0, (value@, Some(e))));
                            return Err(e);
                        },
                        Err(e) => {
                            assert(local_writes(decoders@, localized, sels, nars, *node, before, ms, k as nat, (value@, Some(e))));
                            assert(local_writes(decoders@, localized, sels, nars, *node, start, ms, 0, (value@, Some(e))));
                            return Err(e);
                        },
                    }
                }
            },
            HandlerMutation::SetIfEqual { path, occurrence, expected, value: replacement } => {
                if !path_is_within(path.as_str(), node.path.as_str()) {
                    remaining.push(
                        HandlerMutation::SetIfEqual { path, occurrence, expected, value: replacement },
                    );
                } else {
                    let mut probe = occurrence;
                    let found = nested_value_at(
                        node,
                        &*value,
                        path.as_str(),
                        &mut probe,
                        localized,
                        decoders,
                        selector,
                        narrow,
                    );
                    proof {
                        assert(candidate_lookup(lookup_of(found, probe)));
                    }
                    let equal = match found {
                        Err(e) => {
                            assert(local_writes(decoders@, localized, sels, nars, *node, before, ms, k as nat, (value@, Some(e))));
                            assert(local_writes(decoders@, localized, sels, nars, *node, start, ms, 0, (value@, Some(e))));
                            return Err(e);
                        },
                        Ok(None) => {
                            let e = missing_occurrence(path.as_str(), occurrence);
                            assert(local_writes(decoders@, localized, sels, nars, *node, before, ms, k as nat, (value@, Some(e))));
                            assert(local_writes(decoders@, localized, sels, nars, *node, start, ms, 0, (value@, Some(e))));
                            return Err(e);
                        },
                        Ok(Some(current)) => owned_values_equal(current, &expected),
                    };
                    if equal {
                        let mut left = occurrence;
                        let mut slot = Some(replacement);
                        let r = set_nested_value(
                            node,
                            value,
                            path.as_str(),
                            &mut left,
                            &mut slot,
                            localized,
                            decoders,
                            selector,
                            narrow,
                        );
                        proof {
                            assert(candidate_update(update_of(r, value@, left)));
                        }
                        match r {
                            Ok(true) => {},
                            Ok(false) => {
                                let e = missing_occurrence(path.as_str(), occurrence);
                                assert(local_writes(decoders@, localized, sels, nars, *node, before, ms, k as nat, (value@, Some(e))));
                                assert(local_writes(decoders@, localized, sels, nars, *node, start, ms, 0, (value@, Some(e))));
                                return Err(e);
                            },
                            Err(e) => {
                                assert(local_writes(decoders@, localized, sels, nars, *node, before, ms, k as nat, (value@, Some(e))));
                                assert(local_writes(decoders@, localized, sels, nars, *node, start, ms, 0, (value@, Some(e))));
                                return Err(e);
                            },
                        }
                    }
                }
            },
            other => {
                remaining.push(other);
            },
        }
        proof {
            assert forall|out: (SpecOwnedValue, Option<SemanticError>)|
                local_writes(decoders@, localized, sels, nars, *node, value@, ms, (k + 1) as nat, out)
                    implies #[trigger] local_writes(decoders@, localized, sels, nars, *node, start, ms, 0, out) by {
                assert(local_writes(decoders@, localized, sels, nars, *node, before, ms, k as nat, out));
            }
        }
        k += 1;
    }
    proof {
        assert(ms.take(k as int) =~= ms);
        assert(local_writes(decoders@, localized, sels, nars, *node, value@, ms, k as nat, (value@, None)));
    }
    *mutations = remaining;
    Ok(())
}

/// Applies the resets among `mutations` that target paths inside `node` to `value`, in
/// order, each to a fresh value for its node (see [`crate::defaults::default_value_for_node`]),
/// and leaves the other mutations pending in their order. A reset whose occurrence is
/// missing fails with `MissingOccurrence` for the occurrence it named. On an error the
/// pending list is emptied and `value` keeps the resets made before it.
pub fn apply_local_default_mutations<D, S, N, C, F>(
    node: &SchemaNode,
    value: &mut OwnedFieldValue,
    mutations: &mut Vec<HandlerMutation>,
    localized: bool,
    decoders: &DecoderRegistry<D>,
    selector: &S,
    narrow: &N,
    pick: &C,
    finish: &F,
) -> (res: Result<(), SemanticError>)
    where
        D: CustomDecoder,
        S: Fn(&SchemaNode, usize, &Vec<u8>) -> Result<Option<i64>, SemanticError>,
        N: Fn(u64) -> u32,
        C: Fn(&SchemaNode) -> Result<i64, SemanticError>,
        F: Fn(&SchemaNode, OwnedFieldValue, &Vec<usize>) -> Result<OwnedFieldValue, SemanticError>,
    requires
        decoders.wf(),
        prefixes_reserved(*node),
        forall|bits: u64| narrow.requires((bits,)),
        forall|n: &SchemaNode, i: usize, p: &Vec<u8>| selector.requires((n, i, p)),
        forall|n: &SchemaNode| pick.requires((n,)),
        forall|n: &SchemaNode, v: OwnedFieldValue, ix: &Vec<usize>| finish.requires((n, v, ix)),
    ensures
        local_resets(
            decoders@,
            localized,
            selection_of(*selector),
            narrowing_of(*narrow),
            picking_of(*pick),
            finishing_of(*finish),
            *node,
            old(value)@,
            old(mutations)@,
            0,
            (final(value)@, error_of(res)),
        ),
        res is Ok ==> final(mutations)@ == old(mutations)@.filter(kept_after_resets(node.path@)),
        res is Err ==> final(mutations)@.len() == 0,
{
    let ghost ms = mutations@;
    let ghost sels = selection_of(*selector);
    let ghost nars = narrowing_of(*narrow);
    let ghost picks = picking_of(*pick);
    let ghost finishes = finishing_of(*finish);
    let ghost start = value@;
    let ghost pred = kept_after_resets(node.path@);
    let mut pending: Vec<HandlerMutation> = Vec::new();
    std::mem::swap(&mut pending, mutations);
    let mut remaining: Vec<HandlerMutation> = Vec::new();
    let no_indices: Vec<usize> = Vec::new();
    let mut k: usize = 0;
    let total = pending.len();
    proof {
        assert(ms.take(0) =~= Seq::<HandlerMutation>::empty());
        reveal(Seq::filter);
        assert(pending@ =~= ms.skip(0));
        assert(no_indices@ =~= Seq::<usize>::empty());
    }
    while pending.len() > 0
        invariant
            k <= ms.len(),
            ms.len() == total,
            pending@ == ms.skip(k as int),
            mutations@.len() == 0,
            remaining@ == ms.take(k as int).filter(pred),
            pred == kept_after_resets(node.path@),
            no_indices@ == Seq::<usize>::empty(),
            start == old(value)@,
            ms == old(mutations)@,
            decoders.wf(),
            prefixes_reserved(*node),
            forall|bits: u64| narrow.requires((bits,)),
            forall|n: &SchemaNode, i: usize, p: &Vec<u8>| selector.requires((n, i, p)),
            forall|n: &SchemaNode| pick.requires((n,)),
            forall|n: &SchemaNode, v: OwnedFieldValue, ix: &Vec<usize>| finish.requires((n, v, ix)),
            sels == selection_of(*selector),
            nars == narrowing_of(*narrow),
            picks == picking_of(*pick),
            finishes == finishing_of(*finish),
            forall|out: (SpecOwnedValue, Option<SemanticError>)|
                local_resets(decoders@, localized, sels, nars, picks, finishes, *node, value@, ms, k as nat, out)
                    ==> #[trigger] local_resets(decoders@, localized, sels, nars, picks, finishes, *node, start, ms, 0, out),
        decreases pending.len(),
    {
        let ghost before = value@;
        let mutation = pending.remove(0);
        proof {
            assert(ms.skip(k as int)[0] == ms[k as int]);
            assert(pending@ =~= ms.skip(k + 1));
            assert(ms.take(k + 1) =~= ms.take(k as int).push(ms[k as int]));
            ms.take(k as int).lemma_filter_push(ms[k as int], pred);
        }
        match mutation {
            HandlerMutation::ResetToDefault { path, occurrence } => {
                if !path_is_within(path.as_str(), node.path.as_str()) {
                    remaining.push(HandlerMutation::ResetToDefault { path, occurrence });
                } else {
                    let mut left = occurrence;
                    let r = reset_nested_value(
                        node,
                        value,
                        path.as_str(),
                        &mut left,
                        &no_indices,
                        localized,
                        decoders,
                        selector,
                        narrow,
                        pick,
                        finish,
                    );
                    proof {
                        assert(candidate_update(update_of(r, value@, left)));
                    }
                    match r {
                        Ok(true) => {},
                        Ok(false) => {
                            let e = missing_occurrence(path.as_str(), occurrence);
                            assert(local_resets(decoders@, localized, sels, nars, picks, finishes, *node, before, ms, k as nat, (value@, Some(e))));
                            assert(local_resets(decoders@, localized, sels, nars, picks, finishes, *node, start, ms, 0, (value@, Some(e))));
                            return Err(e);
                        },
                        Err(e) => {
                            assert(local_resets(decoders@, localized, sels, nars, picks, finishes, *node, before, ms, k as nat, (value@, Some(e))));
                            assert(local_resets(decoders@, localized, sels, nars, picks, finishes, *node, start, ms, 0, (value@, Some(e))));
                            return Err(e);
                        },
                    }
                }
            },
            other => {
                remaining.push(other);
            },
        }
        proof {
            assert forall|out: (SpecOwnedValue, Option<SemanticError>)|
                local_resets(decoders@, localized, sels, nars, picks, finishes, *node, value@, ms, (k + 1) as nat, out)
                    implies #[trigger] local_resets(decoders@, localized, sels, nars, picks, finishes, *node, start, ms, 0, out) by {
                assert(local_resets(decoders@, localized, sels, nars, picks, finishes, *node, before, ms, k as nat, out));
            }
        }
        k += 1;
    }
    proof {
        assert(ms.take(k as int) =~= ms);
        assert(local_resets(decoders@, localized, sels, nars, picks, finishes, *node, value@, ms, k as nat, (value@, None)));
    }
    *mutations = remaining;
    Ok(())
}

} // verus!
