//! Handler mutations whose occurrences count inside one repetition of the record grammar.
use vstd::prelude::*;
use vstd::string::*;

use crate::address::RepeatScope;
use crate::apply::{
    applies_one, apply_mutation, candidate_grammar, context_of,
    schema_reserved, candidate_index, fresh_with, grammar_fits, index_of,
    insert_subrecord, interpreting_of, missing_path_is, outcome, remove_subrecord, runs_with,
    same_signature, set_payload, store_decoded, with_data, with_subrecord, without_subrecord,
    EditState, MutationContext,
};
use crate::assignment::{
    assigned_count, container_removals, count_before, insertion_scan, position_in, position_of, run_end,
    remove_container_assignments, scoped_assignment, scoped_indices, scoped_schema_insertion_index, selected_count,
    selected_in_scope, without_indices, without_occurrences, GrammarMatch,
};
use crate::container::{remove_container_occurrence, removes_occurrence};
use crate::context::handler_error_is;
use crate::convert::{candidate_value, converts, owned_to_handler_value, value_of};
use crate::decoded::{
    insert_decoded_occurrence, inserted_occurrence, remove_decoded_occurrence, removed_occurrence,
    DecodedValues,
};
use crate::decoder::{CustomDecoder, DecoderRegistry};
use crate::defaults::{candidate_default, default_value_for_node, defaults, owned_result};
use crate::editor::{encode_error, encode_error_is};
use crate::encode::{bytes_of, candidate, encode_node, encodes, prefixes_reserved};
use crate::model::{RecordView, SubRecordView, WritableRecord, WritableSubRecord};
use crate::mutation::{missing_occurrence, missing_occurrence_is, HandlerMutation};
use crate::schema::{SchemaNode, SchemaNodeKind};
use crate::tree::{
    containing_subrecord, find_containing_subrecord, find_node_by_path, node_by_path,
    subrecords_of, top_level_subrecords,
};
use crate::value::{OwnedFieldValue, SemanticError, SpecFieldValue, SpecOwnedValue};

verus! {

/// Marks a candidate scoped lookup; every one is.
pub open spec fn candidate_scoped(t: Result<Option<(nat, nat)>, SemanticError>) -> bool {
    true
}

/// Whether subrecord `i` is the one assigned to `path` as occurrence `occurrence` inside
/// repetition `scope`.
pub open spec fn nth_selected(
    g: GrammarMatch,
    path: Seq<char>,
    scope: RepeatScope,
    occurrence: nat,
    i: nat,
) -> bool {
    &&& i < g.assignments@.len()
    &&& selected_in_scope(g, path, scope, i as int)
    &&& selected_count(g, path, scope, i as int) == occurrence
}

/// The subrecord assigned to `path` as occurrence `occurrence` inside repetition
/// `scope`, with its occurrence number in the whole record; `None` when the repetition
/// has fewer.
pub open spec fn scoped_pick(g: GrammarMatch, path: Seq<char>, scope: RepeatScope, occurrence: nat) -> Option<
    (nat, nat),
> {
    if occurrence < selected_count(g, path, scope, g.assignments@.len() as int) {
        let i = choose|i: nat| nth_selected(g, path, scope, occurrence, i);
        Some((i, assigned_count(g.assignments@.take(i as int), path)))
    } else {
        None
    }
}

/// Whether `t` is a possible subrecord, with its whole-record occurrence, of the
/// subrecord node containing `path`, for occurrence `occurrence` inside repetition
/// `scope` of record `r`.
pub open spec fn scopes_to<D: CustomDecoder>(
    ctx: MutationContext<D>,
    r: RecordView,
    scope: RepeatScope,
    path: Seq<char>,
    occurrence: nat,
    t: Result<Option<(nat, nat)>, SemanticError>,
) -> bool {
    match containing_subrecord(ctx.root, path, None) {
        None => t matches Err(e) && missing_path_is(e, path),
        Some(parent) => exists|g: Result<GrammarMatch, SemanticError>|
            #[trigger] candidate_grammar(g) && (ctx.interprets)(r, g) && match g {
                Err(e) => t == Err::<Option<(nat, nat)>, SemanticError>(e),
                Ok(gm) => t == Ok::<Option<(nat, nat)>, SemanticError>(
                    scoped_pick(gm, parent.path@, scope, occurrence),
                ),
            },
    }
}

/// Whether `out` is a possible index at which a new subrecord for `node` goes inside
/// repetition `scope` of record `r`.
pub open spec fn places_in_scope<D: CustomDecoder>(
    ctx: MutationContext<D>,
    r: RecordView,
    node: SchemaNode,
    scope: RepeatScope,
    out: Result<int, SemanticError>,
) -> bool {
    match node_by_path(ctx.root, scope.path@) {
        None => out matches Err(e) && missing_path_is(e, scope.path@),
        Some(scope_node) => match position_of(subrecords_of(scope_node), node.id) {
            None => out matches Err(e) && missing_path_is(e, node.path@),
            Some(t) => exists|g: Result<GrammarMatch, SemanticError>|
                #[trigger] candidate_grammar(g) && (ctx.interprets)(r, g) && match g {
                    Err(e) => out == Err::<int, SemanticError>(e),
                    Ok(gm) => {
                        let indices = scoped_indices(gm.repeat_scopes@, scope);
                        if indices.len() == 0 {
                            out matches Err(e) && encode_error_is(
                                e,
                                node.path@,
                                "repeat scope has no assigned subrecords"@,
                            )
                        } else {
                            out == Ok::<int, SemanticError>(
                                insertion_scan(
                                    gm.assignments@,
                                    subrecords_of(scope_node),
                                    node.path@,
                                    t,
                                    indices,
                                    0,
                                    None,
                                    run_end(gm.repeat_scopes@, scope, indices[0]),
                                ),
                            )
                        }
                    },
                },
        },
    }
}

/// Whether `out` is a possible outcome of inserting a subrecord for `value` at the
/// subrecord node at `path` inside repetition `scope`, with its decoded value stored at
/// the occurrence it takes and the later ones moved up.
pub open spec fn inserts_in_scope<D: CustomDecoder>(
    ctx: MutationContext<D>,
    s: EditState,
    scope: RepeatScope,
    path: Seq<char>,
    value: SpecOwnedValue,
    out: Result<EditState, SemanticError>,
) -> bool {
    match node_by_path(ctx.root, path) {
        None => out matches Err(e) && missing_path_is(e, path),
        Some(node) => match node.kind {
            SchemaNodeKind::Subrecord { signature, payload } => exists|ix: Result<int, SemanticError>|
                #[trigger] candidate_index(ix) && places_in_scope(ctx, s.record, node, scope, ix) && match ix {
                    Err(e) => out == Err::<EditState, SemanticError>(e),
                    Ok(i) => exists|enc: Result<Seq<u8>, SemanticError>|
                        #[trigger] candidate(enc) && encodes(
                            ctx.decoders,
                            ctx.localized,
                            ctx.selects,
                            ctx.narrowed,
                            *payload,
                            value,
                            enc,
                        ) && match enc {
                            Err(e) => out == Err::<EditState, SemanticError>(e),
                            Ok(b) => exists|g: Result<GrammarMatch, SemanticError>|
                                #[trigger] candidate_grammar(g) && (ctx.interprets)(s.record, g) && match g {
                                    Err(e) => out == Err::<EditState, SemanticError>(e),
                                    Ok(gm) => exists|conv: Result<SpecFieldValue, SemanticError>|
                                        #[trigger] candidate_value(conv) && converts(
                                            ctx.decoders,
                                            ctx.localized,
                                            ctx.selects,
                                            ctx.narrowed,
                                            *payload,
                                            value,
                                            conv,
                                        ) && match conv {
                                            Err(e) => out == Err::<EditState, SemanticError>(e),
                                            Ok(fv) => out == Ok::<EditState, SemanticError>(
                                                EditState {
                                                    record: with_subrecord(
                                                        s.record,
                                                        i,
                                                        SubRecordView { signature, data: b },
                                                    ),
                                                    decoded: inserted_occurrence(
                                                        s.decoded,
                                                        path,
                                                        assigned_count(gm.assignments@.take(i), path) as usize,
                                                        fv,
                                                    ),
                                                },
                                            ),
                                        },
                                },
                        },
                },
            _ => out matches Err(e) && encode_error_is(
                e,
                path,
                "handler mutation path is not a subrecord"@,
            ),
        },
    }
}

/// Whether `out` is a possible outcome of removing, first occurrence first, every
/// subrecord of the node at `path` inside repetition `scope`.
pub open spec fn removes_all_in_scope<D: CustomDecoder>(
    ctx: MutationContext<D>,
    s: EditState,
    scope: RepeatScope,
    path: Seq<char>,
    out: Result<EditState, SemanticError>,
) -> bool
    decreases s.record.subrecords.len(),
{
    exists|t: Result<Option<(nat, nat)>, SemanticError>|
        #[trigger] candidate_scoped(t) && scopes_to(ctx, s.record, scope, path, 0, t) && match t {
            Err(e) => out == Err::<EditState, SemanticError>(e),
            Ok(None) => out == Ok::<EditState, SemanticError>(s),
            Ok(Some((i, occurrence))) => match node_by_path(ctx.root, path) {
                None => out matches Err(e) && missing_path_is(e, path),
                Some(node) => match node.kind {
                    SchemaNodeKind::Subrecord { signature, .. } => if i >= s.record.subrecords.len()
                        || s.record.subrecords[i as int].signature != signature {
                        out matches Err(e) && encode_error_is(
                            e,
                            path,
                            "assigned subrecord signature does not match schema"@,
                        )
                    } else {
                        removes_all_in_scope(
                            ctx,
                            EditState {
                                record: without_subrecord(s.record, i),
                                decoded: removed_occurrence(s.decoded, path, occurrence as usize),
                            },
                            scope,
                            path,
                            out,
                        )
                    },
                    _ => out matches Err(e) && encode_error_is(
                        e,
                        path,
                        "handler mutation path is not a subrecord"@,
                    ),
                },
            },
        }
}

/// Whether `out` is a possible outcome of resetting subrecord `index`, occurrence
/// `occurrence` of the subrecord node at `path`, to a fresh value.
pub open spec fn resets_subrecord<D: CustomDecoder>(
    ctx: MutationContext<D>,
    s: EditState,
    path: Seq<char>,
    index: nat,
    occurrence: usize,
    out: Result<EditState, SemanticError>,
) -> bool {
    match node_by_path(ctx.root, path) {
        None => out matches Err(e) && missing_path_is(e, path),
        Some(node) => match node.kind {
            SchemaNodeKind::Subrecord { signature, payload } => if index >= s.record.subrecords.len()
                || s.record.subrecords[index as int].signature != signature {
                out matches Err(e) && encode_error_is(
                    e,
                    path,
                    "assigned subrecord signature does not match schema"@,
                )
            } else {
                exists|v: Result<SpecOwnedValue, SemanticError>|
                    #[trigger] candidate_default(v) && defaults(
                        ctx.localized,
                        ctx.picks,
                        ctx.finishes,
                        *payload,
                        0,
                        Seq::empty(),
                        v,
                    ) && match v {
                        Err(e) => out == Err::<EditState, SemanticError>(e),
                        Ok(value) => exists|enc: Result<Seq<u8>, SemanticError>|
                            #[trigger] candidate(enc) && encodes(
                                ctx.decoders,
                                ctx.localized,
                                ctx.selects,
                                ctx.narrowed,
                                *payload,
                                value,
                                enc,
                            ) && match enc {
                                Err(e) => out == Err::<EditState, SemanticError>(e),
                                Ok(b) => exists|conv: Result<SpecFieldValue, SemanticError>|
                                    #[trigger] candidate_value(conv) && converts(
                                        ctx.decoders,
                                        ctx.localized,
                                        ctx.selects,
                                        ctx.narrowed,
                                        *payload,
                                        value,
                                        conv,
                                    ) && match conv {
                                        Err(e) => out == Err::<EditState, SemanticError>(e),
                                        Ok(fv) => out == Ok::<EditState, SemanticError>(
                                            EditState {
                                                record: with_data(s.record, index, b),
                                                decoded: s.decoded.insert((path, occurrence), fv),
                                            },
                                        ),
                                    },
                            },
                    }
            },
            _ => out matches Err(e) && encode_error_is(
                e,
                path,
                "schema-native default path is not a subrecord"@,
            ),
        },
    }
}

/// Whether `out` is a possible outcome of a mutation whose occurrence counts inside
/// repetition `scope`: the occurrence is translated to the whole record, and `rebuilt`
/// gives the record-level mutation for the translated occurrence.
pub open spec fn through_scope<D: CustomDecoder>(
    ctx: MutationContext<D>,
    s: EditState,
    scope: RepeatScope,
    path: Seq<char>,
    occurrence: usize,
    rebuilt: spec_fn(usize) -> HandlerMutation,
    out: Result<EditState, SemanticError>,
) -> bool {
    exists|t: Result<Option<(nat, nat)>, SemanticError>|
        #[trigger] candidate_scoped(t) && scopes_to(ctx, s.record, scope, path, occurrence as nat, t)
            && match t {
            Err(e) => out == Err::<EditState, SemanticError>(e),
            Ok(None) => out matches Err(e) && missing_occurrence_is(e, path, occurrence as nat),
            Ok(Some((_, translated))) => applies_one(ctx, s, rebuilt(translated as usize), out),
        }
}

/// Whether `e` is the handler error of a mutation that scoped callbacks may not make.
pub open spec fn scoped_refusal(e: SemanticError, message: Seq<char>) -> bool {
    handler_error_is(e, "def.after_set"@, message)
}

/// Whether a mutation is one that scoped callbacks may not make: a change of the record
/// flags, or a raw payload insertion or removal by signature.
pub open spec fn scoped_refused(m: HandlerMutation) -> bool {
    m is SetRecordFlags || m is InsertPayload || m is RemoveAllBySignature || m is RemoveFirstBySignature
}

/// Whether `out` is a possible outcome of applying one handler mutation, made inside
/// repetition `scope`, to state `s`.
///
/// Occurrences count inside the repetition and are translated to the whole record;
/// insertions go inside the repetition. Record flags and raw payloads and signatures
/// cannot be changed from a repetition.
pub open spec fn applies_in_scope<D: CustomDecoder>(
    ctx: MutationContext<D>,
    s: EditState,
    scope: RepeatScope,
    m: HandlerMutation,
    out: Result<EditState, SemanticError>,
) -> bool {
    match m {
        HandlerMutation::SetRecordFlags { .. } => out matches Err(e) && scoped_refusal(
            e,
            "scoped callbacks cannot replace main-record flags"@,
        ),
        HandlerMutation::SetValue { path, occurrence, value } => through_scope(
            ctx,
            s,
            scope,
            path@,
            occurrence,
            |o: usize| HandlerMutation::SetValue { path, occurrence: o, value },
            out,
        ),
        HandlerMutation::SetIfEqual { path, occurrence, expected, value } => through_scope(
            ctx,
            s,
            scope,
            path@,
            occurrence,
            |o: usize| HandlerMutation::SetIfEqual { path, occurrence: o, expected, value },
            out,
        ),
        HandlerMutation::ReplacePayload { path, occurrence, data } => through_scope(
            ctx,
            s,
            scope,
            path@,
            occurrence,
            |o: usize| HandlerMutation::ReplacePayload { path, occurrence: o, data },
            out,
        ),
        HandlerMutation::InsertPayload { .. } => out matches Err(e) && scoped_refusal(
            e,
            "scoped callbacks cannot insert raw subrecord payloads"@,
        ),
        HandlerMutation::ResetToDefault { path, occurrence } => exists|
            t: Result<Option<(nat, nat)>, SemanticError>,
        |
            #[trigger] candidate_scoped(t) && scopes_to(ctx, s.record, scope, path@, occurrence as nat, t)
                && match t {
                Err(e) => out == Err::<EditState, SemanticError>(e),
                Ok(None) => out matches Err(e) && missing_occurrence_is(e, path@, occurrence as nat),
                Ok(Some((i, translated))) => resets_subrecord(ctx, s, path@, i, translated as usize, out),
            },
        HandlerMutation::InsertDefault { path } => match node_by_path(ctx.root, path@) {
            None => out matches Err(e) && missing_path_is(e, path@),
            Some(node) => match node.kind {
                SchemaNodeKind::Subrecord { payload, .. } => exists|ix: Result<int, SemanticError>|
                    #[trigger] candidate_index(ix) && places_in_scope(ctx, s.record, node, scope, ix)
                        && match ix {
                        Err(e) => out == Err::<EditState, SemanticError>(e),
                        Ok(_) => exists|v: Result<SpecOwnedValue, SemanticError>|
                            #[trigger] candidate_default(v) && defaults(
                                ctx.localized,
                                ctx.picks,
                                ctx.finishes,
                                *payload,
                                0,
                                Seq::empty(),
                                v,
                            ) && match v {
                                Err(e) => out == Err::<EditState, SemanticError>(e),
                                Ok(value) => inserts_in_scope(ctx, s, scope, path@, value, out),
                            },
                    },
                _ => out matches Err(e) && encode_error_is(
                    e,
                    path@,
                    "schema-native insertion path is not a subrecord"@,
                ),
            },
        },
        HandlerMutation::RemoveContainer { path } => match node_by_path(ctx.root, path@) {
            None => out matches Err(e) && missing_path_is(e, path@),
            Some(_) => exists|g: Result<GrammarMatch, SemanticError>|
                #[trigger] candidate_grammar(g) && (ctx.interprets)(s.record, g) && match g {
                    Err(e) => out == Err::<EditState, SemanticError>(e),
                    Ok(gm) => {
                        let removals = container_removals(
                            gm,
                            Some(scope),
                            path@,
                            gm.assignments@.len() as int,
                        );
                        out == Ok::<EditState, SemanticError>(
                            EditState {
                                record: RecordView {
                                    subrecords: without_indices(s.record.subrecords, removals),
                                    ..s.record
                                },
                                decoded: without_occurrences(s.decoded, removals),
                            },
                        )
                    },
                },
        },
        HandlerMutation::RemoveContainerOccurrence { path, occurrence } => removes_occurrence(
            ctx.root,
            ctx.interprets,
            s,
            Some(scope),
            path@,
            occurrence,
            out,
        ),
        HandlerMutation::Insert { path, value } => inserts_in_scope(ctx, s, scope, path@, value@, out),
        HandlerMutation::Remove { path, occurrence } => through_scope(
            ctx,
            s,
            scope,
            path@,
            occurrence,
            |o: usize| HandlerMutation::Remove { path, occurrence: o },
            out,
        ),
        HandlerMutation::RemoveAll { path } => removes_all_in_scope(ctx, s, scope, path@, out),
        HandlerMutation::RemoveAllBySignature { .. } => out matches Err(e) && scoped_refusal(
            e,
            "scoped callbacks cannot remove raw subrecords by signature"@,
        ),
        HandlerMutation::RemoveFirstBySignature { .. } => out matches Err(e) && scoped_refusal(
            e,
            "scoped callbacks cannot remove raw subrecords by signature"@,
        ),
        HandlerMutation::SynchronizeCount { path, occurrence, value, remove_when_zero } => exists|
            t: Result<Option<(nat, nat)>, SemanticError>,
        |
            #[trigger] candidate_scoped(t) && scopes_to(ctx, s.record, scope, path@, occurrence as nat, t)
                && match t {
                Err(e) => out == Err::<EditState, SemanticError>(e),
                Ok(Some((_, translated))) => applies_one(
                    ctx,
                    s,
                    HandlerMutation::SynchronizeCount {
                        path,
                        occurrence: translated as usize,
                        value,
                        remove_when_zero,
                    },
                    out,
                ),
                Ok(None) => if value == 0 && remove_when_zero {
                    out == Ok::<EditState, SemanticError>(s)
                } else {
                    inserts_in_scope(ctx, s, scope, path@, SpecOwnedValue::UInt(value), out)
                },
            },
        HandlerMutation::SynchronizePresence { path, occurrence, present, value } => exists|
            t: Result<Option<(nat, nat)>, SemanticError>,
        |
            #[trigger] candidate_scoped(t) && scopes_to(ctx, s.record, scope, path@, occurrence as nat, t)
                && match t {
                Err(e) => out == Err::<EditState, SemanticError>(e),
                Ok(Some((_, translated))) => applies_one(
                    ctx,
                    s,
                    HandlerMutation::SynchronizePresence {
                        path,
                        occurrence: translated as usize,
                        present,
                        value,
                    },
                    out,
                ),
                Ok(None) => if present {
                    inserts_in_scope(ctx, s, scope, path@, value@, out)
                } else {
                    out == Ok::<EditState, SemanticError>(s)
                },
            },
    }
}

/// A scoped lookup result as indices.
pub open spec fn picked_of(res: Result<Option<(usize, usize)>, SemanticError>) -> Result<Option<(nat, nat)>, SemanticError> {
    match res {
        Ok(Some((i, o))) => Ok(Some((i as nat, o as nat))),
        Ok(None) => Ok(None),
        Err(e) => Err(e),
    }
}

/// Counting selected subrecords over a longer prefix never gives fewer.
proof fn lemma_selected_monotone(g: GrammarMatch, path: Seq<char>, scope: RepeatScope, a: int, b: int)
    requires
        0 <= a <= b,
    ensures
        selected_count(g, path, scope, a) <= selected_count(g, path, scope, b),
    decreases b - a,
{
    if a < b {
        lemma_selected_monotone(g, path, scope, a, b - 1);
    }
}

/// The selected subrecord of an occurrence is unique, and the repetition holds more
/// occurrences than its number.
proof fn lemma_nth_selected(g: GrammarMatch, path: Seq<char>, scope: RepeatScope, occurrence: nat, i: nat)
    requires
        nth_selected(g, path, scope, occurrence, i),
    ensures
        occurrence < selected_count(g, path, scope, g.assignments@.len() as int),
        forall|j: nat| #[trigger] nth_selected(g, path, scope, occurrence, j) ==> j == i,
{
    lemma_selected_monotone(g, path, scope, i + 1int, g.assignments@.len() as int);
    assert forall|j: nat| #[trigger] nth_selected(g, path, scope, occurrence, j) implies j == i by {
        if j < i {
            lemma_selected_monotone(g, path, scope, j + 1int, i as int);
        } else if i < j {
            lemma_selected_monotone(g, path, scope, i + 1int, j as int);
        }
    }
}

/// Every index of a repetition's subrecords is a subrecord index.
proof fn lemma_scoped_indices_bound(scopes: Seq<Vec<RepeatScope>>, scope: RepeatScope)
    ensures
        forall|k: int|
            0 <= k < scoped_indices(scopes, scope).len() ==> 0 <= #[trigger] scoped_indices(scopes, scope)[k]
                < scopes.len(),
    decreases scopes.len(),
{
    if scopes.len() > 0 {
        let rest = scoped_indices(scopes.drop_last(), scope);
        lemma_scoped_indices_bound(scopes.drop_last(), scope);
        assert forall|k: int| 0 <= k < scoped_indices(scopes, scope).len() implies 0
            <= #[trigger] scoped_indices(scopes, scope)[k] < scopes.len() by {
            if k < rest.len() {
                assert(scoped_indices(scopes, scope)[k] == rest[k]);
            }
        }
    }
}

/// The end of a run of a repetition's subrecords lies within the record.
proof fn lemma_run_end_bound(scopes: Seq<Vec<RepeatScope>>, scope: RepeatScope, j: int)
    requires
        0 <= j <= scopes.len(),
    ensures
        j <= run_end(scopes, scope, j) <= scopes.len(),
    decreases scopes.len() - j,
{
    if j < scopes.len() {
        lemma_run_end_bound(scopes, scope, j + 1);
    }
}

/// An insertion scan over subrecord indices ends at a position among them or right
/// after the last.
proof fn lemma_scan_bound(
    assignments: Seq<Option<crate::assignment::Assignment>>,
    ordered: Seq<SchemaNode>,
    target_path: Seq<char>,
    target_order: nat,
    indices: Seq<int>,
    n: int,
    k: nat,
    after: Option<int>,
    fallback: int,
)
    requires
        assignments.len() == n,
        forall|m: int| 0 <= m < indices.len() ==> 0 <= #[trigger] indices[m] < n,
        0 <= fallback <= n,
        after matches Some(a) ==> 0 <= a <= n,
    ensures
        0 <= insertion_scan(assignments, ordered, target_path, target_order, indices, k, after, fallback) <= n,
    decreases indices.len() - k,
{
    if k < indices.len() {
        let index = indices[k as int];
        lemma_scan_bound(assignments, ordered, target_path, target_order, indices, n, k + 1, after, fallback);
        lemma_scan_bound(
            assignments,
            ordered,
            target_path,
            target_order,
            indices,
            n,
            k + 1,
            Some(index + 1),
            fallback,
        );
    }
}

/// Finds the subrecord, with its whole-record occurrence, of an occurrence inside a
/// repetition of the subrecord node that contains `path`.
fn scope_translate<D: CustomDecoder, G>(
    Ghost(ctx): Ghost<MutationContext<D>>,
    root: &SchemaNode,
    record: &WritableRecord,
    scope: &RepeatScope,
    path: &str,
    occurrence: usize,
    interpret: &G,
) -> (res: Result<Option<(usize, usize)>, SemanticError>)
    where
        G: Fn(&WritableRecord) -> Result<GrammarMatch, SemanticError>,
    requires
        ctx.root == *root,
        ctx.interprets == interpreting_of(*interpret),
        grammar_fits(*interpret),
    ensures
        scopes_to(ctx, record@, *scope, path@, occurrence as nat, picked_of(res)),
        res matches Ok(Some((i, _))) ==> i < record.subrecords@.len(),
{
    let parent = match find_containing_subrecord(root, path) {
        Some(parent) => parent,
        None => {
            return Err(SemanticError::MissingPath(path.to_owned()));
        },
    };
    let g = interpret(record);
    proof {
        reveal(interpreting_of);
        assert((ctx.interprets)(record@, g));
        assert(candidate_grammar(g));
    }
    let grammar = match g {
        Ok(grammar) => grammar,
        Err(e) => {
            return Err(e);
        },
    };
    let r = scoped_assignment(root, &grammar, scope, path, occurrence);
    proof {
        if let Ok(Some((i, o))) = r {
            assert(nth_selected(grammar, parent.path@, *scope, occurrence as nat, i as nat));
            lemma_nth_selected(grammar, parent.path@, *scope, occurrence as nat, i as nat);
            let c = choose|c: nat| nth_selected(grammar, parent.path@, *scope, occurrence as nat, c);
            assert(c == i);
        }
    }
    r
}

/// Finds where a new subrecord for `node` goes inside a repetition.
fn place_in_scope<D: CustomDecoder, G>(
    Ghost(ctx): Ghost<MutationContext<D>>,
    root: &SchemaNode,
    record: &WritableRecord,
    node: &SchemaNode,
    scope: &RepeatScope,
    interpret: &G,
) -> (res: Result<usize, SemanticError>)
    where
        G: Fn(&WritableRecord) -> Result<GrammarMatch, SemanticError>,
    requires
        ctx.root == *root,
        ctx.interprets == interpreting_of(*interpret),
        grammar_fits(*interpret),
    ensures
        places_in_scope(ctx, record@, *node, *scope, index_of(res)),
        res matches Ok(i) ==> i <= record.subrecords@.len(),
{
    let scope_node = match find_node_by_path(root, scope.path.as_str()) {
        Some(n) => n,
        None => {
            return Err(SemanticError::MissingPath(scope.path.clone()));
        },
    };
    let ordered = top_level_subrecords(scope_node);
    if position_in(&ordered, node.id).is_none() {
        return Err(SemanticError::MissingPath(node.path.clone()));
    }
    let g = interpret(record);
    proof {
        reveal(interpreting_of);
        assert((ctx.interprets)(record@, g));
        assert(candidate_grammar(g));
    }
    let grammar = match g {
        Ok(grammar) => grammar,
        Err(e) => {
            return Err(e);
        },
    };
    let r = scoped_schema_insertion_index(root, &grammar, node, scope);
    proof {
        if let Some(t) = position_of(subrecords_of(*scope_node), node.id) {
            let indices = scoped_indices(grammar.repeat_scopes@, *scope);
            if indices.len() > 0 {
                lemma_scoped_indices_bound(grammar.repeat_scopes@, *scope);
                lemma_run_end_bound(grammar.repeat_scopes@, *scope, indices[0]);
                lemma_scan_bound(
                    grammar.assignments@,
                    subrecords_of(*scope_node),
                    node.path@,
                    t,
                    indices,
                    grammar.assignments@.len() as int,
                    0,
                    None,
                    run_end(grammar.repeat_scopes@, *scope, indices[0]),
                );
            }
        }
    }
    r
}

/// Inserts a subrecord for `value` at the subrecord node at `path` inside a repetition.
fn insert_in_scope<D, S, N, G>(
    Ghost(ctx): Ghost<MutationContext<D>>,
    record: &mut WritableRecord,
    decoded_values: &mut DecodedValues,
    scope: &RepeatScope,
    path: &str,
    value: &OwnedFieldValue,
    root: &SchemaNode,
    localized: bool,
    decoders: &DecoderRegistry<D>,
    selector: &S,
    narrow: &N,
    interpret: &G,
) -> (res: Result<(), SemanticError>)
    where
        D: CustomDecoder,
        S: Fn(&SchemaNode, usize, &Vec<u8>) -> Result<Option<i64>, SemanticError>,
        N: Fn(u64) -> u32,
        G: Fn(&WritableRecord) -> Result<GrammarMatch, SemanticError>,
    requires
        runs_with(ctx, *root, *decoders, localized, *selector, *narrow, *interpret),
        old(decoded_values).wf(),
    ensures
        final(decoded_values).wf(),
        inserts_in_scope(ctx, (EditState { record: old(record)@, decoded: old(decoded_values)@ }), *scope, path@, value@, outcome(res, final(record)@, final(decoded_values)@)),
{
    let node = match find_node_by_path(root, path) {
        Some(node) => node,
        None => {
            return Err(SemanticError::MissingPath(path.to_owned()));
        },
    };
    let (signature, payload) = match &node.kind {
        SchemaNodeKind::Subrecord { signature, payload } => (*signature, payload),
        _ => {
            return Err(encode_error(path, "handler mutation path is not a subrecord"));
        },
    };
    assert(node_by_path(*root, path@) == Some(*node));
    assert(prefixes_reserved(*node));
    let ix = place_in_scope::<D, G>(Ghost(ctx), root, record, node, scope, interpret);
    proof {
        assert(candidate_index(index_of(ix)));
    }
    let index = match ix {
        Ok(i) => i,
        Err(e) => {
            return Err(e);
        },
    };
    let enc = encode_node(payload, value, localized, decoders, selector, narrow);
    proof {
        assert(candidate(bytes_of(enc)));
    }
    let bytes = match enc {
        Ok(b) => b,
        Err(e) => {
            return Err(e);
        },
    };
    let g = interpret(record);
    proof {
        reveal(interpreting_of);
        assert((ctx.interprets)(record@, g));
        assert(candidate_grammar(g));
    }
    let grammar = match g {
        Ok(grammar) => grammar,
        Err(e) => {
            return Err(e);
        },
    };
    let occurrence = count_before(&grammar, path, index);
    insert_subrecord(record, index, WritableSubRecord { signature, data: bytes });
    let conv = owned_to_handler_value(payload, value, localized, decoders, selector, narrow);
    proof {
        assert(candidate_value(value_of(conv)));
    }
    match conv {
        Ok(fv) => {
            insert_decoded_occurrence(decoded_values, path, occurrence, fv);
            Ok(())
        },
        Err(e) => Err(e),
    }
}

/// Removes, first occurrence first, every subrecord of the node at `path` inside a
/// repetition.
fn remove_all_in_scope<D, S, N, G>(
    Ghost(ctx): Ghost<MutationContext<D>>,
    record: &mut WritableRecord,
    decoded_values: &mut DecodedValues,
    scope: &RepeatScope,
    path: &str,
    root: &SchemaNode,
    localized: bool,
    decoders: &DecoderRegistry<D>,
    selector: &S,
    narrow: &N,
    interpret: &G,
) -> (res: Result<(), SemanticError>)
    where
        D: CustomDecoder,
        S: Fn(&SchemaNode, usize, &Vec<u8>) -> Result<Option<i64>, SemanticError>,
        N: Fn(u64) -> u32,
        G: Fn(&WritableRecord) -> Result<GrammarMatch, SemanticError>,
    requires
        runs_with(ctx, *root, *decoders, localized, *selector, *narrow, *interpret),
        old(decoded_values).wf(),
    ensures
        final(decoded_values).wf(),
        removes_all_in_scope(ctx, (EditState { record: old(record)@, decoded: old(decoded_values)@ }), *scope, path@, outcome(res, final(record)@, final(decoded_values)@)),
{
    let ghost start = (EditState { record: old(record)@, decoded: old(decoded_values)@ });
    loop
        invariant
            runs_with(ctx, *root, *decoders, localized, *selector, *narrow, *interpret),
            decoded_values.wf(),
            start == (EditState { record: old(record)@, decoded: old(decoded_values)@ }),
            forall|out: Result<EditState, SemanticError>|
                removes_all_in_scope(ctx, EditState { record: record@, decoded: decoded_values@ }, *scope, path@, out)
                    ==> #[trigger] removes_all_in_scope(ctx, start, *scope, path@, out),
        decreases record.subrecords@.len(),
    {
        let ghost here = EditState { record: record@, decoded: decoded_values@ };
        let t = scope_translate::<D, G>(Ghost(ctx), root, record, scope, path, 0, interpret);
        proof {
            assert(candidate_scoped(picked_of(t)));
        }
        let (index, occurrence) = match t {
            Err(e) => {
                assert(removes_all_in_scope(ctx, here, *scope, path@, Err(e)));
                return Err(e);
            },
            Ok(None) => {
                assert(removes_all_in_scope(ctx, here, *scope, path@, Ok(here)));
                return Ok(());
            },
            Ok(Some(found)) => found,
        };
        let node = match find_node_by_path(root, path) {
            Some(node) => node,
            None => {
                let e = SemanticError::MissingPath(path.to_owned());
                assert(removes_all_in_scope(ctx, here, *scope, path@, Err(e)));
                return Err(e);
            },
        };
        let signature = match &node.kind {
            SchemaNodeKind::Subrecord { signature, .. } => *signature,
            _ => {
                let e = encode_error(path, "handler mutation path is not a subrecord");
                assert(removes_all_in_scope(ctx, here, *scope, path@, Err(e)));
                return Err(e);
            },
        };
        if !same_signature(record.subrecords[index].signature, signature) {
            let e = encode_error(path, "assigned subrecord signature does not match schema");
            assert(removes_all_in_scope(ctx, here, *scope, path@, Err(e)));
            return Err(e);
        }
        remove_subrecord(record, index);
        remove_decoded_occurrence(decoded_values, path, occurrence);
        proof {
            let next = EditState { record: record@, decoded: decoded_values@ };
            assert forall|out: Result<EditState, SemanticError>|
                removes_all_in_scope(ctx, next, *scope, path@, out) implies #[trigger] removes_all_in_scope(
                ctx,
                start,
                *scope,
                path@,
                out,
            ) by {
                assert(removes_all_in_scope(ctx, here, *scope, path@, out));
            }
        }
    }
}

/// Resets subrecord `index`, occurrence `occurrence` of the subrecord node at `path`,
/// to a fresh value.
fn reset_subrecord<D, S, N, C, F, G>(
    Ghost(ctx): Ghost<MutationContext<D>>,
    record: &mut WritableRecord,
    decoded_values: &mut DecodedValues,
    path: &str,
    index: usize,
    occurrence: usize,
    root: &SchemaNode,
    localized: bool,
    decoders: &DecoderRegistry<D>,
    selector: &S,
    narrow: &N,
    pick: &C,
    finish: &F,
    interpret: &G,
) -> (res: Result<(), SemanticError>)
    where
        D: CustomDecoder,
        S: Fn(&SchemaNode, usize, &Vec<u8>) -> Result<Option<i64>, SemanticError>,
        N: Fn(u64) -> u32,
        C: Fn(&SchemaNode) -> Result<i64, SemanticError>,
        F: Fn(&SchemaNode, OwnedFieldValue, &Vec<usize>) -> Result<OwnedFieldValue, SemanticError>,
        G: Fn(&WritableRecord) -> Result<GrammarMatch, SemanticError>,
    requires
        runs_with(ctx, *root, *decoders, localized, *selector, *narrow, *interpret),
        old(decoded_values).wf(),
        fresh_with(ctx, *pick, *finish),
        index < old(record).subrecords@.len(),
    ensures
        final(decoded_values).wf(),
        resets_subrecord(ctx, (EditState { record: old(record)@, decoded: old(decoded_values)@ }), path@, index as nat, occurrence, outcome(res, final(record)@, final(decoded_values)@)),
{
    let node = match find_node_by_path(root, path) {
        Some(node) => node,
        None => {
            return Err(SemanticError::MissingPath(path.to_owned()));
        },
    };
    let (signature, payload) = match &node.kind {
        SchemaNodeKind::Subrecord { signature, payload } => (*signature, payload),
        _ => {
            return Err(encode_error(path, "schema-native default path is not a subrecord"));
        },
    };
    assert(node_by_path(*root, path@) == Some(*node));
    assert(prefixes_reserved(*node));
    if !same_signature(record.subrecords[index].signature, signature) {
        return Err(encode_error(path, "assigned subrecord signature does not match schema"));
    }
    let no_indices: Vec<usize> = Vec::new();
    assert(no_indices@ =~= Seq::<usize>::empty());
    let fresh = default_value_for_node(payload, localized, 0, &no_indices, pick, finish);
    proof {
        assert(candidate_default(owned_result(fresh)));
    }
    let value = match fresh {
        Ok(v) => v,
        Err(e) => {
            return Err(e);
        },
    };
    let enc = encode_node(payload, &value, localized, decoders, selector, narrow);
    proof {
        assert(candidate(bytes_of(enc)));
    }
    let bytes = match enc {
        Ok(b) => b,
        Err(e) => {
            return Err(e);
        },
    };
    set_payload(record, index, bytes);
    store_decoded(
        Ghost(ctx),
        Ghost(record@),
        decoded_values,
        payload,
        &value,
        path,
        occurrence,
        root,
        localized,
        decoders,
        selector,
        narrow,
        interpret,
    )
}

/// The error of a mutation that scoped callbacks may not make.
fn scoped_refusal_error(message: &str) -> (res: SemanticError)
    ensures
        scoped_refusal(res, message@),
{
    SemanticError::Handler { handler: String::from_str("def.after_set"), message: message.to_owned() }
}

/// Applies one handler mutation made inside repetition `scope` (see
/// [`applies_in_scope`]): occurrences are translated to the whole record and insertions
/// go inside the repetition. The other arguments are those of [`apply_mutation`].
pub fn apply_mutation_in_scope<D, S, N, C, F, G>(
    root: &SchemaNode,
    record_path: &str,
    record: &mut WritableRecord,
    decoded_values: &mut DecodedValues,
    scope: &RepeatScope,
    mutation: HandlerMutation,
    localized: bool,
    decoders: &DecoderRegistry<D>,
    selector: &S,
    narrow: &N,
    pick: &C,
    finish: &F,
    interpret: &G,
) -> (res: Result<(), SemanticError>)
    where
        D: CustomDecoder,
        S: Fn(&SchemaNode, usize, &Vec<u8>) -> Result<Option<i64>, SemanticError>,
        N: Fn(u64) -> u32,
        C: Fn(&SchemaNode) -> Result<i64, SemanticError>,
        F: Fn(&SchemaNode, OwnedFieldValue, &Vec<usize>) -> Result<OwnedFieldValue, SemanticError>,
        G: Fn(&WritableRecord) -> Result<GrammarMatch, SemanticError>,
    requires
        old(decoded_values).wf(),
        decoders.wf(),
        schema_reserved(*root),
        grammar_fits(*interpret),
        forall|bits: u64| narrow.requires((bits,)),
        forall|n: &SchemaNode, i: usize, p: &Vec<u8>| selector.requires((n, i, p)),
        forall|n: &SchemaNode| pick.requires((n,)),
        forall|n: &SchemaNode, v: OwnedFieldValue, ix: &Vec<usize>| finish.requires((n, v, ix)),
    ensures
        final(decoded_values).wf(),
        applies_in_scope(context_of(
            *root,
            record_path@,
            decoders@,
            localized,
            *selector,
            *narrow,
            *pick,
            *finish,
            *interpret,
        ), (EditState { record: old(record)@, decoded: old(decoded_values)@ }), *scope, mutation, outcome(res, final(record)@, final(decoded_values)@)),
        scoped_refused(mutation) ==> res is Err && final(record)@ == old(record)@ && final(decoded_values)@
            == old(decoded_values)@,
{
    let ghost ctx = context_of(
            *root,
            record_path@,
            decoders@,
            localized,
            *selector,
            *narrow,
            *pick,
            *finish,
            *interpret,
        );
    match mutation {
        HandlerMutation::SetRecordFlags { .. } => Err(
            scoped_refusal_error("scoped callbacks cannot replace main-record flags"),
        ),
        HandlerMutation::SetValue { path, occurrence, value } => {
            let t = scope_translate::<D, G>(Ghost(ctx), root, record, scope, path.as_str(), occurrence, interpret);
            proof {
                assert(candidate_scoped(picked_of(t)));
            }
            match t {
                Err(e) => Err(e),
                Ok(None) => Err(missing_occurrence(path.as_str(), occurrence)),
                Ok(Some((_, translated))) => {
                    let rebuilt = HandlerMutation::SetValue { path, occurrence: translated, value };
                    apply_mutation(
                    root,
                    record_path,
                    record,
                    decoded_values,
                    &rebuilt,
                    localized,
                    decoders,
                    selector,
                    narrow,
                    pick,
                    finish,
                    interpret,
                )
                },
            }
        },
        HandlerMutation::SetIfEqual { path, occurrence, expected, value } => {
            let t = scope_translate::<D, G>(Ghost(ctx), root, record, scope, path.as_str(), occurrence, interpret);
            proof {
                assert(candidate_scoped(picked_of(t)));
            }
            match t {
                Err(e) => Err(e),
                Ok(None) => Err(missing_occurrence(path.as_str(), occurrence)),
                Ok(Some((_, translated))) => {
                    let rebuilt = HandlerMutation::SetIfEqual { path, occurrence: translated, expected, value };
                    apply_mutation(
                    root,
                    record_path,
                    record,
                    decoded_values,
                    &rebuilt,
                    localized,
                    decoders,
                    selector,
                    narrow,
                    pick,
                    finish,
                    interpret,
                )
                },
            }
        },
        HandlerMutation::ReplacePayload { path, occurrence, data } => {
            let t = scope_translate::<D, G>(Ghost(ctx), root, record, scope, path.as_str(), occurrence, interpret);
            proof {
                assert(candidate_scoped(picked_of(t)));
            }
            match t {
                Err(e) => Err(e),
                Ok(None) => Err(missing_occurrence(path.as_str(), occurrence)),
                Ok(Some((_, translated))) => {
                    let rebuilt = HandlerMutation::ReplacePayload { path, occurrence: translated, data };
                    apply_mutation(
                    root,
                    record_path,
                    record,
                    decoded_values,
                    &rebuilt,
                    localized,
                    decoders,
                    selector,
                    narrow,
                    pick,
                    finish,
                    interpret,
                )
                },
            }
        },
        HandlerMutation::InsertPayload { .. } => Err(
            scoped_refusal_error("scoped callbacks cannot insert raw subrecord payloads"),
        ),
        HandlerMutation::ResetToDefault { path, occurrence } => {
            let t = scope_translate::<D, G>(Ghost(ctx), root, record, scope, path.as_str(), occurrence, interpret);
            proof {
                assert(candidate_scoped(picked_of(t)));
            }
            match t {
                Err(e) => Err(e),
                Ok(None) => Err(missing_occurrence(path.as_str(), occurrence)),
                Ok(Some((index, translated))) => reset_subrecord(
                    Ghost(ctx),
                    record,
                    decoded_values,
                    path.as_str(),
                    index,
                    translated,
                    root,
                    localized,
                    decoders,
                    selector,
                    narrow,
                    pick,
                    finish,
                    interpret,
                ),
            }
        },
        HandlerMutation::InsertDefault { path } => {
            let node = match find_node_by_path(root, path.as_str()) {
                Some(node) => node,
                None => {
                    return Err(SemanticError::MissingPath(path.clone()));
                },
            };
            let payload = match &node.kind {
                SchemaNodeKind::Subrecord { payload, .. } => payload,
                _ => {
                    return Err(encode_error(path.as_str(), "schema-native insertion path is not a subrecord"));
                },
            };
            assert(node_by_path(*root, path@) == Some(*node));
            let ix = place_in_scope::<D, G>(Ghost(ctx), root, record, node, scope, interpret);
            proof {
                assert(candidate_index(index_of(ix)));
            }
            if let Err(e) = ix {
                return Err(e);
            }
            let no_indices: Vec<usize> = Vec::new();
            assert(no_indices@ =~= Seq::<usize>::empty());
            let fresh = default_value_for_node(payload, localized, 0, &no_indices, pick, finish);
            proof {
                assert(candidate_default(owned_result(fresh)));
            }
            let value = match fresh {
                Ok(v) => v,
                Err(e) => {
                    return Err(e);
                },
            };
            insert_in_scope::<D, S, N, G>(
                Ghost(ctx),
                record,
                decoded_values,
                scope,
                path.as_str(),
                &value,
                root,
                localized,
                decoders,
                selector,
                narrow,
                interpret,
            )
        },
        HandlerMutation::RemoveContainer { path } => {
            if find_node_by_path(root, path.as_str()).is_none() {
                return Err(SemanticError::MissingPath(path.clone()));
            }
            let g = interpret(record);
            proof {
                reveal(interpreting_of);
                assert((ctx.interprets)(record@, g));
                assert(candidate_grammar(g));
            }
            let grammar = match g {
                Ok(grammar) => grammar,
                Err(e) => {
                    return Err(e);
                },
            };
            remove_container_assignments(
                root,
                record,
                decoded_values,
                &grammar,
                Some(scope),
                path.as_str(),
            )
        },
        HandlerMutation::RemoveContainerOccurrence { path, occurrence } => remove_container_occurrence(
            root,
            record,
            decoded_values,
            Some(scope),
            path.as_str(),
            occurrence,
            interpret,
        ),
        HandlerMutation::Insert { path, value } => insert_in_scope::<D, S, N, G>(
                Ghost(ctx),
                record,
                decoded_values,
                scope,
                path.as_str(),
                &value,
                root,
                localized,
                decoders,
                selector,
                narrow,
                interpret,
            ),
        HandlerMutation::Remove { path, occurrence } => {
            let t = scope_translate::<D, G>(Ghost(ctx), root, record, scope, path.as_str(), occurrence, interpret);
            proof {
                assert(candidate_scoped(picked_of(t)));
            }
            match t {
                Err(e) => Err(e),
                Ok(None) => Err(missing_occurrence(path.as_str(), occurrence)),
                Ok(Some((_, translated))) => {
                    let rebuilt = HandlerMutation::Remove { path, occurrence: translated };
                    apply_mutation(
                    root,
                    record_path,
                    record,
                    decoded_values,
                    &rebuilt,
                    localized,
                    decoders,
                    selector,
                    narrow,
                    pick,
                    finish,
                    interpret,
                )
                },
            }
        },
        HandlerMutation::RemoveAll { path } => remove_all_in_scope::<D, S, N, G>(
            Ghost(ctx),
            record,
            decoded_values,
            scope,
            path.as_str(),
            root,
            localized,
            decoders,
            selector,
            narrow,
            interpret,
        ),
        HandlerMutation::RemoveAllBySignature { .. } => Err(
            scoped_refusal_error("scoped callbacks cannot remove raw subrecords by signature"),
        ),
        HandlerMutation::RemoveFirstBySignature { .. } => Err(
            scoped_refusal_error("scoped callbacks cannot remove raw subrecords by signature"),
        ),
        HandlerMutation::SynchronizeCount { path, occurrence, value, remove_when_zero } => {
            let t = scope_translate::<D, G>(Ghost(ctx), root, record, scope, path.as_str(), occurrence, interpret);
            proof {
                assert(candidate_scoped(picked_of(t)));
            }
            match t {
                Err(e) => Err(e),
                Ok(Some((_, translated))) => {
                    let rebuilt = HandlerMutation::SynchronizeCount {
                        path,
                        occurrence: translated,
                        value,
                        remove_when_zero,
                    };
                    apply_mutation(
                    root,
                    record_path,
                    record,
                    decoded_values,
                    &rebuilt,
                    localized,
                    decoders,
                    selector,
                    narrow,
                    pick,
                    finish,
                    interpret,
                )
                },
                Ok(None) => {
                    if value == 0 && remove_when_zero {
                        Ok(())
                    } else {
                        let counted = OwnedFieldValue::UInt(value);
                        insert_in_scope::<D, S, N, G>(
                Ghost(ctx),
                record,
                decoded_values,
                scope,
                path.as_str(),
                &counted,
                root,
                localized,
                decoders,
                selector,
                narrow,
                interpret,
            )
                    }
                },
            }
        },
        HandlerMutation::SynchronizePresence { path, occurrence, present, value } => {
            let t = scope_translate::<D, G>(Ghost(ctx), root, record, scope, path.as_str(), occurrence, interpret);
            proof {
                assert(candidate_scoped(picked_of(t)));
            }
            match t {
                Err(e) => Err(e),
                Ok(Some((_, translated))) => {
                    let rebuilt = HandlerMutation::SynchronizePresence {
                        path,
                        occurrence: translated,
                        present,
                        value,
                    };
                    apply_mutation(
                    root,
                    record_path,
                    record,
                    decoded_values,
                    &rebuilt,
                    localized,
                    decoders,
                    selector,
                    narrow,
                    pick,
                    finish,
                    interpret,
                )
                },
                Ok(None) => {
                    if present {
                        insert_in_scope::<D, S, N, G>(
                Ghost(ctx),
                record,
                decoded_values,
                scope,
                path.as_str(),
                &value,
                root,
                localized,
                decoders,
                selector,
                narrow,
                interpret,
            )
                    } else {
                        Ok(())
                    }
                },
            }
        },
    }
}

} // verus!
