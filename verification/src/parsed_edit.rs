//! Writing a parsed edit: a value, with the mutations that parsing its text asked for,
//! set at a path that may lie inside a subrecord's payload. The containing subrecord
//! occurrence that holds the path is rebuilt from its decoded value with the write made
//! inside it, and the result is committed as one transaction.
use vstd::prelude::*;
use vstd::string::*;

use crate::after_set::{after_set_context_of, after_sets, apply_after_set_tree, candidate_pair, pair_of, AfterSetContext};
use crate::apply::{
    candidate_grammar, context_of, grammar_fits, interpreting_of, missing_path_is, nth_assigned, schema_reserved,
    set_payload, EditState, MutationContext,
};
use crate::assignment::{assigned_count, assigned_occurrence_count, assigned_subrecord_index, changed_field_at, GrammarMatch};
use crate::changes::{apply_after_set_callbacks, apply_local_mutations_with_scope, record_invoking_of};
use crate::context::{CallbackBinding, HandlerOutput};
use crate::convert::{candidate_value, owned_to_handler_value, value_of};
use crate::decoded::DecodedValues;
use crate::decoder::{CustomDecoder, DecoderRegistry};
use crate::defaults::owned_result;
use crate::editing::{candidate_changed, candidate_owned, candidate_state_of, commits, normalizing_of};
use crate::editor::{encode_error, encode_error_is};
use crate::encode::{bytes_of, candidate, encode_node, prefixes_reserved};
use crate::model::{clone_record, RecordView, WritableRecord};
use crate::mutation::{missing_occurrence, missing_occurrence_is, HandlerMutation};
use crate::nested::{candidate_update, set_nested_value, update, update_of, Update};
use crate::nested_edit::reached;
use crate::schema::{SchemaNode, SchemaNodeKind};
use crate::tree::{containing_subrecord, find_containing_subrecord, find_node_by_path, node_by_path};
use crate::value::{owned_form, owned_from_decoded, FieldValue, OwnedFieldValue, SemanticError, SpecFieldValue, SpecOwnedValue};

verus! {

/// Whether `out` is a possible outcome of writing the normalized value `v` as match
/// `remaining` of `path`, trying the occurrences of the containing subrecord node
/// `parent` from `po` up to `count` (those that grammar match `gm` assigns): an
/// occurrence without a decoded value is passed over; in one with a value the write is
/// tried in its owned form, read with `payload` ([`update`]); the first that holds the
/// match has its after-set processing run against its decoded value before the edit, and
/// is committed with the mutations that processing left followed by `extra`. When none
/// holds it, occurrence `occurrence` of `path` is missing.
pub open spec fn sets_parsed_from<D: CustomDecoder>(
    ctx: MutationContext<D>,
    tree: AfterSetContext<D>,
    invokes: spec_fn(
        CallbackBinding,
        RecordView,
        Option<nat>,
        Option<SpecFieldValue>,
        Option<SpecFieldValue>,
        Result<crate::context::SpecHandlerOutput, SemanticError>,
    ) -> bool,
    bindings: Seq<CallbackBinding>,
    s: EditState,
    parent: SchemaNode,
    payload: SchemaNode,
    path: Seq<char>,
    occurrence: usize,
    v: SpecOwnedValue,
    extra: Seq<HandlerMutation>,
    gm: GrammarMatch,
    count: nat,
    po: nat,
    remaining: nat,
    out: Result<EditState, SemanticError>,
) -> bool
    decreases count - po,
{
    if po >= count {
        out matches Err(e) && missing_occurrence_is(e, path, occurrence as nat)
    } else if !s.decoded.dom().contains((parent.path@, po as usize)) {
        sets_parsed_from(ctx, tree, invokes, bindings, s, parent, payload, path, occurrence, v, extra, gm, count, po + 1, remaining, out)
    } else {
        let current = s.decoded[(parent.path@, po as usize)];
        exists|u: Result<Update, SemanticError>|
            #[trigger] candidate_update(u) && update(
                ctx.decoders,
                ctx.localized,
                ctx.selects,
                ctx.narrowed,
                payload,
                owned_form(current),
                path,
                remaining,
                Some(v),
                u,
            ) && match u {
                Err(e) => out == Err::<EditState, SemanticError>(e),
                Ok(Update::Missing(rest)) => sets_parsed_from(
                    ctx,
                    tree,
                    invokes,
                    bindings,
                    s,
                    parent,
                    payload,
                    path,
                    occurrence,
                    v,
                    extra,
                    gm,
                    count,
                    po + 1,
                    rest,
                    out,
                ),
                Ok(Update::Done(updated)) => exists|i: nat|
                    #[trigger] nth_assigned(gm, parent.path@, po, i) && exists|
                        t: Result<(SpecOwnedValue, Seq<HandlerMutation>), SemanticError>,
                    | #[trigger] candidate_pair(t) && after_sets(tree, payload, updated, Some(current), t) && match t {
                        Err(e) => out == Err::<EditState, SemanticError>(e),
                        Ok((v2, ms)) => commits(
                            ctx,
                            invokes,
                            bindings,
                            s,
                            parent.path@,
                            po as usize,
                            payload,
                            None,
                            i,
                            v2,
                            ms + extra,
                            out,
                        ),
                    },
            }
    }
}

/// Whether `out` is a possible outcome of setting occurrence `occurrence` of `path` to
/// the parsed value `value`, with the mutations `extra` that parsing asked for, in state
/// `s`. The path must name a schema node inside a subrecord node; the value is
/// normalized for the path, the record's grammar gives the containing subrecord's
/// occurrences, and they are tried in increasing order ([`sets_parsed_from`]).
pub open spec fn sets_parsed<D: CustomDecoder>(
    ctx: MutationContext<D>,
    tree: AfterSetContext<D>,
    normalizes: spec_fn(Seq<char>, SpecOwnedValue, Result<SpecOwnedValue, SemanticError>) -> bool,
    invokes: spec_fn(
        CallbackBinding,
        RecordView,
        Option<nat>,
        Option<SpecFieldValue>,
        Option<SpecFieldValue>,
        Result<crate::context::SpecHandlerOutput, SemanticError>,
    ) -> bool,
    bindings: Seq<CallbackBinding>,
    s: EditState,
    path: Seq<char>,
    occurrence: usize,
    value: SpecOwnedValue,
    extra: Seq<HandlerMutation>,
    out: Result<EditState, SemanticError>,
) -> bool {
    match node_by_path(ctx.root, path) {
        None => out matches Err(e) && missing_path_is(e, path),
        Some(target) => match containing_subrecord(ctx.root, path, None) {
            None => out matches Err(e) && missing_path_is(e, path),
            Some(parent) => match parent.kind {
                SchemaNodeKind::Subrecord { payload, .. } => exists|nv: Result<SpecOwnedValue, SemanticError>|
                    #[trigger] candidate_owned(nv) && normalizes(target.path@, value, nv) && match nv {
                        Err(e) => out == Err::<EditState, SemanticError>(e),
                        Ok(v) => exists|g: Result<GrammarMatch, SemanticError>|
                            #[trigger] candidate_grammar(g) && (ctx.interprets)(s.record, g) && match g {
                                Err(e) => out == Err::<EditState, SemanticError>(e),
                                Ok(gm) => sets_parsed_from(
                                    ctx,
                                    tree,
                                    invokes,
                                    bindings,
                                    s,
                                    parent,
                                    *payload,
                                    path,
                                    occurrence,
                                    v,
                                    extra,
                                    gm,
                                    assigned_count(gm.assignments@, parent.path@),
                                    0,
                                    occurrence as nat,
                                    out,
                                ),
                            },
                    },
                _ => out matches Err(e) && encode_error_is(e, path, "parsed edit has no containing subrecord"@),
            },
        },
    }
}

/// Commits the processed value `v` of occurrence `po` of the subrecord node with path
/// `parent_path` and payload `payload` at subrecord `i`, with the mutations `ms` (see
/// [`commits`]); on an error nothing changes.
fn commit<D, S, N, C, F, G, R>(
    root: &SchemaNode,
    record_path: &str,
    record: &mut WritableRecord,
    decoded_values: &mut DecodedValues,
    parent_path: &str,
    po: usize,
    payload: &SchemaNode,
    i: usize,
    v: &OwnedFieldValue,
    ms: Vec<HandlerMutation>,
    bindings: &Vec<CallbackBinding>,
    localized: bool,
    decoders: &DecoderRegistry<D>,
    selector: &S,
    narrow: &N,
    pick: &C,
    finish: &F,
    interpret: &G,
    after_set_record: &R,
) -> (res: Result<(), SemanticError>)
    where
        D: CustomDecoder,
        S: Fn(&SchemaNode, usize, &Vec<u8>) -> Result<Option<i64>, SemanticError>,
        N: Fn(u64) -> u32,
        C: Fn(&SchemaNode) -> Result<i64, SemanticError>,
        F: Fn(&SchemaNode, OwnedFieldValue, &Vec<usize>) -> Result<OwnedFieldValue, SemanticError>,
        G: Fn(&WritableRecord) -> Result<GrammarMatch, SemanticError>,
        R: Fn(&CallbackBinding, &WritableRecord, Option<usize>, Option<&FieldValue>, Option<&FieldValue>) -> Result<HandlerOutput, SemanticError>,
    requires
        old(decoded_values).wf(),
        decoders.wf(),
        schema_reserved(*root),
        grammar_fits(*interpret),
        prefixes_reserved(*payload),
        i < old(record).subrecords@.len(),
        forall|bits: u64| narrow.requires((bits,)),
        forall|n: &SchemaNode, k: usize, p: &Vec<u8>| selector.requires((n, k, p)),
        forall|n: &SchemaNode| pick.requires((n,)),
        forall|n: &SchemaNode, x: OwnedFieldValue, ix: &Vec<usize>| finish.requires((n, x, ix)),
        forall|b: &CallbackBinding, r: &WritableRecord, k: Option<usize>, x: Option<&FieldValue>, o: Option<&FieldValue>|
            after_set_record.requires((b, r, k, x, o)),
    ensures
        final(decoded_values).wf(),
        commits(
            context_of(*root, record_path@, decoders@, localized, *selector, *narrow, *pick, *finish, *interpret),
            record_invoking_of(*after_set_record),
            bindings@,
            EditState { record: old(record)@, decoded: old(decoded_values)@ },
            parent_path@,
            po,
            *payload,
            None,
            i as nat,
            v@,
            ms@,
            reached(res, final(record)@, final(decoded_values)@),
        ),
        res is Err ==> final(record)@ == old(record)@ && final(decoded_values)@ == old(decoded_values)@,
{
    let ghost ctx = context_of(*root, record_path@, decoders@, localized, *selector, *narrow, *pick, *finish, *interpret);
    let enc = encode_node(payload, v, localized, decoders, selector, narrow);
    assert(candidate(bytes_of(enc)));
    let bytes = match enc {
        Ok(b) => b,
        Err(e) => {
            return Err(e);
        },
    };
    let conv = owned_to_handler_value(payload, v, localized, decoders, selector, narrow);
    assert(candidate_value(value_of(conv)));
    let decoded = match conv {
        Ok(x) => x,
        Err(e) => {
            return Err(e);
        },
    };
    let mut candidate_record = clone_record(record);
    assert(candidate_record.subrecords@.len() == candidate_record@.subrecords.len());
    assert(record.subrecords@.len() == record@.subrecords.len());
    set_payload(&mut candidate_record, i, bytes);
    let g = interpret(&candidate_record);
    proof {
        reveal(interpreting_of);
        assert((ctx.interprets)(candidate_record@, g));
        assert(candidate_grammar(g));
    }
    let grammar = match g {
        Ok(g) => g,
        Err(e) => {
            return Err(e);
        },
    };
    let c = changed_field_at(record_path, &grammar, i);
    assert(candidate_changed(c));
    let changed = match c {
        Ok(ch) => ch,
        Err(e) => {
            return Err(e);
        },
    };
    let mut candidate_values = decoded_values.copy();
    candidate_values.insert(parent_path.to_owned(), po, decoded);
    let local = apply_local_mutations_with_scope(
        root,
        record_path,
        &mut candidate_record,
        &mut candidate_values,
        &changed,
        ms,
        localized,
        decoders,
        selector,
        narrow,
        pick,
        finish,
        interpret,
    );
    assert(candidate_state_of(crate::apply::outcome(local, candidate_record@, candidate_values@)));
    if let Err(e) = local {
        return Err(e);
    }
    let callbacks = apply_after_set_callbacks(
        root,
        record_path,
        &mut candidate_record,
        &mut candidate_values,
        decoded_values,
        &changed,
        bindings,
        localized,
        decoders,
        selector,
        narrow,
        pick,
        finish,
        interpret,
        after_set_record,
    );
    if let Err(e) = callbacks {
        return Err(e);
    }
    *record = candidate_record;
    *decoded_values = candidate_values;
    Ok(())
}

/// Sets occurrence `occurrence` of `path`, which may lie inside a subrecord's payload, to
/// the parsed value `value`, and applies the mutations `extra` that parsing its text
/// asked for, as one transaction (see [`sets_parsed`]): the value is normalized for the
/// path, the first occurrence of the containing subrecord whose decoded value holds the
/// requested match of the path is rebuilt with the value written into it, its after-set
/// processing runs, and it is committed with the mutations that followed, `extra`
/// last. On an error the record and the decoded values are left as they were. The
/// other arguments are those of [`crate::editing::set_value`].
pub fn set_parsed_value<D, S, N, C, F, G, T, I, R>(
    root: &SchemaNode,
    record_path: &str,
    record: &mut WritableRecord,
    decoded_values: &mut DecodedValues,
    path: &str,
    occurrence: usize,
    value: &OwnedFieldValue,
    extra: Vec<HandlerMutation>,
    bindings: &Vec<CallbackBinding>,
    localized: bool,
    decoders: &DecoderRegistry<D>,
    selector: &S,
    narrow: &N,
    pick: &C,
    finish: &F,
    interpret: &G,
    normalize: &T,
    after_set: &I,
    after_set_record: &R,
) -> (res: Result<(), SemanticError>)
    where
        D: CustomDecoder,
        S: Fn(&SchemaNode, usize, &Vec<u8>) -> Result<Option<i64>, SemanticError>,
        N: Fn(u64) -> u32,
        C: Fn(&SchemaNode) -> Result<i64, SemanticError>,
        F: Fn(&SchemaNode, OwnedFieldValue, &Vec<usize>) -> Result<OwnedFieldValue, SemanticError>,
        G: Fn(&WritableRecord) -> Result<GrammarMatch, SemanticError>,
        T: Fn(&str, &OwnedFieldValue) -> Result<OwnedFieldValue, SemanticError>,
        I: Fn(&CallbackBinding, &FieldValue, Option<&FieldValue>) -> Result<HandlerOutput, SemanticError>,
        R: Fn(&CallbackBinding, &WritableRecord, Option<usize>, Option<&FieldValue>, Option<&FieldValue>) -> Result<HandlerOutput, SemanticError>,
    requires
        old(decoded_values).wf(),
        decoders.wf(),
        schema_reserved(*root),
        grammar_fits(*interpret),
        forall|bits: u64| narrow.requires((bits,)),
        forall|n: &SchemaNode, i: usize, p: &Vec<u8>| selector.requires((n, i, p)),
        forall|n: &SchemaNode| pick.requires((n,)),
        forall|n: &SchemaNode, v: OwnedFieldValue, ix: &Vec<usize>| finish.requires((n, v, ix)),
        forall|p: &str, v: &OwnedFieldValue| normalize.requires((p, v)),
        forall|b: &CallbackBinding, c: &FieldValue, o: Option<&FieldValue>| after_set.requires((b, c, o)),
        forall|b: &CallbackBinding, r: &WritableRecord, i: Option<usize>, v: Option<&FieldValue>, o: Option<&FieldValue>|
            after_set_record.requires((b, r, i, v, o)),
    ensures
        final(decoded_values).wf(),
        sets_parsed(
            context_of(*root, record_path@, decoders@, localized, *selector, *narrow, *pick, *finish, *interpret),
            after_set_context_of(*bindings, decoders@, localized, *selector, *narrow, *pick, *finish, *after_set),
            normalizing_of(*normalize),
            record_invoking_of(*after_set_record),
            bindings@,
            EditState { record: old(record)@, decoded: old(decoded_values)@ },
            path@,
            occurrence,
            value@,
            extra@,
            reached(res, final(record)@, final(decoded_values)@),
        ),
        res is Err ==> final(record)@ == old(record)@ && final(decoded_values)@ == old(decoded_values)@,
{
    let ghost ctx = context_of(*root, record_path@, decoders@, localized, *selector, *narrow, *pick, *finish, *interpret);
    let ghost tree = after_set_context_of(*bindings, decoders@, localized, *selector, *narrow, *pick, *finish, *after_set);
    let ghost invokes = record_invoking_of(*after_set_record);
    let ghost s = EditState { record: record@, decoded: decoded_values@ };
    let ghost extra_view = extra@;
    let target = match find_node_by_path(root, path) {
        Some(n) => n,
        None => {
            return Err(SemanticError::MissingPath(path.to_owned()));
        },
    };
    let parent = match find_containing_subrecord(root, path) {
        Some(p) => p,
        None => {
            return Err(SemanticError::MissingPath(path.to_owned()));
        },
    };
    assert(crate::tree::opt_node(Some(parent)) == Some(*parent));
    let payload = match &parent.kind {
        SchemaNodeKind::Subrecord { payload, .. } => payload,
        _ => {
            return Err(encode_error(path, "parsed edit has no containing subrecord"));
        },
    };
    assert(prefixes_reserved(*parent));
    assert(prefixes_reserved(**payload));
    let nv = normalize(target.path.as_str(), value);
    proof {
        reveal(normalizing_of);
        assert(normalizing_of(*normalize)(target.path@, value@, owned_result(nv)));
        assert(candidate_owned(owned_result(nv)));
    }
    let normalized = match nv {
        Ok(v) => v,
        Err(e) => {
            return Err(e);
        },
    };
    let ghost v = normalized@;
    let g = interpret(record);
    proof {
        reveal(interpreting_of);
        assert((ctx.interprets)(record@, g));
        assert(candidate_grammar(g));
    }
    let grammar = match g {
        Ok(g) => g,
        Err(e) => {
            return Err(e);
        },
    };
    let count = assigned_occurrence_count(&grammar, parent.path.as_str());
    let ghost gm = grammar;
    proof {
        assert forall|out: Result<EditState, SemanticError>|
            sets_parsed_from(ctx, tree, invokes, bindings@, s, *parent, **payload, path@, occurrence, v, extra_view, gm, count as nat, 0, occurrence as nat, out)
                implies #[trigger] sets_parsed(ctx, tree, normalizing_of(*normalize), invokes, bindings@, s, path@, occurrence, value@, extra_view, out) by {
            assert(candidate_owned(owned_result(nv)));
            assert(candidate_grammar(g));
        }
    }
    let mut remaining = occurrence;
    let mut replacement = Some(normalized);
    let mut po: usize = 0;
    while po < count
        invariant
            decoded_values.wf(),
            decoders.wf(),
            schema_reserved(*root),
            prefixes_reserved(**payload),
            grammar_fits(*interpret),
            forall|bits: u64| narrow.requires((bits,)),
            forall|n: &SchemaNode, i: usize, p: &Vec<u8>| selector.requires((n, i, p)),
            forall|n: &SchemaNode| pick.requires((n,)),
            forall|n: &SchemaNode, x: OwnedFieldValue, ix: &Vec<usize>| finish.requires((n, x, ix)),
            forall|b: &CallbackBinding, c: &FieldValue, o: Option<&FieldValue>| after_set.requires((b, c, o)),
            forall|b: &CallbackBinding, r: &WritableRecord, i: Option<usize>, x: Option<&FieldValue>, o: Option<&FieldValue>|
                after_set_record.requires((b, r, i, x, o)),
            ctx == context_of(*root, record_path@, decoders@, localized, *selector, *narrow, *pick, *finish, *interpret),
            tree == after_set_context_of(*bindings, decoders@, localized, *selector, *narrow, *pick, *finish, *after_set),
            invokes == record_invoking_of(*after_set_record),
            s == (EditState { record: old(record)@, decoded: old(decoded_values)@ }),
            record@ == s.record,
            decoded_values@ == s.decoded,
            grammar == gm,
            gm.assignments@.len() == record.subrecords@.len(),
            count == assigned_count(gm.assignments@, parent.path@),
            extra@ == extra_view,
            crate::nested::owned_option(replacement) == Some(v),
            forall|out: Result<EditState, SemanticError>|
                sets_parsed_from(ctx, tree, invokes, bindings@, s, *parent, **payload, path@, occurrence, v, extra_view, gm, count as nat, 0, occurrence as nat, out)
                    ==> #[trigger] sets_parsed(ctx, tree, normalizing_of(*normalize), invokes, bindings@, s, path@, occurrence, value@, extra_view, out),
            po <= count,
            forall|out: Result<EditState, SemanticError>|
                sets_parsed_from(ctx, tree, invokes, bindings@, s, *parent, **payload, path@, occurrence, v, extra_view, gm, count as nat, po as nat, remaining as nat, out)
                    ==> #[trigger] sets_parsed_from(
                    ctx,
                    tree,
                    invokes,
                    bindings@,
                    s,
                    *parent,
                    **payload,
                    path@,
                    occurrence,
                    v,
                    extra_view,
                    gm,
                    count as nat,
                    0,
                    occurrence as nat,
                    out,
                ),
        decreases count - po,
    {
        let ghost here = remaining as nat;
        let current = match decoded_values.get(parent.path.as_str(), po) {
            Some(c) => c,
            None => {
                proof {
                    assert forall|out: Result<EditState, SemanticError>|
                        sets_parsed_from(ctx, tree, invokes, bindings@, s, *parent, **payload, path@, occurrence, v, extra_view, gm, count as nat, (po + 1) as nat, remaining as nat, out)
                            implies #[trigger] sets_parsed_from(ctx, tree, invokes, bindings@, s, *parent, **payload, path@, occurrence, v, extra_view, gm, count as nat, 0, occurrence as nat, out) by {
                        assert(sets_parsed_from(ctx, tree, invokes, bindings@, s, *parent, **payload, path@, occurrence, v, extra_view, gm, count as nat, po as nat, here, out));
                    }
                }
                po += 1;
                continue;
            },
        };
        let mut updated = owned_from_decoded(current);
        let r = set_nested_value(
            payload,
            &mut updated,
            path,
            &mut remaining,
            &mut replacement,
            localized,
            decoders,
            selector,
            narrow,
        );
        assert(candidate_update(update_of(r, updated@, remaining)));
        match r {
            Err(e) => {
                assert(sets_parsed_from(ctx, tree, invokes, bindings@, s, *parent, **payload, path@, occurrence, v, extra_view, gm, count as nat, po as nat, here, Err(e)));
                assert(sets_parsed_from(ctx, tree, invokes, bindings@, s, *parent, **payload, path@, occurrence, v, extra_view, gm, count as nat, 0, occurrence as nat, Err(e)));
                return Err(e);
            },
            Ok(true) => {
                let i = match assigned_subrecord_index(&grammar, parent.path.as_str(), po) {
                    Ok(i) => i,
                    Err(e) => {
                        return Err(e);
                    },
                };
                assert(nth_assigned(gm, parent.path@, po as nat, i as nat));
                let t = apply_after_set_tree(
                    payload,
                    &updated,
                    Some(current),
                    bindings,
                    localized,
                    decoders,
                    selector,
                    narrow,
                    pick,
                    finish,
                    after_set,
                );
                assert(candidate_pair(pair_of(t)));
                let (processed, mut mutations) = match t {
                    Err(e) => {
                        assert(sets_parsed_from(ctx, tree, invokes, bindings@, s, *parent, **payload, path@, occurrence, v, extra_view, gm, count as nat, po as nat, here, Err(e)));
                        assert(sets_parsed_from(ctx, tree, invokes, bindings@, s, *parent, **payload, path@, occurrence, v, extra_view, gm, count as nat, 0, occurrence as nat, Err(e)));
                        return Err(e);
                    },
                    Ok(p) => p,
                };
                let ghost ms = mutations@;
                let mut extra = extra;
                mutations.append(&mut extra);
                assert(mutations@ == ms + extra_view);
                let w = commit(
                    root,
                    record_path,
                    record,
                    decoded_values,
                    parent.path.as_str(),
                    po,
                    payload,
                    i,
                    &processed,
                    mutations,
                    bindings,
                    localized,
                    decoders,
                    selector,
                    narrow,
                    pick,
                    finish,
                    interpret,
                    after_set_record,
                );
                assert(sets_parsed_from(
                    ctx,
                    tree,
                    invokes,
                    bindings@,
                    s,
                    *parent,
                    **payload,
                    path@,
                    occurrence,
                    v,
                    extra_view,
                    gm,
                    count as nat,
                    po as nat,
                    here,
                    reached(w, record@, decoded_values@),
                ));
                return w;
            },
            Ok(false) => {},
        }
        proof {
            assert forall|out: Result<EditState, SemanticError>|
                sets_parsed_from(ctx, tree, invokes, bindings@, s, *parent, **payload, path@, occurrence, v, extra_view, gm, count as nat, (po + 1) as nat, remaining as nat, out)
                    implies #[trigger] sets_parsed_from(ctx, tree, invokes, bindings@, s, *parent, **payload, path@, occurrence, v, extra_view, gm, count as nat, 0, occurrence as nat, out) by {
                assert(sets_parsed_from(ctx, tree, invokes, bindings@, s, *parent, **payload, path@, occurrence, v, extra_view, gm, count as nat, po as nat, here, out));
            }
        }
        po += 1;
    }
    let e = missing_occurrence(path, occurrence);
    assert(sets_parsed_from(ctx, tree, invokes, bindings@, s, *parent, **payload, path@, occurrence, v, extra_view, gm, count as nat, po as nat, remaining as nat, Err(e)));
    Err(e)
}

} // verus!
