//! Editing one top-level field of a record as a single transaction: the new value is
//! normalized, its after-set processing runs, it is encoded into its subrecord, and the
//! mutations and record-level callbacks that follow are applied; either all of this
//! takes effect or nothing does.
use vstd::prelude::*;
use vstd::string::*;

use crate::address::RepeatScope;
use crate::after_set::{after_set_context_of, after_sets, candidate_pair, pair_of, apply_after_set_tree, AfterSetContext};
use crate::apply::{
    candidate_grammar, candidate_slot, context_of, grammar_fits, interpreting_of, locate, locates,
    insert_subrecord, missing_path_is, place, places, remove_subrecord, with_subrecord, candidate_index, index_of, schema_reserved, set_payload, slot_of, with_data, without_subrecord,
    EditState, MutationContext,
};
use crate::assignment::{assigned_count, assigned_occurrence_count, changed_field_at, ChangedField, GrammarMatch};
use crate::changes::{
    apply_after_set_callbacks, apply_local_mutations_with_scope, applies_local_with_scope,
    record_invoking_of, runs_record_after_set, value_at,
};
use crate::context::{CallbackBinding, HandlerOutput};
use crate::convert::{candidate_value, converts, owned_to_handler_value, value_of};
use crate::decoded::{remove_decoded_occurrence, removed_occurrence, DecodedKey, DecodedValues};
use crate::decoder::{CustomDecoder, DecoderRegistry};
use crate::defaults::owned_result;
use crate::editor::{encode_error, encode_error_is};
use crate::encode::{bytes_of, candidate, encode_node, encodes, prefixes_reserved};
use crate::model::{clone_record, RecordView, WritableRecord};
use crate::mutation::{missing_occurrence_is, HandlerMutation};
use crate::nested_edit::reached;
use crate::schema::{SchemaNode, SchemaNodeKind};
use crate::text::decimal;
use crate::tree::{find_node_by_path, node_by_path};
use crate::value::{FieldValue, OwnedFieldValue, SemanticError, SpecFieldValue, SpecOwnedValue};

verus! {

/// Marks a candidate owned-value outcome; every one is.
pub open spec fn candidate_owned(r: Result<SpecOwnedValue, SemanticError>) -> bool {
    true
}

/// Marks a candidate changed-field outcome; every one is.
pub open spec fn candidate_changed(r: Result<ChangedField, SemanticError>) -> bool {
    true
}

/// Whether `c` is the changed field that subrecord `index` of a record with grammar
/// match `g` belongs to: its node's path, its occurrence among the subrecords of that
/// node, and its repeat stack; a subrecord without an assignment or repeat stack is an
/// error.
pub open spec fn changed_is(record_path: Seq<char>, g: GrammarMatch, index: usize, c: Result<ChangedField, SemanticError>) -> bool {
    match (if index < g.assignments@.len() {
        g.assignments@[index as int]
    } else {
        None
    }) {
        None => c matches Err(e) && encode_error_is(
            e,
            record_path,
            "edited subrecord at index "@ + decimal(index as nat) + " has no grammar assignment"@,
        ),
        Some(a) => if index < g.repeat_scopes@.len() {
            c matches Ok(ch) && ch.path@ == a.path@ && ch.occurrence == assigned_count(
                g.assignments@.take(index as int),
                a.path@,
            ) && ch.repeat_scopes@ == g.repeat_scopes@[index as int]@
        } else {
            c matches Err(e) && encode_error_is(
                e,
                a.path@,
                "edited subrecord at index "@ + decimal(index as nat) + " has no repeat scope"@,
            )
        },
    }
}

/// Whether `out` is a possible outcome of committing the processed value `v` of the
/// subrecord node `payload`'s field at `path`, occurrence `occurrence`, at subrecord
/// `i`, with the mutations `ms` that its processing left: the value is encoded into
/// subrecord `i` (or, when `inserted` gives a signature, into a new subrecord with that
/// signature inserted at `i`) and its decoded value stored; then, for the field that the
/// subrecord belongs to, the mutations are applied in their repetitions and the
/// record-level after-set callbacks run, with `s`'s decoded values as the values before
/// the edit.
pub open spec fn commits<D: CustomDecoder>(
    ctx: MutationContext<D>,
    invokes: spec_fn(
        CallbackBinding,
        RecordView,
        Option<nat>,
        Option<SpecFieldValue>,
        Option<SpecFieldValue>,
        Result<crate::context::SpecHandlerOutput, SemanticError>,
    ) -> bool,
    bindings: Seq<CallbackBinding>,
    s: EditState,
    path: Seq<char>,
    occurrence: usize,
    payload: SchemaNode,
    inserted: Option<crate::model::Signature>,
    i: nat,
    v: SpecOwnedValue,
    ms: Seq<HandlerMutation>,
    out: Result<EditState, SemanticError>,
) -> bool {
    exists|enc: Result<Seq<u8>, SemanticError>|
        #[trigger] candidate(enc) && encodes(ctx.decoders, ctx.localized, ctx.selects, ctx.narrowed, payload, v, enc)
            && match enc {
            Err(e) => out == Err::<EditState, SemanticError>(e),
            Ok(b) => exists|conv: Result<SpecFieldValue, SemanticError>|
                #[trigger] candidate_value(conv) && converts(
                    ctx.decoders,
                    ctx.localized,
                    ctx.selects,
                    ctx.narrowed,
                    payload,
                    v,
                    conv,
                ) && match conv {
                    Err(e) => out == Err::<EditState, SemanticError>(e),
                    Ok(fv) => {
                        let r1 = match inserted {
                            Some(signature) => with_subrecord(
                                s.record,
                                i as int,
                                crate::model::SubRecordView { signature, data: b },
                            ),
                            None => with_data(s.record, i, b),
                        };
                        exists|g: Result<GrammarMatch, SemanticError>|
                            #[trigger] candidate_grammar(g) && (ctx.interprets)(r1, g) && match g {
                                Err(e) => out == Err::<EditState, SemanticError>(e),
                                Ok(gm) => exists|c: Result<ChangedField, SemanticError>|
                                    #[trigger] candidate_changed(c) && changed_is(ctx.record_path, gm, i as usize, c)
                                        && match c {
                                        Err(e) => out == Err::<EditState, SemanticError>(e),
                                        Ok(ch) => {
                                            let s1 = EditState {
                                                record: r1,
                                                decoded: s.decoded.insert((path, occurrence), fv),
                                            };
                                            exists|r2: Result<EditState, SemanticError>|
                                                #[trigger] candidate_state_of(r2) && applies_local_with_scope(
                                                    ctx,
                                                    ch,
                                                    ms,
                                                    0,
                                                    s1,
                                                    r2,
                                                ) && match r2 {
                                                    Err(e) => out == Err::<EditState, SemanticError>(e),
                                                    Ok(s2) => runs_record_after_set(
                                                        ctx,
                                                        invokes,
                                                        s.decoded,
                                                        ch,
                                                        bindings,
                                                        0,
                                                        s2,
                                                        out,
                                                    ),
                                                }
                                        },
                                    },
                            }
                    },
                },
        }
}

/// Marks a candidate state outcome; every one is.
pub open spec fn candidate_state_of(r: Result<EditState, SemanticError>) -> bool {
    true
}

/// Whether `out` is a possible outcome of setting occurrence `occurrence` of the
/// top-level field at `path` to `value` in state `s`. The path must name a subrecord
/// node and the grammar must place the occurrence; the value is normalized
/// (`normalizes`), its after-set processing runs against the field's decoded value
/// before the edit ([`after_sets`]), and the result is committed ([`commits`]).
pub open spec fn sets_field<D: CustomDecoder>(
    ctx: MutationContext<D>,
    tree: AfterSetContext<D>,
    normalizes: spec_fn(Seq<char>, SpecOwnedValue, Result<SpecOwnedValue, SemanticError>) -> bool,
    invokes: spec_fn(
        CallbackBinding,
        RecordView,
        Option<nat>,
        Option<SpecFieldValue>,
        Option<SpecFieldValue>,
        Result<crate::context::SpecHandlerOutput, SemanticError>,
    ) -> bool,
    bindings: Seq<CallbackBinding>,
    s: EditState,
    path: Seq<char>,
    occurrence: usize,
    value: SpecOwnedValue,
    out: Result<EditState, SemanticError>,
) -> bool {
    match node_by_path(ctx.root, path) {
        None => out matches Err(e) && missing_path_is(e, path),
        Some(node) => match node.kind {
            SchemaNodeKind::Subrecord { payload, .. } => exists|l: Result<Option<nat>, SemanticError>|
                #[trigger] candidate_slot(l) && locates(ctx, s.record, path, occurrence as nat, l) && match l {
                    Err(e) => out == Err::<EditState, SemanticError>(e),
                    Ok(None) => out matches Err(e) && missing_occurrence_is(e, path, occurrence as nat),
                    Ok(Some(i)) => exists|nv: Result<SpecOwnedValue, SemanticError>|
                        #[trigger] candidate_owned(nv) && normalizes(payload.path@, value, nv) && match nv {
                            Err(e) => out == Err::<EditState, SemanticError>(e),
                            Ok(v) => exists|t: Result<(SpecOwnedValue, Seq<HandlerMutation>), SemanticError>|
                                #[trigger] candidate_pair(t) && after_sets(
                                    tree,
                                    *payload,
                                    v,
                                    value_at(s.decoded, (path, occurrence)),
                                    t,
                                ) && match t {
                                    Err(e) => out == Err::<EditState, SemanticError>(e),
                                    Ok((v2, ms)) => commits(
                                        ctx,
                                        invokes,
                                        bindings,
                                        s,
                                        path,
                                        occurrence,
                                        *payload,
                                        None,
                                        i,
                                        v2,
                                        ms,
                                        out,
                                    ),
                                },
                        },
                },
            _ => out matches Err(e) && encode_error_is(e, path, "only top-level subrecords can be replaced"@),
        },
    }
}

/// The values that a normalizer may give for a path and a value.
#[verifier::opaque]
pub open spec fn normalizing_of<T: Fn(&str, &OwnedFieldValue) -> Result<OwnedFieldValue, SemanticError>>(
    normalize: T,
) -> spec_fn(Seq<char>, SpecOwnedValue, Result<SpecOwnedValue, SemanticError>) -> bool {
    |p: Seq<char>, v: SpecOwnedValue, r: Result<SpecOwnedValue, SemanticError>|
        exists|ps: &str, x: OwnedFieldValue, res: Result<OwnedFieldValue, SemanticError>|
            ps@ == p && x@ == v && owned_result(res) == r && #[trigger] normalize.ensures((ps, &x), res)
}

/// Sets occurrence `occurrence` of the top-level field at `path` to `value`, as one
/// transaction (see [`sets_field`]): on an error the record and the decoded values are
/// left as they were.
///
/// `normalize` gives the normalized form of a value for a payload path, `after_set` runs
/// one after-set callback of a node inside the value, and `after_set_record` one
/// record-level after-set callback; `bindings` are the schema package's callback
/// bindings. The other arguments are those of [`crate::apply::apply_mutation`].
pub fn set_value<D, S, N, C, F, G, T, I, R>(
    root: &SchemaNode,
    record_path: &str,
    record: &mut WritableRecord,
    decoded_values: &mut DecodedValues,
    path: &str,
    occurrence: usize,
    value: &OwnedFieldValue,
    bindings: &Vec<CallbackBinding>,
    localized: bool,
    decoders: &DecoderRegistry<D>,
    selector: &S,
    narrow: &N,
    pick: &C,
    finish: &F,
    interpret: &G,
    normalize: &T,
    after_set: &I,
    after_set_record: &R,
) -> (res: Result<(), SemanticError>)
    where
        D: CustomDecoder,
        S: Fn(&SchemaNode, usize, &Vec<u8>) -> Result<Option<i64>, SemanticError>,
        N: Fn(u64) -> u32,
        C: Fn(&SchemaNode) -> Result<i64, SemanticError>,
        F: Fn(&SchemaNode, OwnedFieldValue, &Vec<usize>) -> Result<OwnedFieldValue, SemanticError>,
        G: Fn(&WritableRecord) -> Result<GrammarMatch, SemanticError>,
        T: Fn(&str, &OwnedFieldValue) -> Result<OwnedFieldValue, SemanticError>,
        I: Fn(&CallbackBinding, &FieldValue, Option<&FieldValue>) -> Result<HandlerOutput, SemanticError>,
        R: Fn(&CallbackBinding, &WritableRecord, Option<usize>, Option<&FieldValue>, Option<&FieldValue>) -> Result<HandlerOutput, SemanticError>,
    requires
        old(decoded_values).wf(),
        decoders.wf(),
        schema_reserved(*root),
        grammar_fits(*interpret),
        forall|bits: u64| narrow.requires((bits,)),
        forall|n: &SchemaNode, i: usize, p: &Vec<u8>| selector.requires((n, i, p)),
        forall|n: &SchemaNode| pick.requires((n,)),
        forall|n: &SchemaNode, v: OwnedFieldValue, ix: &Vec<usize>| finish.requires((n, v, ix)),
        forall|p: &str, v: &OwnedFieldValue| normalize.requires((p, v)),
        forall|b: &CallbackBinding, c: &FieldValue, o: Option<&FieldValue>| after_set.requires((b, c, o)),
        forall|b: &CallbackBinding, r: &WritableRecord, i: Option<usize>, v: Option<&FieldValue>, o: Option<&FieldValue>|
            after_set_record.requires((b, r, i, v, o)),
    ensures
        final(decoded_values).wf(),
        sets_field(
            context_of(*root, record_path@, decoders@, localized, *selector, *narrow, *pick, *finish, *interpret),
            after_set_context_of(*bindings, decoders@, localized, *selector, *narrow, *pick, *finish, *after_set),
            normalizing_of(*normalize),
            record_invoking_of(*after_set_record),
            bindings@,
            EditState { record: old(record)@, decoded: old(decoded_values)@ },
            path@,
            occurrence,
            value@,
            reached(res, final(record)@, final(decoded_values)@),
        ),
        res is Err ==> final(record)@ == old(record)@ && final(decoded_values)@ == old(decoded_values)@,
{
    let ghost ctx = context_of(*root, record_path@, decoders@, localized, *selector, *narrow, *pick, *finish, *interpret);
    let ghost s = EditState { record: record@, decoded: decoded_values@ };
    let node = match find_node_by_path(root, path) {
        Some(n) => n,
        None => {
            return Err(SemanticError::MissingPath(path.to_owned()));
        },
    };
    assert(node_by_path(*root, path@) == Some(*node));
    assert(prefixes_reserved(*node));
    let payload = match &node.kind {
        SchemaNodeKind::Subrecord { payload, .. } => payload,
        _ => {
            return Err(encode_error(path, "only top-level subrecords can be replaced"));
        },
    };
    let l = locate::<D, G>(Ghost(ctx), record, path, occurrence, interpret);
    assert(candidate_slot(slot_of(l)));
    let i = match l {
        Err(e) => {
            return Err(e);
        },
        Ok(None) => {
            return Err(crate::mutation::missing_occurrence(path, occurrence));
        },
        Ok(Some(i)) => i,
    };
    let nv = normalize(payload.path.as_str(), value);
    proof {
        reveal(normalizing_of);
        assert(normalizing_of(*normalize)(payload.path@, value@, owned_result(nv)));
        assert(candidate_owned(owned_result(nv)));
    }
    let normalized = match nv {
        Ok(v) => v,
        Err(e) => {
            return Err(e);
        },
    };
    let previous = decoded_values.get(path, occurrence);
    assert(crate::after_set::field_opt(previous) == value_at(s.decoded, (path@, occurrence)));
    let t = apply_after_set_tree(
        payload,
        &normalized,
        previous,
        bindings,
        localized,
        decoders,
        selector,
        narrow,
        pick,
        finish,
        after_set,
    );
    assert(candidate_pair(pair_of(t)));
    let (processed, mutations) = match t {
        Ok(p) => p,
        Err(e) => {
            return Err(e);
        },
    };
    let enc = encode_node(payload, &processed, localized, decoders, selector, narrow);
    assert(candidate(bytes_of(enc)));
    let bytes = match enc {
        Ok(b) => b,
        Err(e) => {
            return Err(e);
        },
    };
    let conv = owned_to_handler_value(payload, &processed, localized, decoders, selector, narrow);
    assert(candidate_value(value_of(conv)));
    let decoded = match conv {
        Ok(v) => v,
        Err(e) => {
            return Err(e);
        },
    };
    let mut candidate_record = clone_record(record);
    assert(candidate_record.subrecords@.len() == candidate_record@.subrecords.len());
    assert(record.subrecords@.len() == record@.subrecords.len());
    set_payload(&mut candidate_record, i, bytes);
    let g = interpret(&candidate_record);
    proof {
        reveal(interpreting_of);
        assert((ctx.interprets)(candidate_record@, g));
        assert(candidate_grammar(g));
    }
    let grammar = match g {
        Ok(g) => g,
        Err(e) => {
            return Err(e);
        },
    };
    let c = changed_field_at(record_path, &grammar, i);
    assert(candidate_changed(c));
    let changed = match c {
        Ok(ch) => ch,
        Err(e) => {
            return Err(e);
        },
    };
    let mut candidate_values = decoded_values.copy();
    candidate_values.insert(path.to_owned(), occurrence, decoded);
    let ghost s1 = EditState { record: candidate_record@, decoded: candidate_values@ };
    let local = apply_local_mutations_with_scope(
        root,
        record_path,
        &mut candidate_record,
        &mut candidate_values,
        &changed,
        mutations,
        localized,
        decoders,
        selector,
        narrow,
        pick,
        finish,
        interpret,
    );
    assert(candidate_state_of(crate::apply::outcome(local, candidate_record@, candidate_values@)));
    if let Err(e) = local {
        return Err(e);
    }
    let callbacks = apply_after_set_callbacks(
        root,
        record_path,
        &mut candidate_record,
        &mut candidate_values,
        decoded_values,
        &changed,
        bindings,
        localized,
        decoders,
        selector,
        narrow,
        pick,
        finish,
        interpret,
        after_set_record,
    );
    if let Err(e) = callbacks {
        return Err(e);
    }
    *record = candidate_record;
    *decoded_values = candidate_values;
    Ok(())
}

/// Whether `out` is a possible outcome of removing occurrence `occurrence` of the
/// top-level field at `path` from state `s`. The path must name a subrecord node and the
/// grammar must place the occurrence; the field that the subrecord belongs to is read
/// from the record before the removal; the subrecord and its decoded value go (later
/// occurrences move down), and the record-level after-set callbacks for that field run,
/// with `s`'s decoded values as the values before the edit.
pub open spec fn removes_field<D: CustomDecoder>(
    ctx: MutationContext<D>,
    invokes: spec_fn(
        CallbackBinding,
        RecordView,
        Option<nat>,
        Option<SpecFieldValue>,
        Option<SpecFieldValue>,
        Result<crate::context::SpecHandlerOutput, SemanticError>,
    ) -> bool,
    bindings: Seq<CallbackBinding>,
    s: EditState,
    path: Seq<char>,
    occurrence: usize,
    out: Result<EditState, SemanticError>,
) -> bool {
    match node_by_path(ctx.root, path) {
        None => out matches Err(e) && missing_path_is(e, path),
        Some(node) => match node.kind {
            SchemaNodeKind::Subrecord { .. } => exists|l: Result<Option<nat>, SemanticError>|
                #[trigger] candidate_slot(l) && locates(ctx, s.record, path, occurrence as nat, l) && match l {
                    Err(e) => out == Err::<EditState, SemanticError>(e),
                    Ok(None) => out matches Err(e) && missing_occurrence_is(e, path, occurrence as nat),
                    Ok(Some(i)) => exists|g: Result<GrammarMatch, SemanticError>|
                        #[trigger] candidate_grammar(g) && (ctx.interprets)(s.record, g) && match g {
                            Err(e) => out == Err::<EditState, SemanticError>(e),
                            Ok(gm) => exists|c: Result<ChangedField, SemanticError>|
                                #[trigger] candidate_changed(c) && changed_is(ctx.record_path, gm, i as usize, c)
                                    && match c {
                                    Err(e) => out == Err::<EditState, SemanticError>(e),
                                    Ok(ch) => runs_record_after_set(
                                        ctx,
                                        invokes,
                                        s.decoded,
                                        ch,
                                        bindings,
                                        0,
                                        EditState {
                                            record: without_subrecord(s.record, i),
                                            decoded: removed_occurrence(s.decoded, path, occurrence),
                                        },
                                        out,
                                    ),
                                },
                        },
                },
            _ => out matches Err(e) && encode_error_is(e, path, "only top-level subrecords can be removed"@),
        },
    }
}

/// Removes occurrence `occurrence` of the top-level field at `path`, as one transaction
/// (see [`removes_field`]): on an error the record and the decoded values are left as
/// they were. The arguments are those of [`set_value`].
pub fn remove_field<D, S, N, C, F, G, R>(
    root: &SchemaNode,
    record_path: &str,
    record: &mut WritableRecord,
    decoded_values: &mut DecodedValues,
    path: &str,
    occurrence: usize,
    bindings: &Vec<CallbackBinding>,
    localized: bool,
    decoders: &DecoderRegistry<D>,
    selector: &S,
    narrow: &N,
    pick: &C,
    finish: &F,
    interpret: &G,
    after_set_record: &R,
) -> (res: Result<(), SemanticError>)
    where
        D: CustomDecoder,
        S: Fn(&SchemaNode, usize, &Vec<u8>) -> Result<Option<i64>, SemanticError>,
        N: Fn(u64) -> u32,
        C: Fn(&SchemaNode) -> Result<i64, SemanticError>,
        F: Fn(&SchemaNode, OwnedFieldValue, &Vec<usize>) -> Result<OwnedFieldValue, SemanticError>,
        G: Fn(&WritableRecord) -> Result<GrammarMatch, SemanticError>,
        R: Fn(&CallbackBinding, &WritableRecord, Option<usize>, Option<&FieldValue>, Option<&FieldValue>) -> Result<HandlerOutput, SemanticError>,
    requires
        old(decoded_values).wf(),
        decoders.wf(),
        schema_reserved(*root),
        grammar_fits(*interpret),
        forall|bits: u64| narrow.requires((bits,)),
        forall|n: &SchemaNode, i: usize, p: &Vec<u8>| selector.requires((n, i, p)),
        forall|n: &SchemaNode| pick.requires((n,)),
        forall|n: &SchemaNode, v: OwnedFieldValue, ix: &Vec<usize>| finish.requires((n, v, ix)),
        forall|b: &CallbackBinding, r: &WritableRecord, i: Option<usize>, v: Option<&FieldValue>, o: Option<&FieldValue>|
            after_set_record.requires((b, r, i, v, o)),
    ensures
        final(decoded_values).wf(),
        removes_field(
            context_of(*root, record_path@, decoders@, localized, *selector, *narrow, *pick, *finish, *interpret),
            record_invoking_of(*after_set_record),
            bindings@,
            EditState { record: old(record)@, decoded: old(decoded_values)@ },
            path@,
            occurrence,
            reached(res, final(record)@, final(decoded_values)@),
        ),
        res is Err ==> final(record)@ == old(record)@ && final(decoded_values)@ == old(decoded_values)@,
{
    let ghost ctx = context_of(*root, record_path@, decoders@, localized, *selector, *narrow, *pick, *finish, *interpret);
    let node = match find_node_by_path(root, path) {
        Some(n) => n,
        None => {
            return Err(SemanticError::MissingPath(path.to_owned()));
        },
    };
    match &node.kind {
        SchemaNodeKind::Subrecord { .. } => {},
        _ => {
            return Err(encode_error(path, "only top-level subrecords can be removed"));
        },
    }
    let l = locate::<D, G>(Ghost(ctx), record, path, occurrence, interpret);
    assert(candidate_slot(slot_of(l)));
    let i = match l {
        Err(e) => {
            return Err(e);
        },
        Ok(None) => {
            return Err(crate::mutation::missing_occurrence(path, occurrence));
        },
        Ok(Some(i)) => i,
    };
    let g = interpret(record);
    proof {
        reveal(interpreting_of);
        assert((ctx.interprets)(record@, g));
        assert(candidate_grammar(g));
    }
    let grammar = match g {
        Ok(g) => g,
        Err(e) => {
            return Err(e);
        },
    };
    let c = changed_field_at(record_path, &grammar, i);
    assert(candidate_changed(c));
    let changed = match c {
        Ok(ch) => ch,
        Err(e) => {
            return Err(e);
        },
    };
    let mut candidate_record = clone_record(record);
    assert(candidate_record.subrecords@.len() == candidate_record@.subrecords.len());
    assert(record.subrecords@.len() == record@.subrecords.len());
    remove_subrecord(&mut candidate_record, i);
    let mut candidate_values = decoded_values.copy();
    remove_decoded_occurrence(&mut candidate_values, path, occurrence);
    let callbacks = apply_after_set_callbacks(
        root,
        record_path,
        &mut candidate_record,
        &mut candidate_values,
        decoded_values,
        &changed,
        bindings,
        localized,
        decoders,
        selector,
        narrow,
        pick,
        finish,
        interpret,
        after_set_record,
    );
    if let Err(e) = callbacks {
        return Err(e);
    }
    *record = candidate_record;
    *decoded_values = candidate_values;
    Ok(())
}

/// Whether `out` is a possible outcome of inserting a new occurrence of the top-level
/// field at `path` with `value` into state `s`. The path must name a subrecord node; the
/// new subrecord goes where the schema order puts it ([`places`]) and becomes the next
/// occurrence of the path; the value is normalized, its after-set processing runs with
/// no value before the edit, and the result is committed ([`commits`]).
pub open spec fn inserts_field<D: CustomDecoder>(
    ctx: MutationContext<D>,
    tree: AfterSetContext<D>,
    normalizes: spec_fn(Seq<char>, SpecOwnedValue, Result<SpecOwnedValue, SemanticError>) -> bool,
    invokes: spec_fn(
        CallbackBinding,
        RecordView,
        Option<nat>,
        Option<SpecFieldValue>,
        Option<SpecFieldValue>,
        Result<crate::context::SpecHandlerOutput, SemanticError>,
    ) -> bool,
    bindings: Seq<CallbackBinding>,
    s: EditState,
    path: Seq<char>,
    value: SpecOwnedValue,
    out: Result<EditState, SemanticError>,
) -> bool {
    match node_by_path(ctx.root, path) {
        None => out matches Err(e) && missing_path_is(e, path),
        Some(node) => match node.kind {
            SchemaNodeKind::Subrecord { signature, payload } => exists|ix: Result<int, SemanticError>|
                #[trigger] candidate_index(ix) && places(ctx, s.record, node, ix) && match ix {
                    Err(e) => out == Err::<EditState, SemanticError>(e),
                    Ok(at) => exists|g: Result<GrammarMatch, SemanticError>|
                        #[trigger] candidate_grammar(g) && (ctx.interprets)(s.record, g) && match g {
                            Err(e) => out == Err::<EditState, SemanticError>(e),
                            Ok(gm) => {
                                let occurrence = assigned_count(gm.assignments@, path) as usize;
                                exists|nv: Result<SpecOwnedValue, SemanticError>|
                                    #[trigger] candidate_owned(nv) && normalizes(payload.path@, value, nv) && match nv {
                                        Err(e) => out == Err::<EditState, SemanticError>(e),
                                        Ok(v) => exists|t: Result<(SpecOwnedValue, Seq<HandlerMutation>), SemanticError>|
                                            #[trigger] candidate_pair(t) && after_sets(tree, *payload, v, None, t) && match t {
                                                Err(e) => out == Err::<EditState, SemanticError>(e),
                                                Ok((v2, ms)) => commits(
                                                    ctx,
                                                    invokes,
                                                    bindings,
                                                    s,
                                                    path,
                                                    occurrence,
                                                    *payload,
                                                    Some(signature),
                                                    at as nat,
                                                    v2,
                                                    ms,
                                                    out,
                                                ),
                                            },
                                    }
                            },
                        },
                },
            _ => out matches Err(e) && encode_error_is(e, path, "only top-level subrecords can be inserted"@),
        },
    }
}

/// Inserts a new occurrence of the top-level field at `path` with `value`, after the
/// existing ones, as one transaction (see [`inserts_field`]): on an error the record and
/// the decoded values are left as they were. The arguments are those of [`set_value`].
pub fn insert_field<D, S, N, C, F, G, T, I, R>(
    root: &SchemaNode,
    record_path: &str,
    record: &mut WritableRecord,
    decoded_values: &mut DecodedValues,
    path: &str,
    value: &OwnedFieldValue,
    bindings: &Vec<CallbackBinding>,
    localized: bool,
    decoders: &DecoderRegistry<D>,
    selector: &S,
    narrow: &N,
    pick: &C,
    finish: &F,
    interpret: &G,
    normalize: &T,
    after_set: &I,
    after_set_record: &R,
) -> (res: Result<(), SemanticError>)
    where
        D: CustomDecoder,
        S: Fn(&SchemaNode, usize, &Vec<u8>) -> Result<Option<i64>, SemanticError>,
        N: Fn(u64) -> u32,
        C: Fn(&SchemaNode) -> Result<i64, SemanticError>,
        F: Fn(&SchemaNode, OwnedFieldValue, &Vec<usize>) -> Result<OwnedFieldValue, SemanticError>,
        G: Fn(&WritableRecord) -> Result<GrammarMatch, SemanticError>,
        T: Fn(&str, &OwnedFieldValue) -> Result<OwnedFieldValue, SemanticError>,
        I: Fn(&CallbackBinding, &FieldValue, Option<&FieldValue>) -> Result<HandlerOutput, SemanticError>,
        R: Fn(&CallbackBinding, &WritableRecord, Option<usize>, Option<&FieldValue>, Option<&FieldValue>) -> Result<HandlerOutput, SemanticError>,
    requires
        old(decoded_values).wf(),
        decoders.wf(),
        schema_reserved(*root),
        grammar_fits(*interpret),
        forall|bits: u64| narrow.requires((bits,)),
        forall|n: &SchemaNode, i: usize, p: &Vec<u8>| selector.requires((n, i, p)),
        forall|n: &SchemaNode| pick.requires((n,)),
        forall|n: &SchemaNode, v: OwnedFieldValue, ix: &Vec<usize>| finish.requires((n, v, ix)),
        forall|p: &str, v: &OwnedFieldValue| normalize.requires((p, v)),
        forall|b: &CallbackBinding, c: &FieldValue, o: Option<&FieldValue>| after_set.requires((b, c, o)),
        forall|b: &CallbackBinding, r: &WritableRecord, i: Option<usize>, v: Option<&FieldValue>, o: Option<&FieldValue>|
            after_set_record.requires((b, r, i, v, o)),
    ensures
        final(decoded_values).wf(),
        inserts_field(
            context_of(*root, record_path@, decoders@, localized, *selector, *narrow, *pick, *finish, *interpret),
            after_set_context_of(*bindings, decoders@, localized, *selector, *narrow, *pick, *finish, *after_set),
            normalizing_of(*normalize),
            record_invoking_of(*after_set_record),
            bindings@,
            EditState { record: old(record)@, decoded: old(decoded_values)@ },
            path@,
            value@,
            reached(res, final(record)@, final(decoded_values)@),
        ),
        res is Err ==> final(record)@ == old(record)@ && final(decoded_values)@ == old(decoded_values)@,
{
    let ghost ctx = context_of(*root, record_path@, decoders@, localized, *selector, *narrow, *pick, *finish, *interpret);
    let node = match find_node_by_path(root, path) {
        Some(n) => n,
        None => {
            return Err(SemanticError::MissingPath(path.to_owned()));
        },
    };
    assert(node_by_path(*root, path@) == Some(*node));
    assert(prefixes_reserved(*node));
    let (signature, payload) = match &node.kind {
        SchemaNodeKind::Subrecord { signature, payload } => (*signature, payload),
        _ => {
            return Err(encode_error(path, "only top-level subrecords can be inserted"));
        },
    };
    let ix = place::<D, G>(Ghost(ctx), root, record, node, interpret);
    assert(candidate_index(index_of(ix)));
    let at = match ix {
        Ok(at) => at,
        Err(e) => {
            return Err(e);
        },
    };
    let g = interpret(record);
    proof {
        reveal(interpreting_of);
        assert((ctx.interprets)(record@, g));
        assert(candidate_grammar(g));
    }
    let grammar = match g {
        Ok(g) => g,
        Err(e) => {
            return Err(e);
        },
    };
    let occurrence = assigned_occurrence_count(&grammar, path);
    let nv = normalize(payload.path.as_str(), value);
    proof {
        reveal(normalizing_of);
        assert(normalizing_of(*normalize)(payload.path@, value@, owned_result(nv)));
        assert(candidate_owned(owned_result(nv)));
    }
    let normalized = match nv {
        Ok(v) => v,
        Err(e) => {
            return Err(e);
        },
    };
    let t = apply_after_set_tree(
        payload,
        &normalized,
        None,
        bindings,
        localized,
        decoders,
        selector,
        narrow,
        pick,
        finish,
        after_set,
    );
    assert(candidate_pair(pair_of(t)));
    let (processed, mutations) = match t {
        Ok(p) => p,
        Err(e) => {
            return Err(e);
        },
    };
    let enc = encode_node(payload, &processed, localized, decoders, selector, narrow);
    assert(candidate(bytes_of(enc)));
    let bytes = match enc {
        Ok(b) => b,
        Err(e) => {
            return Err(e);
        },
    };
    let conv = owned_to_handler_value(payload, &processed, localized, decoders, selector, narrow);
    assert(candidate_value(value_of(conv)));
    let decoded = match conv {
        Ok(v) => v,
        Err(e) => {
            return Err(e);
        },
    };
    let mut candidate_record = clone_record(record);
    assert(candidate_record.subrecords@.len() == candidate_record@.subrecords.len());
    assert(record.subrecords@.len() == record@.subrecords.len());
    insert_subrecord(&mut candidate_record, at, crate::model::WritableSubRecord { signature, data: bytes });
    let g2 = interpret(&candidate_record);
    proof {
        assert((ctx.interprets)(candidate_record@, g2));
        assert(candidate_grammar(g2));
    }
    let grammar2 = match g2 {
        Ok(g) => g,
        Err(e) => {
            return Err(e);
        },
    };
    let c = changed_field_at(record_path, &grammar2, at);
    assert(candidate_changed(c));
    let changed = match c {
        Ok(ch) => ch,
        Err(e) => {
            return Err(e);
        },
    };
    let mut candidate_values = decoded_values.copy();
    candidate_values.insert(path.to_owned(), occurrence, decoded);
    let local = apply_local_mutations_with_scope(
        root,
        record_path,
        &mut candidate_record,
        &mut candidate_values,
        &changed,
        mutations,
        localized,
        decoders,
        selector,
        narrow,
        pick,
        finish,
        interpret,
    );
    assert(candidate_state_of(crate::apply::outcome(local, candidate_record@, candidate_values@)));
    if let Err(e) = local {
        return Err(e);
    }
    let callbacks = apply_after_set_callbacks(
        root,
        record_path,
        &mut candidate_record,
        &mut candidate_values,
        decoded_values,
        &changed,
        bindings,
        localized,
        decoders,
        selector,
        narrow,
        pick,
        finish,
        interpret,
        after_set_record,
    );
    if let Err(e) = callbacks {
        return Err(e);
    }
    *record = candidate_record;
    *decoded_values = candidate_values;
    Ok(())
}

} // verus!
