//! What follows a change of one field of a record: the mutations that the field's own
//! callbacks asked for are applied inside the field's repetitions, then every after-set
//! callback bound to the record, to the field or to a node above it runs, and the
//! mutations it asks for are applied.
use vstd::prelude::*;
use vstd::string::*;

use crate::address::RepeatScope;
use crate::apply::{
    applies_all, applies_one, apply_mutation, apply_mutations_with_values, candidate_grammar, candidate_slot, candidate_state,
    context_of, grammar_fits, interpreting_of, locate, locates, outcome,
    schema_reserved, scope_view, slot_of, EditState, MutationContext,
};
use crate::assignment::{scoped_record, scoped_subrecords, ChangedField, GrammarMatch};
use crate::context::{
    candidate_output, handler_error_is, is_executable, output_of, CallbackBinding,
    CallbackImplementation, HandlerOutput, SpecHandlerOutput,
};
use crate::decoded::{DecodedKey, DecodedValues};
use crate::decoder::{CustomDecoder, DecoderRegistry};
use crate::after_set::{field_opt, field_ref};
use crate::model::{clone_record, RecordView, WritableRecord};
use crate::mutation::{missing_occurrence, missing_occurrence_is, mutation_path, path_of, HandlerMutation};
use crate::schema::SchemaNode;
use crate::scoped::{apply_mutation_in_scope, applies_in_scope};
use crate::text::text_eq;
use crate::tree::{is_within, path_is_within};
use crate::value::{FieldValue, OwnedFieldValue, SemanticError, SpecFieldValue};

verus! {

/// Whether a binding is a record-level after-set callback for a change of the field at
/// `changed_path`: one bound to the record itself, to the field, or to a node above it.
pub open spec fn after_set_applies(b: CallbackBinding, record_path: Seq<char>, changed_path: Seq<char>) -> bool {
    b.callback_id@ == "def.after_set"@ && (b.path@ == record_path || is_within(changed_path, b.path@))
}

/// The length in bytes of a path's text.
pub open spec fn byte_len(path: Seq<char>) -> usize {
    vstd::utf8::encode_utf8(path).len() as usize
}

/// The repetition, among the first `n` of a repeat stack, that a callback bound at
/// `path`, or a mutation addressed to `path`, belongs to: of those at or above the path,
/// the one with the longest path text, the last of them on a tie.
pub open spec fn scope_choice(scopes: Seq<RepeatScope>, path: Seq<char>, n: int) -> Option<RepeatScope>
    decreases n,
{
    if n <= 0 {
        None
    } else {
        let rest = scope_choice(scopes, path, n - 1);
        let s = scopes[n - 1];
        if is_within(path, s.path@) {
            match rest {
                Some(t) => if byte_len(s.path@) >= byte_len(t.path@) {
                    Some(s)
                } else {
                    Some(t)
                },
                None => Some(s),
            }
        } else {
            rest
        }
    }
}

/// The value that a decoded-value map holds for a key, if any.
pub open spec fn value_at(m: Map<DecodedKey, SpecFieldValue>, key: DecodedKey) -> Option<SpecFieldValue> {
    if m.contains_key(key) {
        Some(m[key])
    } else {
        None
    }
}

/// Marks a candidate source record; every one is.
pub open spec fn candidate_source(r: Result<RecordView, SemanticError>) -> bool {
    true
}

/// Whether `out` is a possible record that a callback running in repetition `scope` is
/// shown: the whole record without a repetition, otherwise the header with only the
/// subrecords that the grammar places in the repetition.
pub open spec fn sources<D: CustomDecoder>(
    ctx: MutationContext<D>,
    r: RecordView,
    scope: Option<RepeatScope>,
    out: Result<RecordView, SemanticError>,
) -> bool {
    match scope {
        None => out == Ok::<RecordView, SemanticError>(r),
        Some(sc) => exists|g: Result<GrammarMatch, SemanticError>|
            #[trigger] candidate_grammar(g) && (ctx.interprets)(r, g) && match g {
                Err(e) => out == Err::<RecordView, SemanticError>(e),
                Ok(gm) => out == Ok::<RecordView, SemanticError>(
                    RecordView {
                        subrecords: scoped_subrecords(
                            r.subrecords,
                            gm.repeat_scopes@,
                            sc,
                            if r.subrecords.len() <= gm.repeat_scopes@.len() {
                                r.subrecords.len() as int
                            } else {
                                gm.repeat_scopes@.len() as int
                            },
                        ),
                        ..r
                    },
                ),
            },
    }
}

/// Whether `out` is a possible outcome of applying the mutations from index `k` on, each
/// made inside repetition `scope`, in order, stopping at the first error.
pub open spec fn applies_each_in_scope<D: CustomDecoder>(
    ctx: MutationContext<D>,
    s: EditState,
    scope: RepeatScope,
    ms: Seq<HandlerMutation>,
    k: nat,
    out: Result<EditState, SemanticError>,
) -> bool
    decreases ms.len() - k,
{
    if k >= ms.len() {
        out == Ok::<EditState, SemanticError>(s)
    } else {
        exists|r: Result<EditState, SemanticError>|
            #[trigger] candidate_state(r) && applies_in_scope(ctx, s, scope, ms[k as int], r) && match r {
                Err(e) => out == Err::<EditState, SemanticError>(e),
                Ok(next) => applies_each_in_scope(ctx, next, scope, ms, k + 1, out),
            }
    }
}

/// Whether `out` is a possible outcome of a callback's output `o` in state `s`: nothing
/// changes, the mutations it asks for are applied (inside the repetition, when there is
/// one), or the output is refused.
pub open spec fn follows_output<D: CustomDecoder>(
    ctx: MutationContext<D>,
    s: EditState,
    scope: Option<RepeatScope>,
    b: CallbackBinding,
    o: Result<SpecHandlerOutput, SemanticError>,
    out: Result<EditState, SemanticError>,
) -> bool {
    match o {
        Err(e) => out == Err::<EditState, SemanticError>(e),
        Ok(SpecHandlerOutput::Nothing) => out == Ok::<EditState, SemanticError>(s),
        Ok(SpecHandlerOutput::Mutations(ms)) => match scope {
            Some(sc) => applies_each_in_scope(ctx, s, sc, ms, 0, out),
            None => applies_all(ctx, s, ms, 0, out),
        },
        Ok(SpecHandlerOutput::GroupSortRequested) => out matches Err(e) && handler_error_is(
            e,
            "edit.sort_info_group"@,
            "INFO group sorting requires a plugin-level edit transaction"@,
        ),
        Ok(_) => out matches Err(e) && handler_error_is(
            e,
            b.callback_id@,
            "record-level after-set callback returned an invalid result"@,
        ),
    }
}

/// Whether `out` is a possible outcome of running one applicable binding `b` in state
/// `s`, for the change `changed` of a field whose decoded values before the edit were
/// `previous`.
///
/// The binding must be executable. It runs in the repetition that [`scope_choice`]
/// picks, on the record that [`sources`] gives. A callback bound to the changed field
/// itself is pointed at that field's subrecord in the record it is shown (the first one
/// of its path inside a repetition) and is given the field's decoded value now and
/// before the edit; any other callback is given the record alone.
pub open spec fn runs_record_binding<D: CustomDecoder>(
    ctx: MutationContext<D>,
    invokes: spec_fn(
        CallbackBinding,
        RecordView,
        Option<nat>,
        Option<SpecFieldValue>,
        Option<SpecFieldValue>,
        Result<SpecHandlerOutput, SemanticError>,
    ) -> bool,
    previous: Map<DecodedKey, SpecFieldValue>,
    changed: ChangedField,
    s: EditState,
    b: CallbackBinding,
    out: Result<EditState, SemanticError>,
) -> bool {
    if !is_executable(b.implementation) {
        out matches Err(e) && handler_error_is(
            e,
            b.callback_id@,
            "record-level after-set callback is not executable"@,
        )
    } else {
        let scope = scope_choice(changed.repeat_scopes@, b.path@, changed.repeat_scopes@.len() as int);
        exists|src: Result<RecordView, SemanticError>|
            #[trigger] candidate_source(src) && sources(ctx, s.record, scope, src) && match src {
                Err(e) => out == Err::<EditState, SemanticError>(e),
                Ok(r) => if b.path@ == changed.path@ {
                    let key = (b.path@, changed.occurrence);
                    let local = if scope is Some {
                        0nat
                    } else {
                        changed.occurrence as nat
                    };
                    exists|l: Result<Option<nat>, SemanticError>|
                        #[trigger] candidate_slot(l) && locates(ctx, r, b.path@, local, l) && match l {
                            Err(e) => out == Err::<EditState, SemanticError>(e),
                            Ok(None) => out matches Err(e) && missing_occurrence_is(e, b.path@, local),
                            Ok(Some(i)) => exists|o: Result<SpecHandlerOutput, SemanticError>|
                                #[trigger] candidate_output(o) && invokes(
                                    b,
                                    r,
                                    Some(i),
                                    value_at(s.decoded, key),
                                    value_at(previous, key),
                                    o,
                                ) && follows_output(ctx, s, scope, b, o, out),
                        }
                } else {
                    exists|o: Result<SpecHandlerOutput, SemanticError>|
                        #[trigger] candidate_output(o) && invokes(b, r, None, None, None, o) && follows_output(
                            ctx,
                            s,
                            scope,
                            b,
                            o,
                            out,
                        )
                },
            }
    }
}

/// Whether `out` is a possible outcome of running, from binding `k` on and in binding
/// order, every record-level after-set callback that applies to the change (see
/// [`after_set_applies`] and [`runs_record_binding`]), stopping at the first error.
pub open spec fn runs_record_after_set<D: CustomDecoder>(
    ctx: MutationContext<D>,
    invokes: spec_fn(
        CallbackBinding,
        RecordView,
        Option<nat>,
        Option<SpecFieldValue>,
        Option<SpecFieldValue>,
        Result<SpecHandlerOutput, SemanticError>,
    ) -> bool,
    previous: Map<DecodedKey, SpecFieldValue>,
    changed: ChangedField,
    bindings: Seq<CallbackBinding>,
    k: nat,
    s: EditState,
    out: Result<EditState, SemanticError>,
) -> bool
    decreases bindings.len() - k,
{
    if k >= bindings.len() {
        out == Ok::<EditState, SemanticError>(s)
    } else if !after_set_applies(bindings[k as int], ctx.record_path, changed.path@) {
        runs_record_after_set(ctx, invokes, previous, changed, bindings, k + 1, s, out)
    } else {
        exists|r: Result<EditState, SemanticError>|
            #[trigger] candidate_state(r) && runs_record_binding(
                ctx,
                invokes,
                previous,
                changed,
                s,
                bindings[k as int],
                r,
            ) && match r {
                Err(e) => out == Err::<EditState, SemanticError>(e),
                Ok(next) => runs_record_after_set(ctx, invokes, previous, changed, bindings, k + 1, next, out),
            }
    }
}

/// Whether `out` is a possible outcome of applying the mutations from index `k` on that
/// callbacks of the changed field `changed` asked for, in order, stopping at the first
/// error: each inside the repetition of the field that it is addressed to (see
/// [`scope_choice`]), or to the whole record when there is none.
pub open spec fn applies_local_with_scope<D: CustomDecoder>(
    ctx: MutationContext<D>,
    changed: ChangedField,
    ms: Seq<HandlerMutation>,
    k: nat,
    s: EditState,
    out: Result<EditState, SemanticError>,
) -> bool
    decreases ms.len() - k,
{
    if k >= ms.len() {
        out == Ok::<EditState, SemanticError>(s)
    } else {
        exists|r: Result<EditState, SemanticError>|
            #[trigger] candidate_state(r) && match scope_choice(
                changed.repeat_scopes@,
                path_of(ms[k as int]),
                changed.repeat_scopes@.len() as int,
            ) {
                Some(sc) => applies_in_scope(ctx, s, sc, ms[k as int], r),
                None => applies_one(ctx, s, ms[k as int], r),
            } && match r {
                Err(e) => out == Err::<EditState, SemanticError>(e),
                Ok(next) => applies_local_with_scope(ctx, changed, ms, k + 1, next, out),
            }
    }
}

/// An optional subrecord index as a natural number.
pub open spec fn index_opt(i: Option<usize>) -> Option<nat> {
    match i {
        Some(x) => Some(x as nat),
        None => None,
    }
}

/// The outputs that a record-level callback invoker may give for a binding, the record
/// it is shown, the subrecord it is pointed at, and the field's values now and before.
#[verifier::opaque]
pub open spec fn record_invoking_of<
    I: Fn(&CallbackBinding, &WritableRecord, Option<usize>, Option<&FieldValue>, Option<&FieldValue>) -> Result<HandlerOutput, SemanticError>,
>(invoke: I) -> spec_fn(
    CallbackBinding,
    RecordView,
    Option<nat>,
    Option<SpecFieldValue>,
    Option<SpecFieldValue>,
    Result<SpecHandlerOutput, SemanticError>,
) -> bool {
    |
        b: CallbackBinding,
        r: RecordView,
        index: Option<nat>,
        value: Option<SpecFieldValue>,
        old: Option<SpecFieldValue>,
        o: Result<SpecHandlerOutput, SemanticError>,
    |
        exists|
            rec: WritableRecord,
            ix: Option<usize>,
            vx: Option<FieldValue>,
            ox: Option<FieldValue>,
            res: Result<HandlerOutput, SemanticError>,
        |
            rec@ == r && index_opt(ix) == index && field_opt(field_ref(vx)) == value && field_opt(
                field_ref(ox),
            ) == old && output_of(res) == o && #[trigger] invoke.ensures(
                (&b, &rec, ix, field_ref(vx), field_ref(ox)),
                res,
            )
}

/// The repetition that a callback bound at, or a mutation addressed to, `path` belongs
/// to (see [`scope_choice`]).
fn choose_scope<'a>(scopes: &'a Vec<RepeatScope>, path: &str) -> (res: Option<&'a RepeatScope>)
    ensures
        scope_view(res) == scope_choice(scopes@, path@, scopes@.len() as int),
{
    let mut best: Option<&RepeatScope> = None;
    let mut best_len: usize = 0;
    let mut i: usize = 0;
    while i < scopes.len()
        invariant
            i <= scopes@.len(),
            scope_view(best) == scope_choice(scopes@, path@, i as int),
            best matches Some(t) ==> best_len == byte_len(t.path@),
        decreases scopes.len() - i,
    {
        let s = &scopes[i];
        if path_is_within(path, s.path.as_str()) {
            let len = s.path.as_str().len();
            let take = match best {
                Some(_) => len >= best_len,
                None => true,
            };
            if take {
                best = Some(s);
                best_len = len;
            }
        }
        i += 1;
    }
    best
}

/// The record that a callback running in repetition `scope` is shown (see [`sources`]).
fn source_record<D: CustomDecoder, G>(
    Ghost(ctx): Ghost<MutationContext<D>>,
    record: &WritableRecord,
    scope: Option<&RepeatScope>,
    interpret: &G,
) -> (res: Result<WritableRecord, SemanticError>)
    where
        G: Fn(&WritableRecord) -> Result<GrammarMatch, SemanticError>,
    requires
        ctx.interprets == interpreting_of(*interpret),
        grammar_fits(*interpret),
    ensures
        sources(
            ctx,
            record@,
            scope_view(scope),
            match res {
                Ok(r) => Ok(r@),
                Err(e) => Err(e),
            },
        ),
{
    match scope {
        None => Ok(clone_record(record)),
        Some(sc) => {
            let g = interpret(record);
            proof {
                reveal(interpreting_of);
                assert((ctx.interprets)(record@, g));
                assert(candidate_grammar(g));
            }
            match g {
                Ok(grammar) => Ok(scoped_record(record, &grammar, Some(sc))),
                Err(e) => Err(e),
            }
        },
    }
}

/// Applies mutations made inside repetition `scope`, in order, stopping at the first
/// error (see [`applies_each_in_scope`]).
fn apply_each_in_scope<D, S, N, C, F, G>(
    root: &SchemaNode,
    record_path: &str,
    record: &mut WritableRecord,
    decoded_values: &mut DecodedValues,
    scope: &RepeatScope,
    mutations: Vec<HandlerMutation>,
    localized: bool,
    decoders: &DecoderRegistry<D>,
    selector: &S,
    narrow: &N,
    pick: &C,
    finish: &F,
    interpret: &G,
) -> (res: Result<(), SemanticError>)
    where
        D: CustomDecoder,
        S: Fn(&SchemaNode, usize, &Vec<u8>) -> Result<Option<i64>, SemanticError>,
        N: Fn(u64) -> u32,
        C: Fn(&SchemaNode) -> Result<i64, SemanticError>,
        F: Fn(&SchemaNode, OwnedFieldValue, &Vec<usize>) -> Result<OwnedFieldValue, SemanticError>,
        G: Fn(&WritableRecord) -> Result<GrammarMatch, SemanticError>,
    requires
        old(decoded_values).wf(),
        decoders.wf(),
        schema_reserved(*root),
        grammar_fits(*interpret),
        forall|bits: u64| narrow.requires((bits,)),
        forall|n: &SchemaNode, i: usize, p: &Vec<u8>| selector.requires((n, i, p)),
        forall|n: &SchemaNode| pick.requires((n,)),
        forall|n: &SchemaNode, v: OwnedFieldValue, ix: &Vec<usize>| finish.requires((n, v, ix)),
    ensures
        final(decoded_values).wf(),
        applies_each_in_scope(
            context_of(*root, record_path@, decoders@, localized, *selector, *narrow, *pick, *finish, *interpret),
            EditState { record: old(record)@, decoded: old(decoded_values)@ },
            *scope,
            mutations@,
            0,
            outcome(res, final(record)@, final(decoded_values)@),
        ),
{
    let ghost ctx = context_of(*root, record_path@, decoders@, localized, *selector, *narrow, *pick, *finish, *interpret);
    let ghost start = EditState { record: record@, decoded: decoded_values@ };
    let ghost all = mutations@;
    let mut rest = mutations;
    let mut k: usize = 0;
    assert(all.len() == rest.len());
    while rest.len() > 0
        invariant
            start == (EditState { record: old(record)@, decoded: old(decoded_values)@ }),
            all.len() <= usize::MAX,
            all == mutations@,
            decoded_values.wf(),
            decoders.wf(),
            schema_reserved(*root),
            grammar_fits(*interpret),
            forall|bits: u64| narrow.requires((bits,)),
            forall|n: &SchemaNode, i: usize, p: &Vec<u8>| selector.requires((n, i, p)),
            forall|n: &SchemaNode| pick.requires((n,)),
            forall|n: &SchemaNode, v: OwnedFieldValue, ix: &Vec<usize>| finish.requires((n, v, ix)),
            ctx == context_of(*root, record_path@, decoders@, localized, *selector, *narrow, *pick, *finish, *interpret),
            k <= all.len(),
            rest@ == all.subrange(k as int, all.len() as int),
            forall|out: Result<EditState, SemanticError>|
                applies_each_in_scope(ctx, EditState { record: record@, decoded: decoded_values@ }, *scope, all, k as nat, out)
                    ==> #[trigger] applies_each_in_scope(ctx, start, *scope, all, 0, out),
        decreases rest.len(),
    {
        let ghost here = EditState { record: record@, decoded: decoded_values@ };
        let mutation = rest.remove(0);
        assert(mutation == all[k as int]);
        let r = apply_mutation_in_scope(
            root,
            record_path,
            record,
            decoded_values,
            scope,
            mutation,
            localized,
            decoders,
            selector,
            narrow,
            pick,
            finish,
            interpret,
        );
        assert(candidate_state(outcome(r, record@, decoded_values@)));
        if let Err(e) = r {
            assert(applies_each_in_scope(ctx, here, *scope, all, k as nat, Err(e)));
            return Err(e);
        }
        proof {
            let next = EditState { record: record@, decoded: decoded_values@ };
            assert forall|out: Result<EditState, SemanticError>|
                applies_each_in_scope(ctx, next, *scope, all, (k + 1) as nat, out)
                    implies #[trigger] applies_each_in_scope(ctx, start, *scope, all, 0, out) by {
                assert(applies_each_in_scope(ctx, here, *scope, all, k as nat, out));
            }
        }
        k += 1;
        assert(rest@ =~= all.subrange(k as int, all.len() as int));
    }
    proof {
        let here = EditState { record: record@, decoded: decoded_values@ };
        assert(applies_each_in_scope(ctx, here, *scope, all, k as nat, Ok(here)));
    }
    Ok(())
}

/// Runs one applicable binding (see [`runs_record_binding`]).
fn run_record_binding<D, S, N, C, F, G, I>(
    root: &SchemaNode,
    record_path: &str,
    record: &mut WritableRecord,
    decoded_values: &mut DecodedValues,
    previous_values: &DecodedValues,
    changed: &ChangedField,
    binding: &CallbackBinding,
    localized: bool,
    decoders: &DecoderRegistry<D>,
    selector: &S,
    narrow: &N,
    pick: &C,
    finish: &F,
    interpret: &G,
    invoke: &I,
) -> (res: Result<(), SemanticError>)
    where
        D: CustomDecoder,
        S: Fn(&SchemaNode, usize, &Vec<u8>) -> Result<Option<i64>, SemanticError>,
        N: Fn(u64) -> u32,
        C: Fn(&SchemaNode) -> Result<i64, SemanticError>,
        F: Fn(&SchemaNode, OwnedFieldValue, &Vec<usize>) -> Result<OwnedFieldValue, SemanticError>,
        G: Fn(&WritableRecord) -> Result<GrammarMatch, SemanticError>,
        I: Fn(&CallbackBinding, &WritableRecord, Option<usize>, Option<&FieldValue>, Option<&FieldValue>) -> Result<HandlerOutput, SemanticError>,
    requires
        old(decoded_values).wf(),
        previous_values.wf(),
        decoders.wf(),
        schema_reserved(*root),
        grammar_fits(*interpret),
        forall|bits: u64| narrow.requires((bits,)),
        forall|n: &SchemaNode, i: usize, p: &Vec<u8>| selector.requires((n, i, p)),
        forall|n: &SchemaNode| pick.requires((n,)),
        forall|n: &SchemaNode, v: OwnedFieldValue, ix: &Vec<usize>| finish.requires((n, v, ix)),
        forall|b: &CallbackBinding, r: &WritableRecord, i: Option<usize>, v: Option<&FieldValue>, o: Option<&FieldValue>|
            invoke.requires((b, r, i, v, o)),
    ensures
        final(decoded_values).wf(),
        runs_record_binding(
            context_of(*root, record_path@, decoders@, localized, *selector, *narrow, *pick, *finish, *interpret),
            record_invoking_of(*invoke),
            previous_values@,
            *changed,
            EditState { record: old(record)@, decoded: old(decoded_values)@ },
            *binding,
            outcome(res, final(record)@, final(decoded_values)@),
        ),
{
    let ghost ctx = context_of(*root, record_path@, decoders@, localized, *selector, *narrow, *pick, *finish, *interpret);
    let ghost start = EditState { record: record@, decoded: decoded_values@ };
    let executable = match binding.implementation {
        CallbackImplementation::BuiltIn => true,
        CallbackImplementation::CustomHandler => true,
        CallbackImplementation::Unsupported => false,
    };
    if !executable {
        return Err(SemanticError::Handler {
            handler: binding.callback_id.clone(),
            message: String::from_str("record-level after-set callback is not executable"),
        });
    }
    let scope = choose_scope(&changed.repeat_scopes, binding.path.as_str());
    let source = source_record::<D, G>(Ghost(ctx), record, scope, interpret);
    assert(candidate_source(match source {
        Ok(r) => Ok(r@),
        Err(e) => Err(e),
    }));
    let source = match source {
        Ok(r) => r,
        Err(e) => {
            return Err(e);
        },
    };
    let same = text_eq(binding.path.as_str(), changed.path.as_str());
    let (value, old_value, index) = if same {
        let local: usize = if scope.is_some() {
            0
        } else {
            changed.occurrence
        };
        let l = locate::<D, G>(Ghost(ctx), &source, binding.path.as_str(), local, interpret);
        assert(candidate_slot(slot_of(l)));
        let index = match l {
            Err(e) => {
                return Err(e);
            },
            Ok(None) => {
                return Err(missing_occurrence(binding.path.as_str(), local));
            },
            Ok(Some(i)) => i,
        };
        (
            decoded_values.get(binding.path.as_str(), changed.occurrence),
            previous_values.get(binding.path.as_str(), changed.occurrence),
            Some(index),
        )
    } else {
        (None, None, None)
    };
    let r = invoke(binding, &source, index, value, old_value);
    proof {
        reveal(record_invoking_of);
        let vx: Option<FieldValue> = match value {
            Some(v) => Some(*v),
            None => None,
        };
        let ox: Option<FieldValue> = match old_value {
            Some(v) => Some(*v),
            None => None,
        };
        assert(field_ref(vx) == value);
        assert(field_ref(ox) == old_value);
        assert(invoke.ensures((binding, &source, index, field_ref(vx), field_ref(ox)), r));
        assert(record_invoking_of(*invoke)(
            *binding,
            source@,
            index_opt(index),
            field_opt(value),
            field_opt(old_value),
            output_of(r),
        ));
        assert(candidate_output(output_of(r)));
        if same {
            let key = (binding.path@, changed.occurrence);
            assert(field_opt(value) == value_at(start.decoded, key));
            assert(field_opt(old_value) == value_at(previous_values@, key));
        }
    }
    match r {
        Err(e) => Err(e),
        Ok(HandlerOutput::Nothing) => Ok(()),
        Ok(HandlerOutput::Mutations(mutations)) => match scope {
            Some(sc) => apply_each_in_scope(
                root,
                record_path,
                record,
                decoded_values,
                sc,
                mutations,
                localized,
                decoders,
                selector,
                narrow,
                pick,
                finish,
                interpret,
            ),
            None => apply_mutations_with_values(
                root,
                record_path,
                record,
                decoded_values,
                mutations,
                localized,
                decoders,
                selector,
                narrow,
                pick,
                finish,
                interpret,
            ),
        },
        Ok(HandlerOutput::GroupSortRequested) => Err(SemanticError::Handler {
            handler: String::from_str("edit.sort_info_group"),
            message: String::from_str("INFO group sorting requires a plugin-level edit transaction"),
        }),
        Ok(_) => Err(SemanticError::Handler {
            handler: binding.callback_id.clone(),
            message: String::from_str("record-level after-set callback returned an invalid result"),
        }),
    }
}

/// Runs the record-level after-set callbacks for a change of the field `changed` (see
/// [`runs_record_after_set`]): in binding order, every after-set callback bound to the
/// record, to the field or to a node above it runs, and the mutations it asks for are
/// applied to `record` and `decoded_values`, inside the callback's repetition when it
/// runs in one. `previous_values` are the decoded values before the edit.
///
/// `bindings` are the schema package's callback bindings, and `invoke` runs one bound
/// callback on the record it is shown, the subrecord it is pointed at, and the field's
/// decoded values now and before. The other arguments are those of
/// [`crate::apply::apply_mutation`]. On an error the record and the decoded values may
/// hold part of the change.
pub fn apply_after_set_callbacks<D, S, N, C, F, G, I>(
    root: &SchemaNode,
    record_path: &str,
    record: &mut WritableRecord,
    decoded_values: &mut DecodedValues,
    previous_values: &DecodedValues,
    changed: &ChangedField,
    bindings: &Vec<CallbackBinding>,
    localized: bool,
    decoders: &DecoderRegistry<D>,
    selector: &S,
    narrow: &N,
    pick: &C,
    finish: &F,
    interpret: &G,
    invoke: &I,
) -> (res: Result<(), SemanticError>)
    where
        D: CustomDecoder,
        S: Fn(&SchemaNode, usize, &Vec<u8>) -> Result<Option<i64>, SemanticError>,
        N: Fn(u64) -> u32,
        C: Fn(&SchemaNode) -> Result<i64, SemanticError>,
        F: Fn(&SchemaNode, OwnedFieldValue, &Vec<usize>) -> Result<OwnedFieldValue, SemanticError>,
        G: Fn(&WritableRecord) -> Result<GrammarMatch, SemanticError>,
        I: Fn(&CallbackBinding, &WritableRecord, Option<usize>, Option<&FieldValue>, Option<&FieldValue>) -> Result<HandlerOutput, SemanticError>,
    requires
        old(decoded_values).wf(),
        previous_values.wf(),
        decoders.wf(),
        schema_reserved(*root),
        grammar_fits(*interpret),
        forall|bits: u64| narrow.requires((bits,)),
        forall|n: &SchemaNode, i: usize, p: &Vec<u8>| selector.requires((n, i, p)),
        forall|n: &SchemaNode| pick.requires((n,)),
        forall|n: &SchemaNode, v: OwnedFieldValue, ix: &Vec<usize>| finish.requires((n, v, ix)),
        forall|b: &CallbackBinding, r: &WritableRecord, i: Option<usize>, v: Option<&FieldValue>, o: Option<&FieldValue>|
            invoke.requires((b, r, i, v, o)),
    ensures
        final(decoded_values).wf(),
        runs_record_after_set(
            context_of(*root, record_path@, decoders@, localized, *selector, *narrow, *pick, *finish, *interpret),
            record_invoking_of(*invoke),
            previous_values@,
            *changed,
            bindings@,
            0,
            EditState { record: old(record)@, decoded: old(decoded_values)@ },
            outcome(res, final(record)@, final(decoded_values)@),
        ),
{
    let ghost ctx = context_of(*root, record_path@, decoders@, localized, *selector, *narrow, *pick, *finish, *interpret);
    let ghost invokes = record_invoking_of(*invoke);
    let ghost start = EditState { record: record@, decoded: decoded_values@ };
    let mut k: usize = 0;
    while k < bindings.len()
        invariant
            start == (EditState { record: old(record)@, decoded: old(decoded_values)@ }),
            decoded_values.wf(),
            previous_values.wf(),
            decoders.wf(),
            schema_reserved(*root),
            grammar_fits(*interpret),
            forall|bits: u64| narrow.requires((bits,)),
            forall|n: &SchemaNode, i: usize, p: &Vec<u8>| selector.requires((n, i, p)),
            forall|n: &SchemaNode| pick.requires((n,)),
            forall|n: &SchemaNode, v: OwnedFieldValue, ix: &Vec<usize>| finish.requires((n, v, ix)),
            forall|b: &CallbackBinding, r: &WritableRecord, i: Option<usize>, v: Option<&FieldValue>, o: Option<&FieldValue>|
                invoke.requires((b, r, i, v, o)),
            ctx == context_of(*root, record_path@, decoders@, localized, *selector, *narrow, *pick, *finish, *interpret),
            invokes == record_invoking_of(*invoke),
            k <= bindings@.len(),
            forall|out: Result<EditState, SemanticError>|
                runs_record_after_set(
                    ctx,
                    invokes,
                    previous_values@,
                    *changed,
                    bindings@,
                    k as nat,
                    EditState { record: record@, decoded: decoded_values@ },
                    out,
                ) ==> #[trigger] runs_record_after_set(ctx, invokes, previous_values@, *changed, bindings@, 0, start, out),
        decreases bindings.len() - k,
    {
        let ghost here = EditState { record: record@, decoded: decoded_values@ };
        let binding = &bindings[k];
        let applies = text_eq(binding.callback_id.as_str(), "def.after_set") && (text_eq(
            binding.path.as_str(),
            record_path,
        ) || path_is_within(changed.path.as_str(), binding.path.as_str()));
        if applies {
            let r = run_record_binding(
                root,
                record_path,
                record,
                decoded_values,
                previous_values,
                changed,
                binding,
                localized,
                decoders,
                selector,
                narrow,
                pick,
                finish,
                interpret,
                invoke,
            );
            assert(candidate_state(outcome(r, record@, decoded_values@)));
            if let Err(e) = r {
                assert(runs_record_after_set(ctx, invokes, previous_values@, *changed, bindings@, k as nat, here, Err(e)));
                return Err(e);
            }
        }
        proof {
            let next = EditState { record: record@, decoded: decoded_values@ };
            assert forall|out: Result<EditState, SemanticError>|
                runs_record_after_set(ctx, invokes, previous_values@, *changed, bindings@, (k + 1) as nat, next, out)
                    implies #[trigger] runs_record_after_set(
                    ctx,
                    invokes,
                    previous_values@,
                    *changed,
                    bindings@,
                    0,
                    start,
                    out,
                ) by {
                assert(runs_record_after_set(ctx, invokes, previous_values@, *changed, bindings@, k as nat, here, out));
            }
        }
        k += 1;
    }
    proof {
        let here = EditState { record: record@, decoded: decoded_values@ };
        assert(runs_record_after_set(ctx, invokes, previous_values@, *changed, bindings@, k as nat, here, Ok(here)));
    }
    Ok(())
}

/// Applies the mutations that callbacks of the changed field `changed` asked for (see
/// [`applies_local_with_scope`]): each goes inside the repetition of the field that it
/// is addressed to, or to the whole record when there is none. The other arguments are
/// those of [`crate::apply::apply_mutation`]. On an error the record and the decoded
/// values may hold part of the change.
pub fn apply_local_mutations_with_scope<D, S, N, C, F, G>(
    root: &SchemaNode,
    record_path: &str,
    record: &mut WritableRecord,
    decoded_values: &mut DecodedValues,
    changed: &ChangedField,
    mutations: Vec<HandlerMutation>,
    localized: bool,
    decoders: &DecoderRegistry<D>,
    selector: &S,
    narrow: &N,
    pick: &C,
    finish: &F,
    interpret: &G,
) -> (res: Result<(), SemanticError>)
    where
        D: CustomDecoder,
        S: Fn(&SchemaNode, usize, &Vec<u8>) -> Result<Option<i64>, SemanticError>,
        N: Fn(u64) -> u32,
        C: Fn(&SchemaNode) -> Result<i64, SemanticError>,
        F: Fn(&SchemaNode, OwnedFieldValue, &Vec<usize>) -> Result<OwnedFieldValue, SemanticError>,
        G: Fn(&WritableRecord) -> Result<GrammarMatch, SemanticError>,
    requires
        old(decoded_values).wf(),
        decoders.wf(),
        schema_reserved(*root),
        grammar_fits(*interpret),
        forall|bits: u64| narrow.requires((bits,)),
        forall|n: &SchemaNode, i: usize, p: &Vec<u8>| selector.requires((n, i, p)),
        forall|n: &SchemaNode| pick.requires((n,)),
        forall|n: &SchemaNode, v: OwnedFieldValue, ix: &Vec<usize>| finish.requires((n, v, ix)),
    ensures
        final(decoded_values).wf(),
        applies_local_with_scope(
            context_of(*root, record_path@, decoders@, localized, *selector, *narrow, *pick, *finish, *interpret),
            *changed,
            mutations@,
            0,
            EditState { record: old(record)@, decoded: old(decoded_values)@ },
            outcome(res, final(record)@, final(decoded_values)@),
        ),
{
    let ghost ctx = context_of(*root, record_path@, decoders@, localized, *selector, *narrow, *pick, *finish, *interpret);
    let ghost start = EditState { record: record@, decoded: decoded_values@ };
    let ghost all = mutations@;
    let mut rest = mutations;
    let mut k: usize = 0;
    assert(all.len() == rest.len());
    while rest.len() > 0
        invariant
            start == (EditState { record: old(record)@, decoded: old(decoded_values)@ }),
            all.len() <= usize::MAX,
            all == mutations@,
            decoded_values.wf(),
            decoders.wf(),
            schema_reserved(*root),
            grammar_fits(*interpret),
            forall|bits: u64| narrow.requires((bits,)),
            forall|n: &SchemaNode, i: usize, p: &Vec<u8>| selector.requires((n, i, p)),
            forall|n: &SchemaNode| pick.requires((n,)),
            forall|n: &SchemaNode, v: OwnedFieldValue, ix: &Vec<usize>| finish.requires((n, v, ix)),
            ctx == context_of(*root, record_path@, decoders@, localized, *selector, *narrow, *pick, *finish, *interpret),
            k <= all.len(),
            rest@ == all.subrange(k as int, all.len() as int),
            forall|out: Result<EditState, SemanticError>|
                applies_local_with_scope(ctx, *changed, all, k as nat, EditState { record: record@, decoded: decoded_values@ }, out)
                    ==> #[trigger] applies_local_with_scope(ctx, *changed, all, 0, start, out),
        decreases rest.len(),
    {
        let ghost here = EditState { record: record@, decoded: decoded_values@ };
        let mutation = rest.remove(0);
        assert(mutation == all[k as int]);
        let scope = choose_scope(&changed.repeat_scopes, mutation_path(&mutation));
        let r = match scope {
            Some(sc) => apply_mutation_in_scope(
                root,
                record_path,
                record,
                decoded_values,
                sc,
                mutation,
                localized,
                decoders,
                selector,
                narrow,
                pick,
                finish,
                interpret,
            ),
            None => apply_mutation(
                root,
                record_path,
                record,
                decoded_values,
                &mutation,
                localized,
                decoders,
                selector,
                narrow,
                pick,
                finish,
                interpret,
            ),
        };
        assert(candidate_state(outcome(r, record@, decoded_values@)));
        if let Err(e) = r {
            assert(applies_local_with_scope(ctx, *changed, all, k as nat, here, Err(e)));
            return Err(e);
        }
        proof {
            let next = EditState { record: record@, decoded: decoded_values@ };
            assert forall|out: Result<EditState, SemanticError>|
                applies_local_with_scope(ctx, *changed, all, (k + 1) as nat, next, out)
                    implies #[trigger] applies_local_with_scope(ctx, *changed, all, 0, start, out) by {
                assert(applies_local_with_scope(ctx, *changed, all, k as nat, here, out));
            }
        }
        k += 1;
        assert(rest@ =~= all.subrange(k as int, all.len() as int));
    }
    proof {
        let here = EditState { record: record@, decoded: decoded_values@ };
        assert(applies_local_with_scope(ctx, *changed, all, k as nat, here, Ok(here)));
    }
    Ok(())
}

} // verus!
