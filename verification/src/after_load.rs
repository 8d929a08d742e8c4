//! Migrations that run when a record is opened for editing, before its fields are
//! decoded: every after-load callback bound to the record or to a path inside it is
//! pointed at the record or at each subrecord of its anchor, and what it gives back (new
//! payload bytes or mutations) is applied to the record.
use vstd::prelude::*;
use vstd::string::*;

use crate::after_set::field_ref;
use crate::apply::{
    apply_mutations_with_values, applies_all, candidate_grammar, context_of, grammar_fits, interpreting_of,
    schema_reserved, set_payload, with_data, EditState, MutationContext,
};
use crate::assignment::{assigned_to, GrammarMatch};
use crate::changes::{index_opt, record_invoking_of};
use crate::context::{
    candidate_output, handler_error_is, is_executable, output_of, CallbackBinding, HandlerOutput,
    SpecHandlerOutput,
};
use crate::decoded::{DecodedKey, DecodedValues};
use crate::decoder::{CustomDecoder, DecoderRegistry};
use crate::editing::candidate_state_of;
use crate::model::{clone_record, RecordView, WritableRecord};
use crate::presentation::executable;
use crate::schema::SchemaNode;
use crate::text::text_eq;
use crate::tree::{after_load_anchor_path, anchor_path, is_within, path_is_within};
use crate::value::{FieldValue, OwnedFieldValue, SemanticError, SpecFieldValue};

verus! {

/// A record and a migration count, or the error that stopped the migrations.
pub open spec fn loaded_of(res: Result<bool, SemanticError>, r: RecordView) -> Result<(RecordView, bool), SemanticError> {
    match res {
        Ok(m) => Ok((r, m)),
        Err(e) => Err(e),
    }
}

/// Marks a candidate migration outcome; every one is.
pub open spec fn candidate_loaded(r: Result<(RecordView, bool), SemanticError>) -> bool {
    true
}

/// An optional subrecord index as a natural number.
pub open spec fn target_of(target: Option<usize>) -> Option<nat> {
    match target {
        Some(i) => Some(i as nat),
        None => None,
    }
}

/// Whether `out` is a possible outcome of applying the output `o` of the after-load
/// callback `callback_id`, pointed at subrecord `target` or at the whole record, to record
/// `r`: the record after, and whether the output counts as a migration. Nothing, or an
/// empty list of mutations, changes nothing; payload bytes replace the target
/// subrecord's payload (a callback pointed at the whole record may not give them);
/// mutations are applied with no decoded values, and the record changes only when all of
/// them apply. Any other output is refused.
pub open spec fn loads_output<D: CustomDecoder>(
    ctx: MutationContext<D>,
    r: RecordView,
    callback_id: Seq<char>,
    target: Option<nat>,
    o: SpecHandlerOutput,
    out: Result<(RecordView, bool), SemanticError>,
) -> bool {
    match o {
        SpecHandlerOutput::Nothing => out == Ok::<(RecordView, bool), SemanticError>((r, false)),
        SpecHandlerOutput::SubrecordPayload(data) => match target {
            None => out matches Err(e) && handler_error_is(
                e,
                callback_id,
                "record-level after-load callback returned payload bytes"@,
            ),
            Some(i) => out == Ok::<(RecordView, bool), SemanticError>((with_data(r, i, data), true)),
        },
        SpecHandlerOutput::Mutations(ms) => if ms.len() == 0 {
            out == Ok::<(RecordView, bool), SemanticError>((r, false))
        } else {
            exists|o2: Result<EditState, SemanticError>|
                #[trigger] candidate_state_of(o2) && applies_all(
                    ctx,
                    EditState { record: r, decoded: Map::<DecodedKey, SpecFieldValue>::empty() },
                    ms,
                    0,
                    o2,
                ) && match o2 {
                    Err(e) => out == Err::<(RecordView, bool), SemanticError>(e),
                    Ok(s2) => out == Ok::<(RecordView, bool), SemanticError>((s2.record, true)),
                }
        },
        _ => out matches Err(e) && handler_error_is(e, callback_id, "after-load callback returned an invalid result"@),
    }
}

/// Applies the output of the after-load callback `binding`, pointed at subrecord `target`
/// or at the whole record, to `record` (see [`loads_output`]); returns whether the output
/// counts as a migration. On an error the record is left as it was. The other arguments
/// are those of [`crate::apply::apply_mutations_with_values`].
pub fn apply_after_load_output<D, S, N, C, F, G>(
    root: &SchemaNode,
    record_path: &str,
    record: &mut WritableRecord,
    binding: &CallbackBinding,
    target: Option<usize>,
    output: HandlerOutput,
    localized: bool,
    decoders: &DecoderRegistry<D>,
    selector: &S,
    narrow: &N,
    pick: &C,
    finish: &F,
    interpret: &G,
) -> (res: Result<bool, SemanticError>)
    where
        D: CustomDecoder,
        S: Fn(&SchemaNode, usize, &Vec<u8>) -> Result<Option<i64>, SemanticError>,
        N: Fn(u64) -> u32,
        C: Fn(&SchemaNode) -> Result<i64, SemanticError>,
        F: Fn(&SchemaNode, OwnedFieldValue, &Vec<usize>) -> Result<OwnedFieldValue, SemanticError>,
        G: Fn(&WritableRecord) -> Result<GrammarMatch, SemanticError>,
    requires
        decoders.wf(),
        schema_reserved(*root),
        grammar_fits(*interpret),
        target matches Some(i) ==> i < old(record).subrecords@.len(),
        forall|bits: u64| narrow.requires((bits,)),
        forall|n: &SchemaNode, i: usize, p: &Vec<u8>| selector.requires((n, i, p)),
        forall|n: &SchemaNode| pick.requires((n,)),
        forall|n: &SchemaNode, v: OwnedFieldValue, ix: &Vec<usize>| finish.requires((n, v, ix)),
    ensures
        loads_output(
            context_of(*root, record_path@, decoders@, localized, *selector, *narrow, *pick, *finish, *interpret),
            old(record)@,
            binding.callback_id@,
            target_of(target),
            output@,
            loaded_of(res, final(record)@),
        ),
        res is Err ==> final(record)@ == old(record)@,
{
    match output {
        HandlerOutput::Nothing => Ok(false),
        HandlerOutput::SubrecordPayload(data) => match target {
            None => Err(SemanticError::Handler {
                handler: binding.callback_id.clone(),
                message: String::from_str("record-level after-load callback returned payload bytes"),
            }),
            Some(i) => {
                set_payload(record, i, data);
                Ok(true)
            },
        },
        HandlerOutput::Mutations(mutations) => {
            if mutations.len() == 0 {
                return Ok(false);
            }
            let mut updated = clone_record(record);
            let mut decoded_values = DecodedValues::new();
            let r = apply_mutations_with_values(
                root,
                record_path,
                &mut updated,
                &mut decoded_values,
                mutations,
                localized,
                decoders,
                selector,
                narrow,
                pick,
                finish,
                interpret,
            );
            assert(candidate_state_of(crate::apply::outcome(r, updated@, decoded_values@)));
            match r {
                Err(e) => Err(e),
                Ok(()) => {
                    *record = updated;
                    Ok(true)
                },
            }
        },
        _ => Err(SemanticError::Handler {
            handler: binding.callback_id.clone(),
            message: String::from_str("after-load callback returned an invalid result"),
        }),
    }
}

/// The migration count after an output that does, or does not, count as a migration; it
/// stops at the largest `usize`.
pub open spec fn count_after(count: usize, migrated: bool) -> usize {
    if migrated && count < usize::MAX {
        (count + 1) as usize
    } else {
        count
    }
}

/// A record and a migration count, or the error that stopped the migrations.
pub open spec fn counted_of(res: Result<usize, SemanticError>, r: RecordView) -> Result<(RecordView, usize), SemanticError> {
    match res {
        Ok(c) => Ok((r, c)),
        Err(e) => Err(e),
    }
}

/// Marks a candidate outcome of a run of migrations; every one is.
pub open spec fn candidate_counted(r: Result<(RecordView, usize), SemanticError>) -> bool {
    true
}

/// The outcome of one after-load callback invocation taken as a callback output, as the
/// record-level invoker gives it with no field values.
pub open spec fn after_load_invokes(
    invokes: spec_fn(
        CallbackBinding,
        RecordView,
        Option<nat>,
        Option<SpecFieldValue>,
        Option<SpecFieldValue>,
        Result<SpecHandlerOutput, SemanticError>,
    ) -> bool,
    b: CallbackBinding,
    r: RecordView,
    target: Option<nat>,
    o: Result<SpecHandlerOutput, SemanticError>,
) -> bool {
    invokes(b, r, target, None, None, o)
}

/// Whether `out` is a possible outcome of running the after-load callback `b` once,
/// pointed at subrecord `target` or at the whole record `r`, with `count` migrations so
/// far: its output is applied ([`loads_output`]) and counted. A subrecord target that
/// the record no longer has (earlier outputs may have removed subrecords) is an error.
pub open spec fn runs_after_load_target<D: CustomDecoder>(
    ctx: MutationContext<D>,
    invokes: spec_fn(
        CallbackBinding,
        RecordView,
        Option<nat>,
        Option<SpecFieldValue>,
        Option<SpecFieldValue>,
        Result<SpecHandlerOutput, SemanticError>,
    ) -> bool,
    b: CallbackBinding,
    target: Option<nat>,
    r: RecordView,
    count: usize,
    out: Result<(RecordView, usize), SemanticError>,
) -> bool {
    if target matches Some(i) && i >= r.subrecords.len() {
        out matches Err(e) && handler_error_is(e, b.callback_id@, "after-load callback target subrecord no longer exists"@)
    } else {
    exists|o: Result<SpecHandlerOutput, SemanticError>|
        #[trigger] candidate_output(o) && after_load_invokes(invokes, b, r, target, o) && match o {
            Err(e) => out == Err::<(RecordView, usize), SemanticError>(e),
            Ok(x) => exists|lo: Result<(RecordView, bool), SemanticError>|
                #[trigger] candidate_loaded(lo) && loads_output(ctx, r, b.callback_id@, target, x, lo) && match lo {
                    Err(e) => out == Err::<(RecordView, usize), SemanticError>(e),
                    Ok((r2, m)) => out == Ok::<(RecordView, usize), SemanticError>((r2, count_after(count, m))),
                },
        }
    }
}

/// Whether `out` is a possible outcome of running the after-load callback `b` on each
/// subrecord, from position `j` on, that grammar match `gm` assigns to `anchor`, in
/// order, stopping at the first error.
pub open spec fn runs_anchored<D: CustomDecoder>(
    ctx: MutationContext<D>,
    invokes: spec_fn(
        CallbackBinding,
        RecordView,
        Option<nat>,
        Option<SpecFieldValue>,
        Option<SpecFieldValue>,
        Result<SpecHandlerOutput, SemanticError>,
    ) -> bool,
    b: CallbackBinding,
    gm: GrammarMatch,
    anchor: Seq<char>,
    j: nat,
    r: RecordView,
    count: usize,
    out: Result<(RecordView, usize), SemanticError>,
) -> bool
    decreases gm.assignments@.len() - j,
{
    if j >= gm.assignments@.len() {
        out == Ok::<(RecordView, usize), SemanticError>((r, count))
    } else if !assigned_to(gm.assignments@[j as int], anchor) {
        runs_anchored(ctx, invokes, b, gm, anchor, j + 1, r, count, out)
    } else {
        exists|t: Result<(RecordView, usize), SemanticError>|
            #[trigger] candidate_counted(t) && runs_after_load_target(ctx, invokes, b, Some(j), r, count, t) && match t {
                Err(e) => out == Err::<(RecordView, usize), SemanticError>(e),
                Ok((r2, c2)) => runs_anchored(ctx, invokes, b, gm, anchor, j + 1, r2, c2, out),
            }
    }
}

/// Whether a binding is an after-load callback of the record at `record_path`: one bound
/// to the record itself or to a path inside it.
pub open spec fn after_load_applies(b: CallbackBinding, record_path: Seq<char>) -> bool {
    b.callback_id@ == "def.after_load"@ && is_within(b.path@, record_path)
}

/// The anchor suffixes that a suffix reader may give for a binding.
#[verifier::opaque]
pub open spec fn suffixing_of<A: Fn(&CallbackBinding) -> Option<String>>(
    suffix_of: A,
) -> spec_fn(CallbackBinding, Option<Seq<char>>) -> bool {
    |b: CallbackBinding, sfx: Option<Seq<char>>|
        exists|res: Option<String>|
            match res {
                Some(x) => sfx == Some(x@),
                None => sfx == None::<Seq<char>>,
            } && #[trigger] suffix_of.ensures((&b,), res)
}

/// The path whose subrecords an after-load callback bound at `path` is pointed at: the
/// binding's path followed by the suffix that its configuration gives, or else the
/// nearest path from the binding's up that names a subrecord ([`anchor_path`]).
pub open spec fn anchor_of(root: SchemaNode, path: Seq<char>, sfx: Option<Seq<char>>) -> Seq<char> {
    match sfx {
        Some(x) => path + x,
        None => anchor_path(root, path, path),
    }
}

/// Whether `out` is a possible outcome (the record after and the number of migrations)
/// of running, from binding `k` on and in binding order, every after-load callback of
/// the record ([`after_load_applies`]), on record `r` with `count` migrations so far,
/// stopping at the first error. A callback that cannot be executed is an error. A
/// callback bound to the record whose anchor is the record itself runs once, pointed at
/// the whole record; any other runs on each subrecord that the record's grammar assigns
/// to its anchor ([`runs_anchored`]).
pub open spec fn runs_after_load_from<D: CustomDecoder>(
    ctx: MutationContext<D>,
    invokes: spec_fn(
        CallbackBinding,
        RecordView,
        Option<nat>,
        Option<SpecFieldValue>,
        Option<SpecFieldValue>,
        Result<SpecHandlerOutput, SemanticError>,
    ) -> bool,
    suffixes: spec_fn(CallbackBinding, Option<Seq<char>>) -> bool,
    bindings: Seq<CallbackBinding>,
    k: nat,
    r: RecordView,
    count: usize,
    out: Result<(RecordView, usize), SemanticError>,
) -> bool
    decreases bindings.len() - k,
{
    if k >= bindings.len() {
        out == Ok::<(RecordView, usize), SemanticError>((r, count))
    } else {
        let b = bindings[k as int];
        if !after_load_applies(b, ctx.record_path) {
            runs_after_load_from(ctx, invokes, suffixes, bindings, k + 1, r, count, out)
        } else if !is_executable(b.implementation) {
            out matches Err(e) && handler_error_is(e, b.callback_id@, "after-load callback is not executable"@)
        } else {
            exists|sfx: Option<Seq<char>>|
                #[trigger] suffixes(b, sfx) && {
                    let anchor = anchor_of(ctx.root, b.path@, sfx);
                    if b.path@ == ctx.record_path && anchor == b.path@ {
                        exists|t: Result<(RecordView, usize), SemanticError>|
                            #[trigger] candidate_counted(t) && runs_after_load_target(ctx, invokes, b, None, r, count, t)
                                && match t {
                                Err(e) => out == Err::<(RecordView, usize), SemanticError>(e),
                                Ok((r2, c2)) => runs_after_load_from(ctx, invokes, suffixes, bindings, k + 1, r2, c2, out),
                            }
                    } else {
                        exists|g: Result<GrammarMatch, SemanticError>|
                            #[trigger] candidate_grammar(g) && (ctx.interprets)(r, g) && match g {
                                Err(e) => out == Err::<(RecordView, usize), SemanticError>(e),
                                Ok(gm) => exists|t: Result<(RecordView, usize), SemanticError>|
                                    #[trigger] candidate_counted(t) && runs_anchored(ctx, invokes, b, gm, anchor, 0, r, count, t)
                                        && match t {
                                        Err(e) => out == Err::<(RecordView, usize), SemanticError>(e),
                                        Ok((r2, c2)) => runs_after_load_from(
                                            ctx,
                                            invokes,
                                            suffixes,
                                            bindings,
                                            k + 1,
                                            r2,
                                            c2,
                                            out,
                                        ),
                                    },
                            }
                    }
                }
        }
    }
}

/// Runs the after-load callback `binding` once, pointed at subrecord `target` or at the
/// whole record, and applies its output (see [`runs_after_load_target`]).
fn run_after_load_target<D, S, N, C, F, G, R>(
    root: &SchemaNode,
    record_path: &str,
    record: &mut WritableRecord,
    binding: &CallbackBinding,
    target: Option<usize>,
    count: usize,
    localized: bool,
    decoders: &DecoderRegistry<D>,
    selector: &S,
    narrow: &N,
    pick: &C,
    finish: &F,
    interpret: &G,
    invoke: &R,
) -> (res: Result<usize, SemanticError>)
    where
        D: CustomDecoder,
        S: Fn(&SchemaNode, usize, &Vec<u8>) -> Result<Option<i64>, SemanticError>,
        N: Fn(u64) -> u32,
        C: Fn(&SchemaNode) -> Result<i64, SemanticError>,
        F: Fn(&SchemaNode, OwnedFieldValue, &Vec<usize>) -> Result<OwnedFieldValue, SemanticError>,
        G: Fn(&WritableRecord) -> Result<GrammarMatch, SemanticError>,
        R: Fn(&CallbackBinding, &WritableRecord, Option<usize>, Option<&FieldValue>, Option<&FieldValue>) -> Result<HandlerOutput, SemanticError>,
    requires
        decoders.wf(),
        schema_reserved(*root),
        grammar_fits(*interpret),
        forall|bits: u64| narrow.requires((bits,)),
        forall|n: &SchemaNode, i: usize, p: &Vec<u8>| selector.requires((n, i, p)),
        forall|n: &SchemaNode| pick.requires((n,)),
        forall|n: &SchemaNode, v: OwnedFieldValue, ix: &Vec<usize>| finish.requires((n, v, ix)),
        forall|b: &CallbackBinding, r: &WritableRecord, i: Option<usize>, v: Option<&FieldValue>, o: Option<&FieldValue>|
            invoke.requires((b, r, i, v, o)),
    ensures
        runs_after_load_target(
            context_of(*root, record_path@, decoders@, localized, *selector, *narrow, *pick, *finish, *interpret),
            record_invoking_of(*invoke),
            *binding,
            target_of(target),
            old(record)@,
            count,
            counted_of(res, final(record)@),
        ),
{
    let ghost ctx = context_of(*root, record_path@, decoders@, localized, *selector, *narrow, *pick, *finish, *interpret);
    if let Some(i) = target {
        if i >= record.subrecords.len() {
            return Err(SemanticError::Handler {
                handler: binding.callback_id.clone(),
                message: String::from_str("after-load callback target subrecord no longer exists"),
            });
        }
    }
    assert(record.subrecords@.len() == record@.subrecords.len());
    let o = invoke(binding, record, target, None, None);
    proof {
        reveal(record_invoking_of);
        let none: Option<FieldValue> = None;
        assert(field_ref(none) == None::<&FieldValue>);
        assert(index_opt(target) == target_of(target));
        assert(record_invoking_of(*invoke)(*binding, record@, target_of(target), None, None, output_of(o)));
        assert(candidate_output(output_of(o)));
    }
    let output = match o {
        Err(e) => {
            return Err(e);
        },
        Ok(x) => x,
    };
    let lo = apply_after_load_output(
        root,
        record_path,
        record,
        binding,
        target,
        output,
        localized,
        decoders,
        selector,
        narrow,
        pick,
        finish,
        interpret,
    );
    assert(candidate_loaded(loaded_of(lo, record@)));
    match lo {
        Err(e) => Err(e),
        Ok(m) => {
            if m {
                Ok(count.saturating_add(1))
            } else {
                Ok(count)
            }
        },
    }
}

/// Runs the after-load callback `binding` on each subrecord that `grammar` assigns to
/// `anchor`, in order (see [`runs_anchored`]).
fn run_anchored<D, S, N, C, F, G, R>(
    root: &SchemaNode,
    record_path: &str,
    record: &mut WritableRecord,
    binding: &CallbackBinding,
    grammar: &GrammarMatch,
    anchor: &str,
    count: usize,
    localized: bool,
    decoders: &DecoderRegistry<D>,
    selector: &S,
    narrow: &N,
    pick: &C,
    finish: &F,
    interpret: &G,
    invoke: &R,
) -> (res: Result<usize, SemanticError>)
    where
        D: CustomDecoder,
        S: Fn(&SchemaNode, usize, &Vec<u8>) -> Result<Option<i64>, SemanticError>,
        N: Fn(u64) -> u32,
        C: Fn(&SchemaNode) -> Result<i64, SemanticError>,
        F: Fn(&SchemaNode, OwnedFieldValue, &Vec<usize>) -> Result<OwnedFieldValue, SemanticError>,
        G: Fn(&WritableRecord) -> Result<GrammarMatch, SemanticError>,
        R: Fn(&CallbackBinding, &WritableRecord, Option<usize>, Option<&FieldValue>, Option<&FieldValue>) -> Result<HandlerOutput, SemanticError>,
    requires
        decoders.wf(),
        schema_reserved(*root),
        grammar_fits(*interpret),
        forall|bits: u64| narrow.requires((bits,)),
        forall|n: &SchemaNode, i: usize, p: &Vec<u8>| selector.requires((n, i, p)),
        forall|n: &SchemaNode| pick.requires((n,)),
        forall|n: &SchemaNode, v: OwnedFieldValue, ix: &Vec<usize>| finish.requires((n, v, ix)),
        forall|b: &CallbackBinding, r: &WritableRecord, i: Option<usize>, v: Option<&FieldValue>, o: Option<&FieldValue>|
            invoke.requires((b, r, i, v, o)),
    ensures
        runs_anchored(
            context_of(*root, record_path@, decoders@, localized, *selector, *narrow, *pick, *finish, *interpret),
            record_invoking_of(*invoke),
            *binding,
            *grammar,
            anchor@,
            0,
            old(record)@,
            count,
            counted_of(res, final(record)@),
        ),
{
    let ghost ctx = context_of(*root, record_path@, decoders@, localized, *selector, *narrow, *pick, *finish, *interpret);
    let ghost invokes = record_invoking_of(*invoke);
    let ghost r0 = record@;
    let mut done = count;
    let mut j: usize = 0;
    while j < grammar.assignments.len()
        invariant
            decoders.wf(),
            schema_reserved(*root),
            grammar_fits(*interpret),
            forall|bits: u64| narrow.requires((bits,)),
            forall|n: &SchemaNode, i: usize, p: &Vec<u8>| selector.requires((n, i, p)),
            forall|n: &SchemaNode| pick.requires((n,)),
            forall|n: &SchemaNode, v: OwnedFieldValue, ix: &Vec<usize>| finish.requires((n, v, ix)),
            forall|b: &CallbackBinding, r: &WritableRecord, i: Option<usize>, v: Option<&FieldValue>, o: Option<&FieldValue>|
                invoke.requires((b, r, i, v, o)),
            ctx == context_of(*root, record_path@, decoders@, localized, *selector, *narrow, *pick, *finish, *interpret),
            invokes == record_invoking_of(*invoke),
            j <= grammar.assignments@.len(),
            r0 == old(record)@,
            forall|out: Result<(RecordView, usize), SemanticError>|
                runs_anchored(ctx, invokes, *binding, *grammar, anchor@, j as nat, record@, done, out)
                    ==> #[trigger] runs_anchored(ctx, invokes, *binding, *grammar, anchor@, 0, r0, count, out),
        decreases grammar.assignments.len() - j,
    {
        let ghost here_r = record@;
        let ghost here_c = done;
        let hit = match &grammar.assignments[j] {
            Some(a) => text_eq(a.path.as_str(), anchor),
            None => false,
        };
        assert(hit == assigned_to(grammar.assignments@[j as int], anchor@));
        if hit {
            let t = run_after_load_target(
                root,
                record_path,
                record,
                binding,
                Some(j),
                done,
                localized,
                decoders,
                selector,
                narrow,
                pick,
                finish,
                interpret,
                invoke,
            );
            assert(candidate_counted(counted_of(t, record@)));
            match t {
                Err(e) => {
                    assert(runs_anchored(ctx, invokes, *binding, *grammar, anchor@, j as nat, here_r, here_c, Err(e)));
                    assert(runs_anchored(ctx, invokes, *binding, *grammar, anchor@, 0, r0, count, Err(e)));
                    return Err(e);
                },
                Ok(c) => {
                    proof {
                        assert forall|out: Result<(RecordView, usize), SemanticError>|
                            runs_anchored(ctx, invokes, *binding, *grammar, anchor@, (j + 1) as nat, record@, c, out)
                                implies #[trigger] runs_anchored(ctx, invokes, *binding, *grammar, anchor@, 0, r0, count, out) by {
                            assert(runs_anchored(ctx, invokes, *binding, *grammar, anchor@, j as nat, here_r, here_c, out));
                        }
                    }
                    done = c;
                },
            }
        } else {
            proof {
                assert forall|out: Result<(RecordView, usize), SemanticError>|
                    runs_anchored(ctx, invokes, *binding, *grammar, anchor@, (j + 1) as nat, record@, done, out)
                        implies #[trigger] runs_anchored(ctx, invokes, *binding, *grammar, anchor@, 0, r0, count, out) by {
                    assert(runs_anchored(ctx, invokes, *binding, *grammar, anchor@, j as nat, here_r, here_c, out));
                }
            }
        }
        j += 1;
    }
    Ok(done)
}

/// Runs every after-load callback of the record at `record_path`, in binding order, and
/// applies what each gives back to `record` (see [`runs_after_load_from`]); returns the
/// number of outputs that counted as migrations. It runs before the record's fields are
/// decoded, so mutations apply with no decoded values.
///
/// `bindings` are the schema package's callback bindings; `suffix_of` gives the anchor
/// path suffix that a binding's configuration names, if any, and `invoke` runs one
/// callback on the record, pointed at a subrecord or at the whole record. The other
/// arguments are those of [`crate::apply::apply_mutations_with_values`]. On an error the
/// record may hold the migrations that ran before it.
pub fn apply_after_load_callbacks<D, S, N, C, F, G, A, R>(
    root: &SchemaNode,
    record_path: &str,
    record: &mut WritableRecord,
    bindings: &Vec<CallbackBinding>,
    localized: bool,
    decoders: &DecoderRegistry<D>,
    selector: &S,
    narrow: &N,
    pick: &C,
    finish: &F,
    interpret: &G,
    suffix_of: &A,
    invoke: &R,
) -> (res: Result<usize, SemanticError>)
    where
        D: CustomDecoder,
        S: Fn(&SchemaNode, usize, &Vec<u8>) -> Result<Option<i64>, SemanticError>,
        N: Fn(u64) -> u32,
        C: Fn(&SchemaNode) -> Result<i64, SemanticError>,
        F: Fn(&SchemaNode, OwnedFieldValue, &Vec<usize>) -> Result<OwnedFieldValue, SemanticError>,
        G: Fn(&WritableRecord) -> Result<GrammarMatch, SemanticError>,
        A: Fn(&CallbackBinding) -> Option<String>,
        R: Fn(&CallbackBinding, &WritableRecord, Option<usize>, Option<&FieldValue>, Option<&FieldValue>) -> Result<HandlerOutput, SemanticError>,
    requires
        decoders.wf(),
        schema_reserved(*root),
        grammar_fits(*interpret),
        forall|bits: u64| narrow.requires((bits,)),
        forall|n: &SchemaNode, i: usize, p: &Vec<u8>| selector.requires((n, i, p)),
        forall|n: &SchemaNode| pick.requires((n,)),
        forall|n: &SchemaNode, v: OwnedFieldValue, ix: &Vec<usize>| finish.requires((n, v, ix)),
        forall|b: &CallbackBinding| suffix_of.requires((b,)),
        forall|b: &CallbackBinding, r: &WritableRecord, i: Option<usize>, v: Option<&FieldValue>, o: Option<&FieldValue>|
            invoke.requires((b, r, i, v, o)),
    ensures
        runs_after_load_from(
            context_of(*root, record_path@, decoders@, localized, *selector, *narrow, *pick, *finish, *interpret),
            record_invoking_of(*invoke),
            suffixing_of(*suffix_of),
            bindings@,
            0,
            old(record)@,
            0,
            counted_of(res, final(record)@),
        ),
{
    let ghost ctx = context_of(*root, record_path@, decoders@, localized, *selector, *narrow, *pick, *finish, *interpret);
    let ghost invokes = record_invoking_of(*invoke);
    let ghost suffixes = suffixing_of(*suffix_of);
    let ghost r0 = record@;
    let mut count: usize = 0;
    let mut k: usize = 0;
    while k < bindings.len()
        invariant
            decoders.wf(),
            schema_reserved(*root),
            grammar_fits(*interpret),
            forall|bits: u64| narrow.requires((bits,)),
            forall|n: &SchemaNode, i: usize, p: &Vec<u8>| selector.requires((n, i, p)),
            forall|n: &SchemaNode| pick.requires((n,)),
            forall|n: &SchemaNode, v: OwnedFieldValue, ix: &Vec<usize>| finish.requires((n, v, ix)),
            forall|b: &CallbackBinding| suffix_of.requires((b,)),
            forall|b: &CallbackBinding, r: &WritableRecord, i: Option<usize>, v: Option<&FieldValue>, o: Option<&FieldValue>|
                invoke.requires((b, r, i, v, o)),
            ctx == context_of(*root, record_path@, decoders@, localized, *selector, *narrow, *pick, *finish, *interpret),
            invokes == record_invoking_of(*invoke),
            suffixes == suffixing_of(*suffix_of),
            k <= bindings@.len(),
            r0 == old(record)@,
            forall|out: Result<(RecordView, usize), SemanticError>|
                runs_after_load_from(ctx, invokes, suffixes, bindings@, k as nat, record@, count, out)
                    ==> #[trigger] runs_after_load_from(ctx, invokes, suffixes, bindings@, 0, r0, 0, out),
        decreases bindings.len() - k,
    {
        let ghost here_r = record@;
        let ghost here_c = count;
        let binding = &bindings[k];
        let applies = text_eq(binding.callback_id.as_str(), "def.after_load") && path_is_within(
            binding.path.as_str(),
            record_path,
        );
        if !applies {
            proof {
                assert forall|out: Result<(RecordView, usize), SemanticError>|
                    runs_after_load_from(ctx, invokes, suffixes, bindings@, (k + 1) as nat, record@, count, out)
                        implies #[trigger] runs_after_load_from(ctx, invokes, suffixes, bindings@, 0, r0, 0, out) by {
                    assert(runs_after_load_from(ctx, invokes, suffixes, bindings@, k as nat, here_r, here_c, out));
                }
            }
            k += 1;
            continue;
        }
        if !executable(&binding.implementation) {
            let e = SemanticError::Handler {
                handler: binding.callback_id.clone(),
                message: String::from_str("after-load callback is not executable"),
            };
            assert(runs_after_load_from(ctx, invokes, suffixes, bindings@, k as nat, here_r, here_c, Err(e)));
            assert(runs_after_load_from(ctx, invokes, suffixes, bindings@, 0, r0, 0, Err(e)));
            return Err(e);
        }
        let sfx = suffix_of(binding);
        let ghost sfx_view: Option<Seq<char>> = match &sfx {
            Some(x) => Some(x@),
            None => None,
        };
        proof {
            reveal(suffixing_of);
            assert(suffixes(*binding, sfx_view));
        }
        let anchor: String = match sfx {
            Some(x) => {
                let mut a = binding.path.clone();
                a.append(x.as_str());
                a
            },
            None => after_load_anchor_path(root, binding.path.as_str()),
        };
        assert(anchor@ == anchor_of(ctx.root, binding.path@, sfx_view));
        let t = if text_eq(binding.path.as_str(), record_path) && text_eq(anchor.as_str(), binding.path.as_str()) {
            let t = run_after_load_target(
                root,
                record_path,
                record,
                binding,
                None,
                count,
                localized,
                decoders,
                selector,
                narrow,
                pick,
                finish,
                interpret,
                invoke,
            );
            assert(candidate_counted(counted_of(t, record@)));
            t
        } else {
            let g = interpret(record);
            proof {
                reveal(interpreting_of);
                assert((ctx.interprets)(record@, g));
                assert(candidate_grammar(g));
            }
            match g {
                Err(e) => {
                    assert(runs_after_load_from(ctx, invokes, suffixes, bindings@, k as nat, here_r, here_c, Err(e)));
                    assert(runs_after_load_from(ctx, invokes, suffixes, bindings@, 0, r0, 0, Err(e)));
                    return Err(e);
                },
                Ok(grammar) => {
                    let t = run_anchored(
                        root,
                        record_path,
                        record,
                        binding,
                        &grammar,
                        anchor.as_str(),
                        count,
                        localized,
                        decoders,
                        selector,
                        narrow,
                        pick,
                        finish,
                        interpret,
                        invoke,
                    );
                    assert(candidate_counted(counted_of(t, record@)));
                    t
                },
            }
        };
        match t {
            Err(e) => {
                assert(runs_after_load_from(ctx, invokes, suffixes, bindings@, k as nat, here_r, here_c, Err(e)));
                assert(runs_after_load_from(ctx, invokes, suffixes, bindings@, 0, r0, 0, Err(e)));
                return Err(e);
            },
            Ok(c) => {
                proof {
                    assert forall|out: Result<(RecordView, usize), SemanticError>|
                        runs_after_load_from(ctx, invokes, suffixes, bindings@, (k + 1) as nat, record@, c, out)
                            implies #[trigger] runs_after_load_from(ctx, invokes, suffixes, bindings@, 0, r0, 0, out) by {
                        assert(runs_after_load_from(ctx, invokes, suffixes, bindings@, k as nat, here_r, here_c, out));
                    }
                }
                count = c;
            },
        }
        k += 1;
    }
    Ok(count)
}

} // verus!
