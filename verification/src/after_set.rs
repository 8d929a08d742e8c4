//! After-set processing of an edited field value: every node of the value, children
//! first, applies the local mutations aimed at it and runs its after-set callbacks when
//! its decoded value changed.
use vstd::prelude::*;
use vstd::string::*;

use crate::context::{
    candidate_output, handler_error_is, is_executable, output_of, CallbackBinding, CallbackImplementation, HandlerOutput,
    SpecHandlerOutput,
};
use crate::convert::{candidate_value, converts, owned_to_handler_value, value_of};
use crate::decoder::{CustomDecoder, DecoderRegistry, RegisteredDecoder};
use crate::defaults::{finishing_of, owned_views, picking_of};
use crate::editor::{encode_error, encode_error_is, handler_eq, handler_values_equal};
use crate::encode::{
    candidate_choice, choice_of, lemma_choice_in_range, lemma_reserved_at, narrowing_of,
    prefixes_reserved, select_union_variant, selection_of, struct_count_message, union_choice,
};
use crate::local::{
    apply_local_default_mutations, apply_local_set_mutations, error_of, kept_after_resets,
    kept_after_writes, local_resets, local_writes,
};
use crate::mutation::HandlerMutation;
use crate::schema::{SchemaNode, SchemaNodeKind};
use crate::text::{decimal, text_eq};
use crate::value::{
    FieldValue, OwnedFieldValue, SemanticError, SpecFieldValue, SpecNamedValue, SpecOwnedValue,
};

verus! {

/// What after-set processing runs with: the encoding context, the union picks and
/// callbacks of fresh values, the callback bindings of the schema package, and the
/// outputs that the bound callbacks may give for a decoded value and its previous value.
pub ghost struct AfterSetContext<D: CustomDecoder> {
    pub decoders: Map<Seq<char>, RegisteredDecoder<D>>,
    pub localized: bool,
    pub selects: spec_fn(SchemaNode, usize, Seq<u8>, Result<Option<i64>, SemanticError>) -> bool,
    pub narrowed: spec_fn(u64, u32) -> bool,
    pub picks: spec_fn(SchemaNode, Result<i64, SemanticError>) -> bool,
    pub finishes: spec_fn(SchemaNode, SpecOwnedValue, Seq<usize>, Result<SpecOwnedValue, SemanticError>) -> bool,
    pub bindings: Seq<CallbackBinding>,
    pub invokes: spec_fn(CallbackBinding, SpecFieldValue, Option<SpecFieldValue>, Result<SpecHandlerOutput, SemanticError>) -> bool,
}

/// Marks a candidate outcome of processing; every one is.
pub open spec fn candidate_pair(r: Result<(SpecOwnedValue, Seq<HandlerMutation>), SemanticError>) -> bool {
    true
}

/// Marks a candidate outcome of local mutations; every one is.
pub open spec fn candidate_local(r: (SpecOwnedValue, Option<SemanticError>)) -> bool {
    true
}

/// The members of a previous struct value, if it is one.
pub open spec fn previous_members(previous: Option<SpecFieldValue>) -> Option<Seq<SpecNamedValue>> {
    match previous {
        Some(SpecFieldValue::Struct(members)) => Some(members),
        _ => None,
    }
}

/// The previous value of member `k`, if there is one.
pub open spec fn previous_member(members: Option<Seq<SpecNamedValue>>, k: nat) -> Option<SpecFieldValue> {
    match members {
        Some(ms) => if k < ms.len() {
            Some(ms[k as int].value)
        } else {
            None
        },
        None => None,
    }
}

/// The items of a previous array value, if it is one.
pub open spec fn previous_items(previous: Option<SpecFieldValue>) -> Option<Seq<SpecFieldValue>> {
    match previous {
        Some(SpecFieldValue::Array(items)) => Some(items),
        _ => None,
    }
}

/// The previous value of item `k`, if there is one.
pub open spec fn previous_item(items: Option<Seq<SpecFieldValue>>, k: nat) -> Option<SpecFieldValue> {
    match items {
        Some(xs) => if k < xs.len() {
            Some(xs[k as int])
        } else {
            None
        },
        None => None,
    }
}

/// Whether `out` is a possible outcome of after-set processing of `value`, read with
/// `node`, whose decoded value was `previous` before the edit: the value reached and the
/// mutations left for the levels above. The children are processed first, then the node
/// itself is finished.
pub open spec fn after_sets<D: CustomDecoder>(
    ctx: AfterSetContext<D>,
    node: SchemaNode,
    value: SpecOwnedValue,
    previous: Option<SpecFieldValue>,
    out: Result<(SpecOwnedValue, Seq<HandlerMutation>), SemanticError>,
) -> bool
    decreases node, 1nat,
{
    exists|d: Result<(SpecOwnedValue, Seq<HandlerMutation>), SemanticError>|
        #[trigger] candidate_pair(d) && descends(ctx, node, value, previous, d) && match d {
            Err(e) => out == Err::<(SpecOwnedValue, Seq<HandlerMutation>), SemanticError>(e),
            Ok((v, ms)) => after_set_node(ctx, node, v, ms, previous, out),
        }
}

/// Whether `d` is a possible outcome of processing the children of `value`, read with
/// `node`: the members of a struct, the items of an array, the chosen variant of a union,
/// or the node that a wrapper holds.
pub open spec fn descends<D: CustomDecoder>(
    ctx: AfterSetContext<D>,
    node: SchemaNode,
    value: SpecOwnedValue,
    previous: Option<SpecFieldValue>,
    d: Result<(SpecOwnedValue, Seq<HandlerMutation>), SemanticError>,
) -> bool
    decreases node, 0nat,
{
    match (node.kind, value) {
        (SchemaNodeKind::Struct { fields }, SpecOwnedValue::Struct(values)) => if fields@.len()
            != values.len() {
            d matches Err(e) && encode_error_is(
                e,
                node.path@,
                "struct expects "@ + decimal(fields@.len()) + " fields, got "@ + decimal(
                    values.len(),
                ),
            )
        } else {
            after_set_fields(ctx, node, fields@, values, previous_members(previous), 0, Seq::empty(), d)
        },
        (SchemaNodeKind::Array { element, .. }, SpecOwnedValue::Array(values)) => after_set_items(
            ctx,
            *element,
            values,
            previous_items(previous),
            0,
            Seq::empty(),
            Seq::empty(),
            d,
        ),
        (SchemaNodeKind::Union { variants, .. }, _) => exists|
            c: Result<(nat, Seq<u8>), SemanticError>,
        |
            #[trigger] candidate_choice(c) && union_choice(
                ctx.decoders,
                ctx.localized,
                ctx.selects,
                ctx.narrowed,
                node,
                variants@,
                0,
                value,
                c,
            ) && match c {
                Ok((i, _)) => i < variants@.len() && after_sets(ctx, variants@[i as int], value, previous, d),
                Err(e) => d == Err::<(SpecOwnedValue, Seq<HandlerMutation>), SemanticError>(e),
            },
        (SchemaNodeKind::Subrecord { payload, .. }, _) => after_sets(ctx, *payload, value, previous, d),
        (SchemaNodeKind::Compressed { child }, _) => after_sets(ctx, *child, value, previous, d),
        (SchemaNodeKind::Terminated { child, .. }, _) => after_sets(ctx, *child, value, previous, d),
        _ => d == Ok::<(SpecOwnedValue, Seq<HandlerMutation>), SemanticError>((value, Seq::empty())),
    }
}

/// The members processed from member `k` on, after the members `built`, with the
/// mutations `mutations` gathered so far. After each member, the struct's own local
/// resets run on the whole struct and must leave a struct of at least as many members.
pub open spec fn after_set_fields<D: CustomDecoder>(
    ctx: AfterSetContext<D>,
    node: SchemaNode,
    fields: Seq<SchemaNode>,
    built: Seq<SpecOwnedValue>,
    olds: Option<Seq<SpecNamedValue>>,
    k: nat,
    mutations: Seq<HandlerMutation>,
    out: Result<(SpecOwnedValue, Seq<HandlerMutation>), SemanticError>,
) -> bool
    decreases fields, fields.len() - k,
{
    if k >= fields.len() || k >= built.len() {
        out == Ok::<(SpecOwnedValue, Seq<HandlerMutation>), SemanticError>(
            (SpecOwnedValue::Struct(built), mutations),
        )
    } else {
        exists|r: Result<(SpecOwnedValue, Seq<HandlerMutation>), SemanticError>|
            #[trigger] candidate_pair(r) && after_sets(ctx, fields[k as int], built[k as int], previous_member(olds, k), r)
                && match r {
                Err(e) => out == Err::<(SpecOwnedValue, Seq<HandlerMutation>), SemanticError>(e),
                Ok((v, child)) => exists|lr: (SpecOwnedValue, Option<SemanticError>)|
                    #[trigger] candidate_local(lr) && local_resets(
                        ctx.decoders,
                        ctx.localized,
                        ctx.selects,
                        ctx.narrowed,
                        ctx.picks,
                        ctx.finishes,
                        node,
                        SpecOwnedValue::Struct(built.update(k as int, v)),
                        child,
                        0,
                        lr,
                    ) && match lr.1 {
                        Some(e) => out == Err::<(SpecOwnedValue, Seq<HandlerMutation>), SemanticError>(e),
                        None => match lr.0 {
                            SpecOwnedValue::Struct(next) => if next.len() < fields.len() {
                                out matches Err(e) && encode_error_is(
                                    e,
                                    node.path@,
                                    "default mutation replaced a struct container"@,
                                )
                            } else {
                                after_set_fields(
                                    ctx,
                                    node,
                                    fields,
                                    next,
                                    olds,
                                    k + 1,
                                    mutations + child.filter(kept_after_resets(node.path@)),
                                    out,
                                )
                            },
                            _ => out matches Err(e) && encode_error_is(
                                e,
                                node.path@,
                                "default mutation replaced a struct container"@,
                            ),
                        },
                    },
            }
    }
}

/// The items processed from item `k` on, after the items `built`, with the mutations
/// `mutations` gathered so far.
pub open spec fn after_set_items<D: CustomDecoder>(
    ctx: AfterSetContext<D>,
    element: SchemaNode,
    values: Seq<SpecOwnedValue>,
    olds: Option<Seq<SpecFieldValue>>,
    k: nat,
    built: Seq<SpecOwnedValue>,
    mutations: Seq<HandlerMutation>,
    out: Result<(SpecOwnedValue, Seq<HandlerMutation>), SemanticError>,
) -> bool
    decreases element, values.len() - k + 2,
{
    if k >= values.len() {
        out == Ok::<(SpecOwnedValue, Seq<HandlerMutation>), SemanticError>(
            (SpecOwnedValue::Array(built), mutations),
        )
    } else {
        exists|r: Result<(SpecOwnedValue, Seq<HandlerMutation>), SemanticError>|
            #[trigger] candidate_pair(r) && after_sets(ctx, element, values[k as int], previous_item(olds, k), r) && match r {
                Err(e) => out == Err::<(SpecOwnedValue, Seq<HandlerMutation>), SemanticError>(e),
                Ok((v, child)) => after_set_items(
                    ctx,
                    element,
                    values,
                    olds,
                    k + 1,
                    built.push(v),
                    mutations + child,
                    out,
                ),
            }
    }
}

/// Whether `out` is a possible outcome of applying the local resets, then the local
/// writes, among `mutations` to `value`, read with `node`: the value reached and the
/// mutations left.
pub open spec fn settles<D: CustomDecoder>(
    ctx: AfterSetContext<D>,
    node: SchemaNode,
    value: SpecOwnedValue,
    mutations: Seq<HandlerMutation>,
    out: Result<(SpecOwnedValue, Seq<HandlerMutation>), SemanticError>,
) -> bool {
    exists|lr: (SpecOwnedValue, Option<SemanticError>)|
        #[trigger] candidate_local(lr) && local_resets(
            ctx.decoders,
            ctx.localized,
            ctx.selects,
            ctx.narrowed,
            ctx.picks,
            ctx.finishes,
            node,
            value,
            mutations,
            0,
            lr,
        ) && match lr.1 {
            Some(e) => out == Err::<(SpecOwnedValue, Seq<HandlerMutation>), SemanticError>(e),
            None => {
                let kept = mutations.filter(kept_after_resets(node.path@));
                exists|lw: (SpecOwnedValue, Option<SemanticError>)|
                    #[trigger] candidate_local(lw) && local_writes(
                        ctx.decoders,
                        ctx.localized,
                        ctx.selects,
                        ctx.narrowed,
                        node,
                        lr.0,
                        kept,
                        0,
                        lw,
                    ) && match lw.1 {
                        Some(e) => out == Err::<(SpecOwnedValue, Seq<HandlerMutation>), SemanticError>(e),
                        None => out == Ok::<(SpecOwnedValue, Seq<HandlerMutation>), SemanticError>(
                            (lw.0, kept.filter(kept_after_writes(node.path@))),
                        ),
                    }
            },
        }
}

/// Whether `out` is a possible outcome of finishing a node after its children: the
/// local mutations settle; when the decoded value then differs from `previous` the node's
/// after-set callbacks run, and the local mutations settle again.
pub open spec fn after_set_node<D: CustomDecoder>(
    ctx: AfterSetContext<D>,
    node: SchemaNode,
    value: SpecOwnedValue,
    mutations: Seq<HandlerMutation>,
    previous: Option<SpecFieldValue>,
    out: Result<(SpecOwnedValue, Seq<HandlerMutation>), SemanticError>,
) -> bool {
    exists|s: Result<(SpecOwnedValue, Seq<HandlerMutation>), SemanticError>|
        #[trigger] candidate_pair(s) && settles(ctx, node, value, mutations, s) && match s {
            Err(e) => out == Err::<(SpecOwnedValue, Seq<HandlerMutation>), SemanticError>(e),
            Ok((v, ms)) => exists|conv: Result<SpecFieldValue, SemanticError>|
                #[trigger] candidate_value(conv) && converts(
                    ctx.decoders,
                    ctx.localized,
                    ctx.selects,
                    ctx.narrowed,
                    node,
                    v,
                    conv,
                ) && match conv {
                    Err(e) => out == Err::<(SpecOwnedValue, Seq<HandlerMutation>), SemanticError>(e),
                    Ok(current) => if previous matches Some(o) && handler_eq(current, o) {
                        out == Ok::<(SpecOwnedValue, Seq<HandlerMutation>), SemanticError>((v, ms))
                    } else {
                        exists|c: Result<(SpecOwnedValue, Seq<HandlerMutation>), SemanticError>|
                            #[trigger] candidate_pair(c) && runs_callbacks(ctx, node, previous, 0, v, ms, c)
                                && match c {
                                Err(e) => out == Err::<(SpecOwnedValue, Seq<HandlerMutation>), SemanticError>(e),
                                Ok((v2, ms2)) => settles(ctx, node, v2, ms2, out),
                            }
                    },
                },
        }
}

/// Whether a binding is an executable after-set callback of the node at `path`.
pub open spec fn runs_after_set(b: CallbackBinding, path: Seq<char>) -> bool {
    b.path@ == path && b.callback_id@ == "def.after_set"@ && is_executable(b.implementation)
}

/// The node's after-set callbacks run from binding `k` on, in binding order, each on
/// the decoded form of the value reached so far.
pub open spec fn runs_callbacks<D: CustomDecoder>(
    ctx: AfterSetContext<D>,
    node: SchemaNode,
    previous: Option<SpecFieldValue>,
    k: nat,
    value: SpecOwnedValue,
    mutations: Seq<HandlerMutation>,
    out: Result<(SpecOwnedValue, Seq<HandlerMutation>), SemanticError>,
) -> bool
    decreases ctx.bindings.len() - k,
{
    if k >= ctx.bindings.len() {
        out == Ok::<(SpecOwnedValue, Seq<HandlerMutation>), SemanticError>((value, mutations))
    } else {
        let b = ctx.bindings[k as int];
        if !runs_after_set(b, node.path@) {
            runs_callbacks(ctx, node, previous, k + 1, value, mutations, out)
        } else {
            exists|conv: Result<SpecFieldValue, SemanticError>|
                #[trigger] candidate_value(conv) && converts(
                    ctx.decoders,
                    ctx.localized,
                    ctx.selects,
                    ctx.narrowed,
                    node,
                    value,
                    conv,
                ) && match conv {
                    Err(e) => out == Err::<(SpecOwnedValue, Seq<HandlerMutation>), SemanticError>(e),
                    Ok(current) => exists|r: Result<SpecHandlerOutput, SemanticError>|
                        #[trigger] candidate_output(r) && (ctx.invokes)(b, current, previous, r) && match r {
                            Err(e) => out == Err::<(SpecOwnedValue, Seq<HandlerMutation>), SemanticError>(e),
                            Ok(SpecHandlerOutput::Nothing) => runs_callbacks(ctx, node, previous, k + 1, value, mutations, out),
                            Ok(SpecHandlerOutput::Value(v)) => runs_callbacks(ctx, node, previous, k + 1, v, mutations, out),
                            Ok(SpecHandlerOutput::Mutations(more)) => runs_callbacks(
                                ctx,
                                node,
                                previous,
                                k + 1,
                                value,
                                mutations + more,
                                out,
                            ),
                            Ok(_) => out matches Err(e) && handler_error_is(
                                e,
                                b.callback_id@,
                                "after-set handler returned an invalid result"@,
                            ),
                        },
                }
        }
    }
}

/// An optional decoded value taken by view.
pub open spec fn field_opt(o: Option<&FieldValue>) -> Option<SpecFieldValue> {
    match o {
        Some(v) => Some(v@),
        None => None,
    }
}

/// An optional decoded value as a reference.
pub open spec fn field_ref<'a>(o: Option<FieldValue>) -> Option<&'a FieldValue> {
    match o {
        Some(v) => Some(&v),
        None => None,
    }
}

/// A processing result taken by view.
pub open spec fn pair_of(res: Result<(OwnedFieldValue, Vec<HandlerMutation>), SemanticError>) -> Result<
    (SpecOwnedValue, Seq<HandlerMutation>),
    SemanticError,
> {
    match res {
        Ok((v, ms)) => Ok((v@, ms@)),
        Err(e) => Err(e),
    }
}

/// The outputs that an after-set callback invoker may give for a binding, the decoded
/// value and the previous decoded value.
#[verifier::opaque]
pub open spec fn invoking_of<I: Fn(&CallbackBinding, &FieldValue, Option<&FieldValue>) -> Result<HandlerOutput, SemanticError>>(
    invoke: I,
) -> spec_fn(CallbackBinding, SpecFieldValue, Option<SpecFieldValue>, Result<SpecHandlerOutput, SemanticError>) -> bool {
    |b: CallbackBinding, current: SpecFieldValue, previous: Option<SpecFieldValue>, r: Result<SpecHandlerOutput, SemanticError>|
        exists|cx: FieldValue, ox: Option<FieldValue>, res: Result<HandlerOutput, SemanticError>|
            cx@ == current && match ox {
                Some(x) => previous == Some(x@),
                None => previous is None,
            } && output_of(res) == r && #[trigger] invoke.ensures((&b, &cx, field_ref(ox)), res)
}

/// The context that the arguments of an after-set call make up.
pub open spec fn after_set_context_of<D: CustomDecoder, S, N, C, F, I>(
    bindings: Vec<CallbackBinding>,
    decoders: Map<Seq<char>, RegisteredDecoder<D>>,
    localized: bool,
    selector: S,
    narrow: N,
    pick: C,
    finish: F,
    invoke: I,
) -> AfterSetContext<D>
    where
        S: Fn(&SchemaNode, usize, &Vec<u8>) -> Result<Option<i64>, SemanticError>,
        N: Fn(u64) -> u32,
        C: Fn(&SchemaNode) -> Result<i64, SemanticError>,
        F: Fn(&SchemaNode, OwnedFieldValue, &Vec<usize>) -> Result<OwnedFieldValue, SemanticError>,
        I: Fn(&CallbackBinding, &FieldValue, Option<&FieldValue>) -> Result<HandlerOutput, SemanticError>,
{
    AfterSetContext {
        decoders,
        localized,
        selects: selection_of(selector),
        narrowed: narrowing_of(narrow),
        picks: picking_of(pick),
        finishes: finishing_of(finish),
        bindings: bindings@,
        invokes: invoking_of(invoke),
    }
}

/// Applies the local resets, then the local writes, among `mutations` to `value`.
fn settle<D, S, N, C, F, I>(
    node: &SchemaNode,
    value: &mut OwnedFieldValue,
    mutations: &mut Vec<HandlerMutation>,
    bindings: &Vec<CallbackBinding>,
    localized: bool,
    decoders: &DecoderRegistry<D>,
    selector: &S,
    narrow: &N,
    pick: &C,
    finish: &F,
    invoke: &I,
) -> (res: Result<(), SemanticError>)
    where
        D: CustomDecoder,
        S: Fn(&SchemaNode, usize, &Vec<u8>) -> Result<Option<i64>, SemanticError>,
        N: Fn(u64) -> u32,
        C: Fn(&SchemaNode) -> Result<i64, SemanticError>,
        F: Fn(&SchemaNode, OwnedFieldValue, &Vec<usize>) -> Result<OwnedFieldValue, SemanticError>,
        I: Fn(&CallbackBinding, &FieldValue, Option<&FieldValue>) -> Result<HandlerOutput, SemanticError>,
    requires
        decoders.wf(),
        forall|bits: u64| narrow.requires((bits,)),
        forall|n: &SchemaNode, i: usize, p: &Vec<u8>| selector.requires((n, i, p)),
        forall|n: &SchemaNode| pick.requires((n,)),
        forall|n: &SchemaNode, v: OwnedFieldValue, ix: &Vec<usize>| finish.requires((n, v, ix)),
        forall|b: &CallbackBinding, c: &FieldValue, o: Option<&FieldValue>| invoke.requires((b, c, o)),
        prefixes_reserved(*node),
    ensures
        settles(
            after_set_context_of(*bindings, decoders@, localized, *selector, *narrow, *pick, *finish, *invoke),
            *node,
            old(value)@,
            old(mutations)@,
            match res {
                Ok(_) => Ok((final(value)@, final(mutations)@)),
                Err(e) => Err(e),
            },
        ),
{
    let ghost ms0 = mutations@;
    let reset = apply_local_default_mutations(
        node,
        value,
        mutations,
        localized,
        decoders,
        selector,
        narrow,
        pick,
        finish,
    );
    proof {
        assert(candidate_local((value@, error_of(reset))));
    }
    if let Err(e) = reset {
        return Err(e);
    }
    let write = apply_local_set_mutations(node, value, mutations, localized, decoders, selector, narrow);
    proof {
        assert(candidate_local((value@, error_of(write))));
    }
    write
}

/// Whether a binding is an executable after-set callback of the node at `path`.
fn is_after_set_of(binding: &CallbackBinding, path: &str) -> (res: bool)
    ensures
        res == runs_after_set(*binding, path@),
{
    let executable = match binding.implementation {
        CallbackImplementation::BuiltIn => true,
        CallbackImplementation::CustomHandler => true,
        CallbackImplementation::Unsupported => false,
    };
    executable && text_eq(binding.path.as_str(), path) && text_eq(
        binding.callback_id.as_str(),
        "def.after_set",
    )
}

/// Runs the node's after-set callbacks, in binding order, on the value reached so far.
fn run_callbacks<D, S, N, C, F, I>(
    node: &SchemaNode,
    previous: Option<&FieldValue>,
    value: &mut OwnedFieldValue,
    mutations: &mut Vec<HandlerMutation>,
    bindings: &Vec<CallbackBinding>,
    localized: bool,
    decoders: &DecoderRegistry<D>,
    selector: &S,
    narrow: &N,
    pick: &C,
    finish: &F,
    invoke: &I,
) -> (res: Result<(), SemanticError>)
    where
        D: CustomDecoder,
        S: Fn(&SchemaNode, usize, &Vec<u8>) -> Result<Option<i64>, SemanticError>,
        N: Fn(u64) -> u32,
        C: Fn(&SchemaNode) -> Result<i64, SemanticError>,
        F: Fn(&SchemaNode, OwnedFieldValue, &Vec<usize>) -> Result<OwnedFieldValue, SemanticError>,
        I: Fn(&CallbackBinding, &FieldValue, Option<&FieldValue>) -> Result<HandlerOutput, SemanticError>,
    requires
        decoders.wf(),
        forall|bits: u64| narrow.requires((bits,)),
        forall|n: &SchemaNode, i: usize, p: &Vec<u8>| selector.requires((n, i, p)),
        forall|n: &SchemaNode| pick.requires((n,)),
        forall|n: &SchemaNode, v: OwnedFieldValue, ix: &Vec<usize>| finish.requires((n, v, ix)),
        forall|b: &CallbackBinding, c: &FieldValue, o: Option<&FieldValue>| invoke.requires((b, c, o)),
        prefixes_reserved(*node),
    ensures
        runs_callbacks(
            after_set_context_of(*bindings, decoders@, localized, *selector, *narrow, *pick, *finish, *invoke),
            *node,
            field_opt(previous),
            0,
            old(value)@,
            old(mutations)@,
            match res {
                Ok(_) => Ok((final(value)@, final(mutations)@)),
                Err(e) => Err(e),
            },
        ),
{
    let ghost ctx = after_set_context_of(*bindings, decoders@, localized, *selector, *narrow, *pick, *finish, *invoke);
    let ghost start_value = value@;
    let ghost start_mutations = mutations@;
    let mut k: usize = 0;
    while k < bindings.len()
        invariant
            decoders.wf(),
            forall|bits: u64| narrow.requires((bits,)),
            forall|n: &SchemaNode, i: usize, p: &Vec<u8>| selector.requires((n, i, p)),
            forall|n: &SchemaNode| pick.requires((n,)),
            forall|n: &SchemaNode, v: OwnedFieldValue, ix: &Vec<usize>| finish.requires((n, v, ix)),
            forall|b: &CallbackBinding, c: &FieldValue, o: Option<&FieldValue>| invoke.requires((b, c, o)),
            prefixes_reserved(*node),
            ctx == after_set_context_of(*bindings, decoders@, localized, *selector, *narrow, *pick, *finish, *invoke),
            k <= bindings@.len(),
            start_value == old(value)@,
            start_mutations == old(mutations)@,
            forall|out: Result<(SpecOwnedValue, Seq<HandlerMutation>), SemanticError>|
                runs_callbacks(ctx, *node, field_opt(previous), k as nat, value@, mutations@, out)
                    ==> #[trigger] runs_callbacks(
                    ctx,
                    *node,
                    field_opt(previous),
                    0,
                    start_value,
                    start_mutations,
                    out,
                ),
        decreases bindings.len() - k,
    {
        let ghost here_value = value@;
        let ghost here_mutations = mutations@;
        let binding = &bindings[k];
        if is_after_set_of(binding, node.path.as_str()) {
            let conv = owned_to_handler_value(node, value, localized, decoders, selector, narrow);
            proof {
                assert(candidate_value(value_of(conv)));
            }
            let current = match conv {
                Ok(c) => c,
                Err(e) => {
                    assert(runs_callbacks(ctx, *node, field_opt(previous), k as nat, here_value, here_mutations, Err(e)));
                    return Err(e);
                },
            };
            let r = invoke(binding, &current, previous);
            proof {
                reveal(invoking_of);
                let ox: Option<FieldValue> = match previous {
                    Some(o) => Some(*o),
                    None => None,
                };
                assert(field_ref(ox) == previous);
                assert(invoke.ensures((binding, &current, field_ref(ox)), r));
                assert((ctx.invokes)(*binding, current@, field_opt(previous), output_of(r)));
                assert(candidate_output(output_of(r)));
            }
            match r {
                Err(e) => {
                    assert(runs_callbacks(ctx, *node, field_opt(previous), k as nat, here_value, here_mutations, Err(e)));
                    return Err(e);
                },
                Ok(HandlerOutput::Nothing) => {},
                Ok(HandlerOutput::Value(v)) => {
                    *value = v;
                },
                Ok(HandlerOutput::Mutations(more)) => {
                    let mut more = more;
                    mutations.append(&mut more);
                },
                Ok(_) => {
                    let e = SemanticError::Handler {
                        handler: binding.callback_id.clone(),
                        message: String::from_str("after-set handler returned an invalid result"),
                    };
                    assert(runs_callbacks(ctx, *node, field_opt(previous), k as nat, here_value, here_mutations, Err(e)));
                    return Err(e);
                },
            }
        }
        proof {
            assert forall|out: Result<(SpecOwnedValue, Seq<HandlerMutation>), SemanticError>|
                runs_callbacks(ctx, *node, field_opt(previous), (k + 1) as nat, value@, mutations@, out)
                    implies #[trigger] runs_callbacks(
                    ctx,
                    *node,
                    field_opt(previous),
                    0,
                    start_value,
                    start_mutations,
                    out,
                ) by {
                assert(runs_callbacks(ctx, *node, field_opt(previous), k as nat, here_value, here_mutations, out));
            }
        }
        k += 1;
    }
    Ok(())
}

/// Finishes a node after its children (see [`after_set_node`]).
fn finish_node<D, S, N, C, F, I>(
    node: &SchemaNode,
    value: OwnedFieldValue,
    mutations: Vec<HandlerMutation>,
    previous: Option<&FieldValue>,
    bindings: &Vec<CallbackBinding>,
    localized: bool,
    decoders: &DecoderRegistry<D>,
    selector: &S,
    narrow: &N,
    pick: &C,
    finish: &F,
    invoke: &I,
) -> (res: Result<(OwnedFieldValue, Vec<HandlerMutation>), SemanticError>)
    where
        D: CustomDecoder,
        S: Fn(&SchemaNode, usize, &Vec<u8>) -> Result<Option<i64>, SemanticError>,
        N: Fn(u64) -> u32,
        C: Fn(&SchemaNode) -> Result<i64, SemanticError>,
        F: Fn(&SchemaNode, OwnedFieldValue, &Vec<usize>) -> Result<OwnedFieldValue, SemanticError>,
        I: Fn(&CallbackBinding, &FieldValue, Option<&FieldValue>) -> Result<HandlerOutput, SemanticError>,
    requires
        decoders.wf(),
        forall|bits: u64| narrow.requires((bits,)),
        forall|n: &SchemaNode, i: usize, p: &Vec<u8>| selector.requires((n, i, p)),
        forall|n: &SchemaNode| pick.requires((n,)),
        forall|n: &SchemaNode, v: OwnedFieldValue, ix: &Vec<usize>| finish.requires((n, v, ix)),
        forall|b: &CallbackBinding, c: &FieldValue, o: Option<&FieldValue>| invoke.requires((b, c, o)),
        prefixes_reserved(*node),
    ensures
        after_set_node(after_set_context_of(*bindings, decoders@, localized, *selector, *narrow, *pick, *finish, *invoke), *node, value@, mutations@, field_opt(previous), pair_of(res)),
{
    let ghost ctx = after_set_context_of(*bindings, decoders@, localized, *selector, *narrow, *pick, *finish, *invoke);
    let mut value = value;
    let mut mutations = mutations;
    let first = settle(node, &mut value, &mut mutations, bindings, localized, decoders, selector, narrow, pick, finish, invoke);
    proof {
        assert(candidate_pair(match first {
            Ok(_) => Ok((value@, mutations@)),
            Err(e) => Err(e),
        }));
    }
    if let Err(e) = first {
        return Err(e);
    }
    let conv = owned_to_handler_value(node, &value, localized, decoders, selector, narrow);
    proof {
        assert(candidate_value(value_of(conv)));
    }
    let current = match conv {
        Ok(c) => c,
        Err(e) => {
            return Err(e);
        },
    };
    if let Some(o) = previous {
        if handler_values_equal(&current, o) {
            return Ok((value, mutations));
        }
    }
    let ran = run_callbacks(node, previous, &mut value, &mut mutations, bindings, localized, decoders, selector, narrow, pick, finish, invoke);
    proof {
        assert(candidate_pair(match ran {
            Ok(_) => Ok((value@, mutations@)),
            Err(e) => Err(e),
        }));
    }
    if let Err(e) = ran {
        return Err(e);
    }
    let last = settle(node, &mut value, &mut mutations, bindings, localized, decoders, selector, narrow, pick, finish, invoke);
    match last {
        Ok(_) => Ok((value, mutations)),
        Err(e) => Err(e),
    }
}

/// Copies a list of owned values.
fn clone_values(values: &Vec<OwnedFieldValue>) -> (res: Vec<OwnedFieldValue>)
    ensures
        res@.len() == values@.len(),
        owned_views(res@) == owned_views(values@),
{
    let mut res: Vec<OwnedFieldValue> = Vec::new();
    let mut i: usize = 0;
    while i < values.len()
        invariant
            i <= values@.len(),
            res@.len() == i,
            forall|j: int| 0 <= j < i ==> (#[trigger] res@[j])@ == values@[j]@,
        decreases values.len() - i,
    {
        res.push(values[i].clone());
        i += 1;
    }
    assert(owned_views(res@) =~= owned_views(values@));
    res
}

/// A member whose processing failed ends the members with that failure.
proof fn lemma_fields_fail<D: CustomDecoder>(
    ctx: AfterSetContext<D>,
    node: SchemaNode,
    fields: Seq<SchemaNode>,
    here: Seq<SpecOwnedValue>,
    olds: Option<Seq<SpecNamedValue>>,
    k: nat,
    mutations: Seq<HandlerMutation>,
    e: SemanticError,
)
    requires
        k < fields.len(),
        k < here.len(),
        after_sets(ctx, fields[k as int], here[k as int], previous_member(olds, k), Err(e)),
    ensures
        after_set_fields(ctx, node, fields, here, olds, k, mutations, Err(e)),
{
    assert(candidate_pair(Err(e)));
}

/// A member whose local resets failed, or left no struct of enough members, ends the
/// members with a failure.
proof fn lemma_fields_stop<D: CustomDecoder>(
    ctx: AfterSetContext<D>,
    node: SchemaNode,
    fields: Seq<SchemaNode>,
    here: Seq<SpecOwnedValue>,
    olds: Option<Seq<SpecNamedValue>>,
    k: nat,
    mutations: Seq<HandlerMutation>,
    v: SpecOwnedValue,
    child: Seq<HandlerMutation>,
    lr: (SpecOwnedValue, Option<SemanticError>),
    out: Result<(SpecOwnedValue, Seq<HandlerMutation>), SemanticError>,
)
    requires
        k < fields.len(),
        k < here.len(),
        after_sets(ctx, fields[k as int], here[k as int], previous_member(olds, k), Ok((v, child))),
        local_resets(
            ctx.decoders,
            ctx.localized,
            ctx.selects,
            ctx.narrowed,
            ctx.picks,
            ctx.finishes,
            node,
            SpecOwnedValue::Struct(here.update(k as int, v)),
            child,
            0,
            lr,
        ),
        match lr.1 {
            Some(e) => out == Err::<(SpecOwnedValue, Seq<HandlerMutation>), SemanticError>(e),
            None => out matches Err(e) && encode_error_is(
                e,
                node.path@,
                "default mutation replaced a struct container"@,
            ) && match lr.0 {
                SpecOwnedValue::Struct(next) => next.len() < fields.len(),
                _ => true,
            },
        },
    ensures
        after_set_fields(ctx, node, fields, here, olds, k, mutations, out),
{
    assert(candidate_pair(Ok((v, child))));
    assert(candidate_local(lr));
}

/// A member processed and reset to a struct of enough members goes on with the next.
proof fn lemma_fields_step<D: CustomDecoder>(
    ctx: AfterSetContext<D>,
    node: SchemaNode,
    fields: Seq<SchemaNode>,
    here: Seq<SpecOwnedValue>,
    olds: Option<Seq<SpecNamedValue>>,
    k: nat,
    mutations: Seq<HandlerMutation>,
    v: SpecOwnedValue,
    child: Seq<HandlerMutation>,
    next: Seq<SpecOwnedValue>,
    out: Result<(SpecOwnedValue, Seq<HandlerMutation>), SemanticError>,
)
    requires
        k < fields.len(),
        k < here.len(),
        after_sets(ctx, fields[k as int], here[k as int], previous_member(olds, k), Ok((v, child))),
        local_resets(
            ctx.decoders,
            ctx.localized,
            ctx.selects,
            ctx.narrowed,
            ctx.picks,
            ctx.finishes,
            node,
            SpecOwnedValue::Struct(here.update(k as int, v)),
            child,
            0,
            (SpecOwnedValue::Struct(next), None),
        ),
        next.len() >= fields.len(),
        after_set_fields(
            ctx,
            node,
            fields,
            next,
            olds,
            k + 1,
            mutations + child.filter(kept_after_resets(node.path@)),
            out,
        ),
    ensures
        after_set_fields(ctx, node, fields, here, olds, k, mutations, out),
{
    assert(candidate_pair(Ok((v, child))));
    assert(candidate_local((SpecOwnedValue::Struct(next), None::<SemanticError>)));
}

/// Processes the members of a struct value in order (see [`after_set_fields`]).
fn descend_fields<D, S, N, C, F, I>(
    node: &SchemaNode,
    fields: &Vec<SchemaNode>,
    values: &Vec<OwnedFieldValue>,
    previous: Option<&FieldValue>,
    bindings: &Vec<CallbackBinding>,
    localized: bool,
    decoders: &DecoderRegistry<D>,
    selector: &S,
    narrow: &N,
    pick: &C,
    finish: &F,
    invoke: &I,
) -> (res: Result<(OwnedFieldValue, Vec<HandlerMutation>), SemanticError>)
    where
        D: CustomDecoder,
        S: Fn(&SchemaNode, usize, &Vec<u8>) -> Result<Option<i64>, SemanticError>,
        N: Fn(u64) -> u32,
        C: Fn(&SchemaNode) -> Result<i64, SemanticError>,
        F: Fn(&SchemaNode, OwnedFieldValue, &Vec<usize>) -> Result<OwnedFieldValue, SemanticError>,
        I: Fn(&CallbackBinding, &FieldValue, Option<&FieldValue>) -> Result<HandlerOutput, SemanticError>,
    requires
        decoders.wf(),
        forall|bits: u64| narrow.requires((bits,)),
        forall|n: &SchemaNode, i: usize, p: &Vec<u8>| selector.requires((n, i, p)),
        forall|n: &SchemaNode| pick.requires((n,)),
        forall|n: &SchemaNode, v: OwnedFieldValue, ix: &Vec<usize>| finish.requires((n, v, ix)),
        forall|b: &CallbackBinding, c: &FieldValue, o: Option<&FieldValue>| invoke.requires((b, c, o)),
        prefixes_reserved(*node),
        node.kind matches SchemaNodeKind::Struct { fields: f } && f == *fields,
        values@.len() == fields@.len(),
    ensures
        after_set_fields(
            after_set_context_of(*bindings, decoders@, localized, *selector, *narrow, *pick, *finish, *invoke),
            *node,
            fields@,
            owned_views(values@),
            previous_members(field_opt(previous)),
            0,
            Seq::empty(),
            pair_of(res),
        ),
    decreases node, 0nat,
{
    let ghost ctx = after_set_context_of(*bindings, decoders@, localized, *selector, *narrow, *pick, *finish, *invoke);
    let ghost vs = owned_views(values@);
    let ghost olds = previous_members(field_opt(previous));
    let path = node.path.as_str();
    let mut built = clone_values(values);
    let mut mutations: Vec<HandlerMutation> = Vec::new();
    let mut k: usize = 0;
    while k < fields.len()
        invariant
            decoders.wf(),
            forall|bits: u64| narrow.requires((bits,)),
            forall|n: &SchemaNode, i: usize, p: &Vec<u8>| selector.requires((n, i, p)),
            forall|n: &SchemaNode| pick.requires((n,)),
            forall|n: &SchemaNode, v: OwnedFieldValue, ix: &Vec<usize>| finish.requires((n, v, ix)),
            forall|b: &CallbackBinding, c: &FieldValue, o: Option<&FieldValue>| invoke.requires((b, c, o)),
            prefixes_reserved(*node),
            node.kind matches SchemaNodeKind::Struct { fields: f } && f == *fields,
            ctx == after_set_context_of(*bindings, decoders@, localized, *selector, *narrow, *pick, *finish, *invoke),
            vs == owned_views(values@),
            olds == previous_members(field_opt(previous)),
            path@ == node.path@,
            k <= fields@.len(),
            built@.len() >= fields@.len(),
            forall|out: Result<(SpecOwnedValue, Seq<HandlerMutation>), SemanticError>|
                after_set_fields(ctx, *node, fields@, owned_views(built@), olds, k as nat, mutations@, out)
                    ==> #[trigger] after_set_fields(ctx, *node, fields@, vs, olds, 0, Seq::empty(), out),
        decreases fields.len() - k,
    {
        let ghost here = owned_views(built@);
        let ghost here_mutations = mutations@;
        proof {
            lemma_reserved_at(fields@, k as int);
        }
        assert(decreases_to!(*node => fields@[k as int]));
        let previous_field: Option<&FieldValue> = match previous {
            Some(FieldValue::Struct(members)) => if k < members.len() {
                Some(&members[k].value)
            } else {
                None
            },
            _ => None,
        };
        assert(field_opt(previous_field) == previous_member(olds, k as nat));
        let r = apply_after_set_tree(
            &fields[k],
            &built[k],
            previous_field,
            bindings,
            localized,
            decoders,
            selector,
            narrow,
            pick,
            finish,
            invoke,
        );
        assert(here[k as int] == built@[k as int]@);
        let (v, mut child) = match r {
            Ok(p) => p,
            Err(e) => {
                proof {
                    lemma_fields_fail(ctx, *node, fields@, here, olds, k as nat, here_mutations, e);
                }
                return Err(e);
            },
        };
        let ghost child_mutations = child@;
        let ghost v_view = v@;
        built.set(k, v);
        let mut container = OwnedFieldValue::Struct(built);
        assert(container@ == SpecOwnedValue::Struct(here.update(k as int, v_view))) by {
            assert(container@->Struct_0 =~= here.update(k as int, v_view));
        }
        let reset = apply_local_default_mutations(
            node,
            &mut container,
            &mut child,
            localized,
            decoders,
            selector,
            narrow,
            pick,
            finish,
        );
        let ghost reached = container@;
        if let Err(e) = reset {
            proof {
                lemma_fields_stop(
                    ctx,
                    *node,
                    fields@,
                    here,
                    olds,
                    k as nat,
                    here_mutations,
                    v_view,
                    child_mutations,
                    (reached, Some(e)),
                    Err(e),
                );
            }
            return Err(e);
        }
        let next = match container {
            OwnedFieldValue::Struct(next) => next,
            _ => {
                let e = encode_error(path, "default mutation replaced a struct container");
                proof {
                    lemma_fields_stop(
                        ctx,
                        *node,
                        fields@,
                        here,
                        olds,
                        k as nat,
                        here_mutations,
                        v_view,
                        child_mutations,
                        (reached, None),
                        Err(e),
                    );
                }
                return Err(e);
            },
        };
        assert(reached == SpecOwnedValue::Struct(owned_views(next@))) by {
            assert(reached->Struct_0 =~= owned_views(next@));
        }
        if next.len() < fields.len() {
            let e = encode_error(path, "default mutation replaced a struct container");
            proof {
                lemma_fields_stop(
                    ctx,
                    *node,
                    fields@,
                    here,
                    olds,
                    k as nat,
                    here_mutations,
                    v_view,
                    child_mutations,
                    (reached, None),
                    Err(e),
                );
            }
            return Err(e);
        }
        built = next;
        mutations.append(&mut child);
        proof {
            assert forall|out: Result<(SpecOwnedValue, Seq<HandlerMutation>), SemanticError>|
                after_set_fields(ctx, *node, fields@, owned_views(built@), olds, (k + 1) as nat, mutations@, out)
                    implies #[trigger] after_set_fields(ctx, *node, fields@, vs, olds, 0, Seq::empty(), out) by {
                lemma_fields_step(
                    ctx,
                    *node,
                    fields@,
                    here,
                    olds,
                    k as nat,
                    here_mutations,
                    v_view,
                    child_mutations,
                    owned_views(built@),
                    out,
                );
            }
        }
        k += 1;
    }
    let ghost done = owned_views(built@);
    let out_value = OwnedFieldValue::Struct(built);
    assert(out_value@ == SpecOwnedValue::Struct(done)) by {
        assert(out_value@->Struct_0 =~= done);
    }
    Ok((out_value, mutations))
}

/// Processes the items of an array value in order (see [`after_set_items`]).
fn descend_items<D, S, N, C, F, I>(
    node: &SchemaNode,
    element: &SchemaNode,
    values: &Vec<OwnedFieldValue>,
    previous: Option<&FieldValue>,
    bindings: &Vec<CallbackBinding>,
    localized: bool,
    decoders: &DecoderRegistry<D>,
    selector: &S,
    narrow: &N,
    pick: &C,
    finish: &F,
    invoke: &I,
) -> (res: Result<(OwnedFieldValue, Vec<HandlerMutation>), SemanticError>)
    where
        D: CustomDecoder,
        S: Fn(&SchemaNode, usize, &Vec<u8>) -> Result<Option<i64>, SemanticError>,
        N: Fn(u64) -> u32,
        C: Fn(&SchemaNode) -> Result<i64, SemanticError>,
        F: Fn(&SchemaNode, OwnedFieldValue, &Vec<usize>) -> Result<OwnedFieldValue, SemanticError>,
        I: Fn(&CallbackBinding, &FieldValue, Option<&FieldValue>) -> Result<HandlerOutput, SemanticError>,
    requires
        decoders.wf(),
        forall|bits: u64| narrow.requires((bits,)),
        forall|n: &SchemaNode, i: usize, p: &Vec<u8>| selector.requires((n, i, p)),
        forall|n: &SchemaNode| pick.requires((n,)),
        forall|n: &SchemaNode, v: OwnedFieldValue, ix: &Vec<usize>| finish.requires((n, v, ix)),
        forall|b: &CallbackBinding, c: &FieldValue, o: Option<&FieldValue>| invoke.requires((b, c, o)),
        prefixes_reserved(*node),
        node.kind matches SchemaNodeKind::Array { element: el, .. } && *el == *element,
    ensures
        after_set_items(
            after_set_context_of(*bindings, decoders@, localized, *selector, *narrow, *pick, *finish, *invoke),
            *element,
            owned_views(values@),
            previous_items(field_opt(previous)),
            0,
            Seq::empty(),
            Seq::empty(),
            pair_of(res),
        ),
    decreases node, 0nat,
{
    let ghost ctx = after_set_context_of(*bindings, decoders@, localized, *selector, *narrow, *pick, *finish, *invoke);
    let ghost vs = owned_views(values@);
    let ghost olds = previous_items(field_opt(previous));
    let mut built: Vec<OwnedFieldValue> = Vec::new();
    let mut mutations: Vec<HandlerMutation> = Vec::new();
    let mut k: usize = 0;
    assert(owned_views(built@) =~= Seq::<SpecOwnedValue>::empty());
    while k < values.len()
        invariant
            decoders.wf(),
            forall|bits: u64| narrow.requires((bits,)),
            forall|n: &SchemaNode, i: usize, p: &Vec<u8>| selector.requires((n, i, p)),
            forall|n: &SchemaNode| pick.requires((n,)),
            forall|n: &SchemaNode, v: OwnedFieldValue, ix: &Vec<usize>| finish.requires((n, v, ix)),
            forall|b: &CallbackBinding, c: &FieldValue, o: Option<&FieldValue>| invoke.requires((b, c, o)),
            prefixes_reserved(*node),
            node.kind matches SchemaNodeKind::Array { element: el, .. } && *el == *element,
            ctx == after_set_context_of(*bindings, decoders@, localized, *selector, *narrow, *pick, *finish, *invoke),
            vs == owned_views(values@),
            olds == previous_items(field_opt(previous)),
            k <= values@.len(),
            forall|out: Result<(SpecOwnedValue, Seq<HandlerMutation>), SemanticError>|
                after_set_items(ctx, *element, vs, olds, k as nat, owned_views(built@), mutations@, out)
                    ==> #[trigger] after_set_items(ctx, *element, vs, olds, 0, Seq::empty(), Seq::empty(), out),
        decreases values.len() - k,
    {
        let ghost here = owned_views(built@);
        let ghost here_mutations = mutations@;
        assert(decreases_to!(*node => *element));
        let previous_item_ref: Option<&FieldValue> = match previous {
            Some(FieldValue::Array(items)) => if k < items.len() {
                Some(&items[k])
            } else {
                None
            },
            _ => None,
        };
        assert(field_opt(previous_item_ref) == previous_item(olds, k as nat));
        let r = apply_after_set_tree(
            element,
            &values[k],
            previous_item_ref,
            bindings,
            localized,
            decoders,
            selector,
            narrow,
            pick,
            finish,
            invoke,
        );
        assert(vs[k as int] == values@[k as int]@);
        assert(candidate_pair(pair_of(r)));
        let (v, mut child) = match r {
            Ok(p) => p,
            Err(e) => {
                assert(after_set_items(ctx, *element, vs, olds, k as nat, here, here_mutations, Err(e)));
                return Err(e);
            },
        };
        let ghost v_view = v@;
        built.push(v);
        mutations.append(&mut child);
        proof {
            assert(owned_views(built@) =~= here.push(v_view));
            assert forall|out: Result<(SpecOwnedValue, Seq<HandlerMutation>), SemanticError>|
                after_set_items(ctx, *element, vs, olds, (k + 1) as nat, owned_views(built@), mutations@, out)
                    implies #[trigger] after_set_items(ctx, *element, vs, olds, 0, Seq::empty(), Seq::empty(), out) by {
                assert(after_set_items(ctx, *element, vs, olds, k as nat, here, here_mutations, out));
            }
        }
        k += 1;
    }
    let ghost done = owned_views(built@);
    let out_value = OwnedFieldValue::Array(built);
    assert(out_value@ == SpecOwnedValue::Array(done)) by {
        assert(out_value@->Array_0 =~= done);
    }
    Ok((out_value, mutations))
}

/// Processes the children of `value`, read with `node` (see [`descends`]).
fn descend<D, S, N, C, F, I>(
    node: &SchemaNode,
    value: &OwnedFieldValue,
    previous: Option<&FieldValue>,
    bindings: &Vec<CallbackBinding>,
    localized: bool,
    decoders: &DecoderRegistry<D>,
    selector: &S,
    narrow: &N,
    pick: &C,
    finish: &F,
    invoke: &I,
) -> (res: Result<(OwnedFieldValue, Vec<HandlerMutation>), SemanticError>)
    where
        D: CustomDecoder,
        S: Fn(&SchemaNode, usize, &Vec<u8>) -> Result<Option<i64>, SemanticError>,
        N: Fn(u64) -> u32,
        C: Fn(&SchemaNode) -> Result<i64, SemanticError>,
        F: Fn(&SchemaNode, OwnedFieldValue, &Vec<usize>) -> Result<OwnedFieldValue, SemanticError>,
        I: Fn(&CallbackBinding, &FieldValue, Option<&FieldValue>) -> Result<HandlerOutput, SemanticError>,
    requires
        decoders.wf(),
        forall|bits: u64| narrow.requires((bits,)),
        forall|n: &SchemaNode, i: usize, p: &Vec<u8>| selector.requires((n, i, p)),
        forall|n: &SchemaNode| pick.requires((n,)),
        forall|n: &SchemaNode, v: OwnedFieldValue, ix: &Vec<usize>| finish.requires((n, v, ix)),
        forall|b: &CallbackBinding, c: &FieldValue, o: Option<&FieldValue>| invoke.requires((b, c, o)),
        prefixes_reserved(*node),
    ensures
        descends(
            after_set_context_of(*bindings, decoders@, localized, *selector, *narrow, *pick, *finish, *invoke),
            *node,
            value@,
            field_opt(previous),
            pair_of(res),
        ),
    decreases node, 1nat,
{
    match &node.kind {
        SchemaNodeKind::Struct { fields } => match value {
            OwnedFieldValue::Struct(values) => {
                if fields.len() != values.len() {
                    let message = struct_count_message(fields.len(), values.len());
                    return Err(encode_error(node.path.as_str(), message.as_str()));
                }
                let res = descend_fields(
                    node,
                    fields,
                    values,
                    previous,
                    bindings,
                    localized,
                    decoders,
                    selector,
                    narrow,
                    pick,
                    finish,
                    invoke,
                );
                assert(owned_views(values@) =~= value@->Struct_0);
                res
            },
            _ => Ok((value.clone(), Vec::new())),
        },
        SchemaNodeKind::Array { element, .. } => match value {
            OwnedFieldValue::Array(values) => {
                let res = descend_items(
                    node,
                    element,
                    values,
                    previous,
                    bindings,
                    localized,
                    decoders,
                    selector,
                    narrow,
                    pick,
                    finish,
                    invoke,
                );
                assert(owned_views(values@) =~= value@->Array_0);
                res
            },
            _ => Ok((value.clone(), Vec::new())),
        },
        SchemaNodeKind::Union { variants, .. } => {
            let chosen = select_union_variant(node, value, localized, decoders, selector, narrow);
            assert(candidate_choice(choice_of(chosen)));
            match chosen {
                Err(e) => Err(e),
                Ok((index, _)) => {
                    proof {
                        lemma_choice_in_range(
                            decoders@,
                            localized,
                            selection_of(*selector),
                            narrowing_of(*narrow),
                            *node,
                            variants@,
                            0,
                            value@,
                            index as nat,
                            choice_of(chosen)->Ok_0.1,
                        );
                        lemma_reserved_at(variants@, index as int);
                    }
                    assert(decreases_to!(*node => variants@[index as int]));
                    apply_after_set_tree(
                        &variants[index],
                        value,
                        previous,
                        bindings,
                        localized,
                        decoders,
                        selector,
                        narrow,
                        pick,
                        finish,
                        invoke,
                    )
                },
            }
        },
        SchemaNodeKind::Subrecord { payload, .. } => {
            assert(decreases_to!(*node => **payload));
            apply_after_set_tree(payload, value, previous, bindings, localized, decoders, selector, narrow, pick, finish, invoke)
        },
        SchemaNodeKind::Compressed { child } => {
            assert(decreases_to!(*node => **child));
            apply_after_set_tree(child, value, previous, bindings, localized, decoders, selector, narrow, pick, finish, invoke)
        },
        SchemaNodeKind::Terminated { child, .. } => {
            assert(decreases_to!(*node => **child));
            apply_after_set_tree(child, value, previous, bindings, localized, decoders, selector, narrow, pick, finish, invoke)
        },
        _ => Ok((value.clone(), Vec::new())),
    }
}

/// Runs after-set processing on `value`, read with `node`, whose decoded value was
/// `previous` before the edit (see [`after_sets`]): the members of a struct, the items of
/// an array, the chosen variant of a union or the node that a wrapper holds are processed
/// first, each with its own previous value; then the node's local resets and writes
/// apply, and, when its decoded value differs from `previous`, its after-set callbacks
/// run and the local mutations apply again. Returns the value reached and the mutations
/// left for the levels above.
///
/// `bindings` are the schema package's callback bindings, and `invoke` runs one bound
/// after-set callback on a decoded value and its previous value. The other arguments
/// are those of [`crate::local::apply_local_default_mutations`].
pub fn apply_after_set_tree<D, S, N, C, F, I>(
    node: &SchemaNode,
    value: &OwnedFieldValue,
    previous: Option<&FieldValue>,
    bindings: &Vec<CallbackBinding>,
    localized: bool,
    decoders: &DecoderRegistry<D>,
    selector: &S,
    narrow: &N,
    pick: &C,
    finish: &F,
    invoke: &I,
) -> (res: Result<(OwnedFieldValue, Vec<HandlerMutation>), SemanticError>)
    where
        D: CustomDecoder,
        S: Fn(&SchemaNode, usize, &Vec<u8>) -> Result<Option<i64>, SemanticError>,
        N: Fn(u64) -> u32,
        C: Fn(&SchemaNode) -> Result<i64, SemanticError>,
        F: Fn(&SchemaNode, OwnedFieldValue, &Vec<usize>) -> Result<OwnedFieldValue, SemanticError>,
        I: Fn(&CallbackBinding, &FieldValue, Option<&FieldValue>) -> Result<HandlerOutput, SemanticError>,
    requires
        decoders.wf(),
        forall|bits: u64| narrow.requires((bits,)),
        forall|n: &SchemaNode, i: usize, p: &Vec<u8>| selector.requires((n, i, p)),
        forall|n: &SchemaNode| pick.requires((n,)),
        forall|n: &SchemaNode, v: OwnedFieldValue, ix: &Vec<usize>| finish.requires((n, v, ix)),
        forall|b: &CallbackBinding, c: &FieldValue, o: Option<&FieldValue>| invoke.requires((b, c, o)),
        prefixes_reserved(*node),
    ensures
        after_sets(
            after_set_context_of(*bindings, decoders@, localized, *selector, *narrow, *pick, *finish, *invoke),
            *node,
            value@,
            field_opt(previous),
            pair_of(res),
        ),
    decreases node, 2nat,
{
    let descended = descend(node, value, previous, bindings, localized, decoders, selector, narrow, pick, finish, invoke);
    assert(candidate_pair(pair_of(descended)));
    match descended {
        Err(e) => Err(e),
        Ok((updated, mutations)) => finish_node(
            node,
            updated,
            mutations,
            previous,
            bindings,
            localized,
            decoders,
            selector,
            narrow,
            pick,
            finish,
            invoke,
        ),
    }
}

} // verus!
