//! Callbacks that shape and choose values: after a fresh value is built for a schema
//! node, each default-value callback bound at the node may replace it, and a union whose
//! selector is a callback picks the variant of a fresh value, or of an encoded one,
//! through it.
use vstd::prelude::*;
use vstd::string::*;

use crate::context::{candidate_output, handler_error_is, output_of, CallbackBinding, HandlerOutput, SpecHandlerOutput};
use crate::convert::{candidate_value, converts, owned_to_handler_value, value_of};
use crate::decoder::{CustomDecoder, DecoderRegistry, RegisteredDecoder};
use crate::defaults::owned_result;
use crate::presentation::value_invoking_of;
use crate::encode::{narrowing_of, prefixes_reserved, selection_of};
use crate::schema::SchemaNode;
use crate::text::text_eq;
use crate::value::{FieldValue, OwnedFieldValue, SemanticError, SpecFieldValue, SpecOwnedValue};

verus! {

/// Whether `out` is a possible value, from binding `k` on, of the fresh value `value`
/// of `node`, built at array positions `indices`: each default-value callback bound at
/// the node is given the decoded form of the value so far and may replace it; a result
/// that is neither a value nor nothing is an error.
pub open spec fn default_callbacks<D: CustomDecoder>(
    decoders: Map<Seq<char>, RegisteredDecoder<D>>,
    localized: bool,
    selects: spec_fn(SchemaNode, usize, Seq<u8>, Result<Option<i64>, SemanticError>) -> bool,
    narrowed: spec_fn(u64, u32) -> bool,
    invokes: spec_fn(CallbackBinding, SpecFieldValue, Seq<usize>, Result<SpecHandlerOutput, SemanticError>) -> bool,
    bindings: Seq<CallbackBinding>,
    node: SchemaNode,
    indices: Seq<usize>,
    k: nat,
    value: SpecOwnedValue,
    out: Result<SpecOwnedValue, SemanticError>,
) -> bool
    decreases bindings.len() - k,
{
    if k >= bindings.len() {
        out == Ok::<SpecOwnedValue, SemanticError>(value)
    } else {
        let b = bindings[k as int];
        if !(b.path@ == node.path@ && b.callback_id@ == "value.set_default"@) {
            default_callbacks(decoders, localized, selects, narrowed, invokes, bindings, node, indices, k + 1, value, out)
        } else {
            exists|conv: Result<SpecFieldValue, SemanticError>|
                #[trigger] candidate_value(conv) && converts(decoders, localized, selects, narrowed, node, value, conv)
                    && match conv {
                    Err(e) => out == Err::<SpecOwnedValue, SemanticError>(e),
                    Ok(current) => exists|o: Result<SpecHandlerOutput, SemanticError>|
                        #[trigger] candidate_output(o) && invokes(b, current, indices, o) && match o {
                            Err(e) => out == Err::<SpecOwnedValue, SemanticError>(e),
                            Ok(SpecHandlerOutput::Value(v)) => default_callbacks(
                                decoders,
                                localized,
                                selects,
                                narrowed,
                                invokes,
                                bindings,
                                node,
                                indices,
                                k + 1,
                                v,
                                out,
                            ),
                            Ok(SpecHandlerOutput::Nothing) => default_callbacks(
                                decoders,
                                localized,
                                selects,
                                narrowed,
                                invokes,
                                bindings,
                                node,
                                indices,
                                k + 1,
                                value,
                                out,
                            ),
                            Ok(_) => out matches Err(e) && handler_error_is(
                                e,
                                b.callback_id@,
                                "default-value handler returned an invalid result"@,
                            ),
                        },
                }
        }
    }
}

/// The outputs that a default-value callback invoker may give for a binding, a decoded
/// value and the array positions of the node.
#[verifier::opaque]
pub open spec fn default_invoking_of<I: Fn(&CallbackBinding, &FieldValue, &Vec<usize>) -> Result<HandlerOutput, SemanticError>>(
    invoke: I,
) -> spec_fn(CallbackBinding, SpecFieldValue, Seq<usize>, Result<SpecHandlerOutput, SemanticError>) -> bool {
    |b: CallbackBinding, v: SpecFieldValue, ix: Seq<usize>, o: Result<SpecHandlerOutput, SemanticError>|
        exists|x: FieldValue, xi: Vec<usize>, res: Result<HandlerOutput, SemanticError>|
            x@ == v && xi@ == ix && output_of(res) == o && #[trigger] invoke.ensures((&b, &x, &xi), res)
}

/// Runs the default-value callbacks bound at `node` on its fresh value `fresh`, built at
/// array positions `array_indices` (see [`default_callbacks`]). `bindings` are the schema
/// package's callback bindings and `invoke` runs one bound callback; the other arguments
/// are those of [`crate::convert::owned_to_handler_value`].
pub fn apply_default_value_callbacks<D, S, N, I>(
    node: &SchemaNode,
    fresh: OwnedFieldValue,
    array_indices: &Vec<usize>,
    bindings: &Vec<CallbackBinding>,
    localized: bool,
    decoders: &DecoderRegistry<D>,
    selector: &S,
    narrow: &N,
    invoke: &I,
) -> (res: Result<OwnedFieldValue, SemanticError>)
    where
        D: CustomDecoder,
        S: Fn(&SchemaNode, usize, &Vec<u8>) -> Result<Option<i64>, SemanticError>,
        N: Fn(u64) -> u32,
        I: Fn(&CallbackBinding, &FieldValue, &Vec<usize>) -> Result<HandlerOutput, SemanticError>,
    requires
        decoders.wf(),
        prefixes_reserved(*node),
        forall|bits: u64| narrow.requires((bits,)),
        forall|n: &SchemaNode, i: usize, p: &Vec<u8>| selector.requires((n, i, p)),
        forall|b: &CallbackBinding, v: &FieldValue, ix: &Vec<usize>| invoke.requires((b, v, ix)),
    ensures
        default_callbacks(
            decoders@,
            localized,
            selection_of(*selector),
            narrowing_of(*narrow),
            default_invoking_of(*invoke),
            bindings@,
            *node,
            array_indices@,
            0,
            fresh@,
            owned_result(res),
        ),
{
    let ghost sels = selection_of(*selector);
    let ghost nars = narrowing_of(*narrow);
    let ghost invokes = default_invoking_of(*invoke);
    let ghost start = fresh@;
    let mut value = fresh;
    let mut k: usize = 0;
    while k < bindings.len()
        invariant
            decoders.wf(),
            prefixes_reserved(*node),
            forall|bits: u64| narrow.requires((bits,)),
            forall|n: &SchemaNode, i: usize, p: &Vec<u8>| selector.requires((n, i, p)),
            forall|b: &CallbackBinding, v: &FieldValue, ix: &Vec<usize>| invoke.requires((b, v, ix)),
            sels == selection_of(*selector),
            nars == narrowing_of(*narrow),
            invokes == default_invoking_of(*invoke),
            start == fresh@,
            k <= bindings@.len(),
            forall|out: Result<SpecOwnedValue, SemanticError>|
                default_callbacks(decoders@, localized, sels, nars, invokes, bindings@, *node, array_indices@, k as nat, value@, out)
                    ==> #[trigger] default_callbacks(
                    decoders@,
                    localized,
                    sels,
                    nars,
                    invokes,
                    bindings@,
                    *node,
                    array_indices@,
                    0,
                    start,
                    out,
                ),
        decreases bindings.len() - k,
    {
        let ghost here = value@;
        let b = &bindings[k];
        if text_eq(b.path.as_str(), node.path.as_str()) && text_eq(b.callback_id.as_str(), "value.set_default") {
            let conv = owned_to_handler_value(node, &value, localized, decoders, selector, narrow);
            assert(candidate_value(value_of(conv)));
            let current = match conv {
                Ok(c) => c,
                Err(e) => {
                    assert(default_callbacks(decoders@, localized, sels, nars, invokes, bindings@, *node, array_indices@, k as nat, here, Err(e)));
                    return Err(e);
                },
            };
            let r = invoke(b, &current, array_indices);
            proof {
                reveal(default_invoking_of);
                assert(invokes(*b, current@, array_indices@, output_of(r)));
                assert(candidate_output(output_of(r)));
            }
            match r {
                Err(e) => {
                    assert(default_callbacks(decoders@, localized, sels, nars, invokes, bindings@, *node, array_indices@, k as nat, here, Err(e)));
                    return Err(e);
                },
                Ok(HandlerOutput::Value(v)) => {
                    value = v;
                },
                Ok(HandlerOutput::Nothing) => {},
                Ok(_) => {
                    let e = SemanticError::Handler {
                        handler: b.callback_id.clone(),
                        message: String::from_str("default-value handler returned an invalid result"),
                    };
                    assert(default_callbacks(decoders@, localized, sels, nars, invokes, bindings@, *node, array_indices@, k as nat, here, Err(e)));
                    return Err(e);
                },
            }
        }
        proof {
            assert forall|out: Result<SpecOwnedValue, SemanticError>|
                default_callbacks(decoders@, localized, sels, nars, invokes, bindings@, *node, array_indices@, (k + 1) as nat, value@, out)
                    implies #[trigger] default_callbacks(
                    decoders@,
                    localized,
                    sels,
                    nars,
                    invokes,
                    bindings@,
                    *node,
                    array_indices@,
                    0,
                    start,
                    out,
                ) by {
                assert(default_callbacks(decoders@, localized, sels, nars, invokes, bindings@, *node, array_indices@, k as nat, here, out));
            }
        }
        k += 1;
    }
    Ok(value)
}

/// The position, from binding `k` on, of the first binding of `callback_id` at `path`.
pub open spec fn first_bound(bindings: Seq<CallbackBinding>, path: Seq<char>, callback_id: Seq<char>, k: nat) -> Option<nat>
    decreases bindings.len() - k,
{
    if k >= bindings.len() {
        None
    } else if bindings[k as int].path@ == path && bindings[k as int].callback_id@ == callback_id {
        Some(k)
    } else {
        first_bound(bindings, path, callback_id, k + 1)
    }
}

/// Whether `out` is a possible variant number that the union selector callback
/// `callback_id` of the union at `path` picks for a fresh value: the first binding of
/// the callback at the path is given empty bytes and must answer with an integer.
pub open spec fn union_callback_pick(
    invokes: spec_fn(CallbackBinding, SpecFieldValue, Result<SpecHandlerOutput, SemanticError>) -> bool,
    bindings: Seq<CallbackBinding>,
    path: Seq<char>,
    callback_id: Seq<char>,
    out: Result<i64, SemanticError>,
) -> bool {
    match first_bound(bindings, path, callback_id, 0) {
        None => out matches Err(e) && handler_error_is(
            e,
            callback_id,
            "union node "@ + path + " has no callback binding"@,
        ),
        Some(i) => exists|o: Result<SpecHandlerOutput, SemanticError>|
            #[trigger] candidate_output(o) && invokes(bindings[i as int], SpecFieldValue::Bytes(Seq::empty()), o)
                && match o {
                Err(e) => out == Err::<i64, SemanticError>(e),
                Ok(SpecHandlerOutput::Integer(x)) => out == Ok::<i64, SemanticError>(x),
                Ok(_) => out matches Err(e) && handler_error_is(
                    e,
                    callback_id,
                    "default union selector returned a non-integer result"@,
                ),
            },
    }
}

/// Picks the variant number of a fresh value of the union `node` whose selector is the
/// callback `callback_id` (see [`union_callback_pick`]). `invoke` runs the bound callback
/// on a value.
pub fn default_union_callback_pick<I>(
    node: &SchemaNode,
    callback_id: &str,
    bindings: &Vec<CallbackBinding>,
    invoke: &I,
) -> (res: Result<i64, SemanticError>)
    where
        I: Fn(&CallbackBinding, &FieldValue) -> Result<HandlerOutput, SemanticError>,
    requires
        forall|b: &CallbackBinding, v: &FieldValue| invoke.requires((b, v)),
    ensures
        union_callback_pick(value_invoking_of(*invoke), bindings@, node.path@, callback_id@, res),
{
    let ghost first = first_bound(bindings@, node.path@, callback_id@, 0);
    let mut k: usize = 0;
    while k < bindings.len()
        invariant
            k <= bindings@.len(),
            first == first_bound(bindings@, node.path@, callback_id@, 0),
            first == first_bound(bindings@, node.path@, callback_id@, k as nat),
        ensures
            k <= bindings@.len(),
            first == first_bound(bindings@, node.path@, callback_id@, k as nat),
            k < bindings@.len() ==> bindings@[k as int].path@ == node.path@ && bindings@[k as int].callback_id@
                == callback_id@,
        decreases bindings.len() - k,
    {
        let b = &bindings[k];
        if text_eq(b.path.as_str(), node.path.as_str()) && text_eq(b.callback_id.as_str(), callback_id) {
            break;
        }
        k += 1;
    }
    if k >= bindings.len() {
        let mut message = String::from_str("union node ");
        message.append(node.path.as_str());
        message.append(" has no callback binding");
        return Err(SemanticError::Handler { handler: callback_id.to_owned(), message });
    }
    let b = &bindings[k];
    assert(first == Some(k as nat));
    let empty = FieldValue::Bytes(Vec::new());
    let r = invoke(b, &empty);
    proof {
        reveal(value_invoking_of);
        assert(empty@ == SpecFieldValue::Bytes(Seq::empty()));
        assert(value_invoking_of(*invoke)(*b, empty@, output_of(r)));
        assert(candidate_output(output_of(r)));
    }
    match r {
        Err(e) => Err(e),
        Ok(HandlerOutput::Integer(selected)) => Ok(selected),
        Ok(_) => Err(SemanticError::Handler {
            handler: callback_id.to_owned(),
            message: String::from_str("default union selector returned a non-integer result"),
        }),
    }
}

/// Whether `out` is a possible selection that the union selector callback
/// `callback_id` of the union at `path` makes for a variant whose encoding is `bytes`:
/// the first binding of the callback at the path is given the bytes and must answer
/// with an integer, the number of the variant it selects.
pub open spec fn union_callback_selection(
    invokes: spec_fn(CallbackBinding, SpecFieldValue, Result<SpecHandlerOutput, SemanticError>) -> bool,
    bindings: Seq<CallbackBinding>,
    path: Seq<char>,
    callback_id: Seq<char>,
    bytes: Seq<u8>,
    out: Result<Option<i64>, SemanticError>,
) -> bool {
    match first_bound(bindings, path, callback_id, 0) {
        None => out matches Err(e) && handler_error_is(
            e,
            callback_id,
            "union node "@ + path + " has no callback binding"@,
        ),
        Some(i) => exists|o: Result<SpecHandlerOutput, SemanticError>|
            #[trigger] candidate_output(o) && invokes(bindings[i as int], SpecFieldValue::Bytes(bytes), o)
                && match o {
                Err(e) => out == Err::<Option<i64>, SemanticError>(e),
                Ok(SpecHandlerOutput::Integer(x)) => out == Ok::<Option<i64>, SemanticError>(Some(x)),
                Ok(_) => out matches Err(e) && handler_error_is(
                    e,
                    callback_id,
                    "union selector returned a non-integer result"@,
                ),
            },
    }
}

/// Asks the union selector callback `callback_id` of the union `node` which variant a
/// value encoded as `bytes` belongs to (see [`union_callback_selection`]); this is the
/// selection that encoding makes for a union whose selector is a callback. `invoke` runs
/// the bound callback on a value.
pub fn select_by_callback<I>(
    node: &SchemaNode,
    callback_id: &str,
    bytes: &Vec<u8>,
    bindings: &Vec<CallbackBinding>,
    invoke: &I,
) -> (res: Result<Option<i64>, SemanticError>)
    where
        I: Fn(&CallbackBinding, &FieldValue) -> Result<HandlerOutput, SemanticError>,
    requires
        forall|b: &CallbackBinding, v: &FieldValue| invoke.requires((b, v)),
    ensures
        union_callback_selection(value_invoking_of(*invoke), bindings@, node.path@, callback_id@, bytes@, res),
{
    let ghost first = first_bound(bindings@, node.path@, callback_id@, 0);
    let mut k: usize = 0;
    while k < bindings.len()
        invariant
            k <= bindings@.len(),
            first == first_bound(bindings@, node.path@, callback_id@, 0),
            first == first_bound(bindings@, node.path@, callback_id@, k as nat),
        ensures
            k <= bindings@.len(),
            first == first_bound(bindings@, node.path@, callback_id@, k as nat),
            k < bindings@.len() ==> bindings@[k as int].path@ == node.path@ && bindings@[k as int].callback_id@
                == callback_id@,
        decreases bindings.len() - k,
    {
        let b = &bindings[k];
        if text_eq(b.path.as_str(), node.path.as_str()) && text_eq(b.callback_id.as_str(), callback_id) {
            break;
        }
        k += 1;
    }
    if k >= bindings.len() {
        let mut message = String::from_str("union node ");
        message.append(node.path.as_str());
        message.append(" has no callback binding");
        return Err(SemanticError::Handler { handler: callback_id.to_owned(), message });
    }
    let b = &bindings[k];
    assert(first == Some(k as nat));
    let raw = FieldValue::Bytes(crate::bytes::clone_bytes(bytes));
    let r = invoke(b, &raw);
    proof {
        reveal(value_invoking_of);
        assert(raw@ == SpecFieldValue::Bytes(bytes@));
        assert(value_invoking_of(*invoke)(*b, raw@, output_of(r)));
        assert(candidate_output(output_of(r)));
    }
    match r {
        Err(e) => Err(e),
        Ok(HandlerOutput::Integer(selected)) => Ok(Some(selected)),
        Ok(_) => Err(SemanticError::Handler {
            handler: callback_id.to_owned(),
            message: String::from_str("union selector returned a non-integer result"),
        }),
    }
}

} // verus!
