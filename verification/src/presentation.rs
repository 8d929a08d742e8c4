//! How callbacks bound to schema paths shape the presentation of values: formatting a
//! value as text, parsing edited text back to a value, deciding removability and array
//! sorting, and reading record metadata.
use vstd::prelude::*;
use vstd::string::*;

use crate::context::{
    bindings_for, candidate_output, format_string_enumeration_value, handler_error_is,
    invalid_record_metadata_output, is_executable, output_of, record_metadata_binding,
    string_enumeration_text, CallbackBinding, CallbackImplementation, HandlerOutput,
    SpecHandlerOutput,
};
use crate::model::FormId;
use crate::schema::{PrimitiveType, SchemaNode, SchemaNodeKind};
use crate::text::text_eq;
use crate::tree::{find_node_by_path, node_by_path};
use crate::value::{texts, FieldValue, OwnedFieldValue, SemanticError, SpecFieldValue, SpecOwnedValue, ValueFormat};

verus! {

/// The allowed values of the string enumeration at `path`, when the node there is a
/// string with a non-empty set of allowed values.
pub open spec fn string_enumeration_of(root: SchemaNode, path: Seq<char>) -> Option<Seq<String>> {
    match node_by_path(root, path) {
        Some(node) => match node.kind {
            SchemaNodeKind::Primitive { primitive: PrimitiveType::String { string } } => if string.allowed_values@.len()
                > 0 {
                Some(string.allowed_values@)
            } else {
                None
            },
            _ => None,
        },
        None => None,
    }
}

/// The allowed values of the string enumeration at `path` (see
/// [`string_enumeration_of`]).
pub fn string_enumeration<'a>(root: &'a SchemaNode, path: &str) -> (res: Option<&'a Vec<String>>)
    ensures
        match res {
            Some(v) => string_enumeration_of(*root, path@) == Some(v@),
            None => string_enumeration_of(*root, path@) is None,
        },
{
    match find_node_by_path(root, path) {
        Some(node) => match &node.kind {
            SchemaNodeKind::Primitive { primitive: PrimitiveType::String { string } } => {
                if string.allowed_values.len() > 0 {
                    Some(&string.allowed_values)
                } else {
                    None
                }
            },
            _ => None,
        },
        None => None,
    }
}

/// Whether a callback identifier names a value presentation callback.
pub open spec fn is_presentation_callback(callback_id: Seq<char>) -> bool {
    callback_id == "def.value_transform"@ || callback_id == "integer.formatter"@ || callback_id
        == "string.formatter"@
}

fn presentation_callback(callback_id: &str) -> (res: bool)
    ensures
        res == is_presentation_callback(callback_id@),
{
    text_eq(callback_id, "def.value_transform") || text_eq(callback_id, "integer.formatter")
        || text_eq(callback_id, "string.formatter")
}

pub(crate) fn executable(implementation: &CallbackImplementation) -> (res: bool)
    ensures
        res == is_executable(*implementation),
{
    match implementation {
        CallbackImplementation::BuiltIn => true,
        CallbackImplementation::CustomHandler => true,
        CallbackImplementation::Unsupported => false,
    }
}

/// The outputs that a value callback invoker may give for a binding and a value.
#[verifier::opaque]
pub open spec fn value_invoking_of<I: Fn(&CallbackBinding, &FieldValue) -> Result<HandlerOutput, SemanticError>>(
    invoke: I,
) -> spec_fn(CallbackBinding, SpecFieldValue, Result<SpecHandlerOutput, SemanticError>) -> bool {
    |b: CallbackBinding, v: SpecFieldValue, o: Result<SpecHandlerOutput, SemanticError>|
        exists|x: FieldValue, res: Result<HandlerOutput, SemanticError>|
            x@ == v && output_of(res) == o && #[trigger] invoke.ensures((&b, &x), res)
}

/// The outputs that a record callback invoker may give for a binding.
#[verifier::opaque]
pub open spec fn binding_invoking_of<I: Fn(&CallbackBinding) -> Result<HandlerOutput, SemanticError>>(
    invoke: I,
) -> spec_fn(CallbackBinding, Result<SpecHandlerOutput, SemanticError>) -> bool {
    |b: CallbackBinding, o: Result<SpecHandlerOutput, SemanticError>|
        exists|res: Result<HandlerOutput, SemanticError>| output_of(res) == o && #[trigger] invoke.ensures((&b,), res)
}

/// The answers that a validation-binding test may give for a binding.
#[verifier::opaque]
pub open spec fn validating_of<V: Fn(&CallbackBinding) -> bool>(is_validation: V) -> spec_fn(CallbackBinding, bool) -> bool {
    |b: CallbackBinding, r: bool| is_validation.ensures((&b,), r)
}

/// Marks a candidate answer; every one is.
pub open spec fn candidate_flag(r: bool) -> bool {
    true
}

// Removability.

/// Whether `out` is a possible answer, from binding `k` on, to whether the value at
/// `path` may be removed, `acc` being the answer so far: each executable removability
/// callback bound at the path answers in turn, and the last answer counts.
pub open spec fn removability(
    invokes: spec_fn(CallbackBinding, SpecFieldValue, Result<SpecHandlerOutput, SemanticError>) -> bool,
    bindings: Seq<CallbackBinding>,
    path: Seq<char>,
    value: SpecFieldValue,
    k: nat,
    acc: bool,
    out: Result<bool, SemanticError>,
) -> bool
    decreases bindings.len() - k,
{
    if k >= bindings.len() {
        out == Ok::<bool, SemanticError>(acc)
    } else {
        let b = bindings[k as int];
        if !(b.path@ == path && b.callback_id@ == "def.is_removeable"@ && is_executable(b.implementation)) {
            removability(invokes, bindings, path, value, k + 1, acc, out)
        } else {
            exists|o: Result<SpecHandlerOutput, SemanticError>|
                #[trigger] candidate_output(o) && invokes(b, value, o) && match o {
                    Err(e) => out == Err::<bool, SemanticError>(e),
                    Ok(SpecHandlerOutput::Boolean(x)) => removability(invokes, bindings, path, value, k + 1, x, out),
                    Ok(_) => out matches Err(e) && handler_error_is(
                        e,
                        b.callback_id@,
                        "removability callback returned a non-boolean result"@,
                    ),
                }
        }
    }
}

/// Whether the value at `path` may be removed (see [`removability`]); values without a
/// removability callback are removable. `invoke` runs one bound callback on the value.
pub fn is_removable<I>(bindings: &Vec<CallbackBinding>, path: &str, value: &FieldValue, invoke: &I) -> (res: Result<
    bool,
    SemanticError,
>)
    where
        I: Fn(&CallbackBinding, &FieldValue) -> Result<HandlerOutput, SemanticError>,
    requires
        forall|b: &CallbackBinding, v: &FieldValue| invoke.requires((b, v)),
    ensures
        removability(value_invoking_of(*invoke), bindings@, path@, value@, 0, true, res),
{
    let ghost invokes = value_invoking_of(*invoke);
    let mut removable = true;
    let mut k: usize = 0;
    while k < bindings.len()
        invariant
            forall|b: &CallbackBinding, v: &FieldValue| invoke.requires((b, v)),
            invokes == value_invoking_of(*invoke),
            k <= bindings@.len(),
            forall|out: Result<bool, SemanticError>|
                removability(invokes, bindings@, path@, value@, k as nat, removable, out)
                    ==> #[trigger] removability(invokes, bindings@, path@, value@, 0, true, out),
        decreases bindings.len() - k,
    {
        let ghost here = removable;
        let b = &bindings[k];
        if text_eq(b.path.as_str(), path) && text_eq(b.callback_id.as_str(), "def.is_removeable")
            && executable(&b.implementation) {
            let r = invoke(b, value);
            proof {
                reveal(value_invoking_of);
                assert(invokes(*b, value@, output_of(r)));
                assert(candidate_output(output_of(r)));
            }
            match r {
                Err(e) => {
                    assert(removability(invokes, bindings@, path@, value@, k as nat, here, Err(e)));
                    return Err(e);
                },
                Ok(HandlerOutput::Boolean(x)) => {
                    removable = x;
                },
                Ok(_) => {
                    let e = SemanticError::Handler {
                        handler: b.callback_id.clone(),
                        message: String::from_str("removability callback returned a non-boolean result"),
                    };
                    assert(removability(invokes, bindings@, path@, value@, k as nat, here, Err(e)));
                    return Err(e);
                },
            }
        }
        proof {
            assert forall|out: Result<bool, SemanticError>|
                removability(invokes, bindings@, path@, value@, (k + 1) as nat, removable, out)
                    implies #[trigger] removability(invokes, bindings@, path@, value@, 0, true, out) by {
                assert(removability(invokes, bindings@, path@, value@, k as nat, here, out));
            }
        }
        k += 1;
    }
    Ok(removable)
}

proof fn lemma_removability_unbound(
    invokes: spec_fn(CallbackBinding, SpecFieldValue, Result<SpecHandlerOutput, SemanticError>) -> bool,
    bindings: Seq<CallbackBinding>,
    path: Seq<char>,
    value: SpecFieldValue,
    k: nat,
    acc: bool,
    out: Result<bool, SemanticError>,
)
    requires
        forall|i: int|
            k <= i < bindings.len() ==> !((#[trigger] bindings[i]).path@ == path && bindings[i].callback_id@
                == "def.is_removeable"@ && is_executable(bindings[i].implementation)),
        removability(invokes, bindings, path, value, k, acc, out),
    ensures
        out == Ok::<bool, SemanticError>(acc),
    decreases bindings.len() - k,
{
    if k < bindings.len() {
        assert(!(bindings[k as int].path@ == path && bindings[k as int].callback_id@ == "def.is_removeable"@
            && is_executable(bindings[k as int].implementation)));
        lemma_removability_unbound(invokes, bindings, path, value, k + 1, acc, out);
    }
}

/// A value with no executable removability callback bound at its path is removable,
/// whatever the callbacks bound elsewhere would say.
pub proof fn unbound_values_are_removable(
    invokes: spec_fn(CallbackBinding, SpecFieldValue, Result<SpecHandlerOutput, SemanticError>) -> bool,
    bindings: Seq<CallbackBinding>,
    path: Seq<char>,
    value: SpecFieldValue,
    out: Result<bool, SemanticError>,
)
    requires
        forall|i: int|
            0 <= i < bindings.len() ==> !((#[trigger] bindings[i]).path@ == path && bindings[i].callback_id@
                == "def.is_removeable"@ && is_executable(bindings[i].implementation)),
        removability(invokes, bindings, path, value, 0, true, out),
    ensures
        out == Ok::<bool, SemanticError>(true),
{
    lemma_removability_unbound(invokes, bindings, path, value, 0, true, out);
}

// Array sorting.

/// Whether `out` is a possible sorting decision, from binding `k` on, for the
/// subrecord array at `path`, `decision` being the one so far: the one array sorting
/// callback bound at the path decides; a second binding, or one that cannot run, is an
/// error.
pub open spec fn sorting(
    invokes: spec_fn(CallbackBinding, Result<SpecHandlerOutput, SemanticError>) -> bool,
    bindings: Seq<CallbackBinding>,
    path: Seq<char>,
    k: nat,
    decision: Option<bool>,
    out: Result<Option<bool>, SemanticError>,
) -> bool
    decreases bindings.len() - k,
{
    if k >= bindings.len() {
        out == Ok::<Option<bool>, SemanticError>(decision)
    } else {
        let b = bindings[k as int];
        if !(b.path@ == path && b.callback_id@ == "subrecord_array.is_sorted"@) {
            sorting(invokes, bindings, path, k + 1, decision, out)
        } else if decision is Some {
            out matches Err(e) && handler_error_is(e, b.callback_id@, "array sorting callback is bound more than once"@)
        } else if !is_executable(b.implementation) {
            out matches Err(e) && handler_error_is(e, b.callback_id@, "array sorting callback is not executable"@)
        } else {
            exists|o: Result<SpecHandlerOutput, SemanticError>|
                #[trigger] candidate_output(o) && invokes(b, o) && match o {
                    Err(e) => out == Err::<Option<bool>, SemanticError>(e),
                    Ok(SpecHandlerOutput::Boolean(x)) => sorting(invokes, bindings, path, k + 1, Some(x), out),
                    Ok(_) => out matches Err(e) && handler_error_is(
                        e,
                        b.callback_id@,
                        "array sorting callback returned a non-boolean result"@,
                    ),
                }
        }
    }
}

/// The dynamic sorting decision for the subrecord array at `path` (see [`sorting`]);
/// `None` when no sorting callback is bound there, and the array's schema ordering
/// applies. `invoke` runs the bound callback on the record.
pub fn array_is_sorted<I>(bindings: &Vec<CallbackBinding>, path: &str, invoke: &I) -> (res: Result<
    Option<bool>,
    SemanticError,
>)
    where
        I: Fn(&CallbackBinding) -> Result<HandlerOutput, SemanticError>,
    requires
        forall|b: &CallbackBinding| invoke.requires((b,)),
    ensures
        sorting(binding_invoking_of(*invoke), bindings@, path@, 0, None, res),
{
    let ghost invokes = binding_invoking_of(*invoke);
    let mut decision: Option<bool> = None;
    let mut k: usize = 0;
    while k < bindings.len()
        invariant
            forall|b: &CallbackBinding| invoke.requires((b,)),
            invokes == binding_invoking_of(*invoke),
            k <= bindings@.len(),
            forall|out: Result<Option<bool>, SemanticError>|
                sorting(invokes, bindings@, path@, k as nat, decision, out)
                    ==> #[trigger] sorting(invokes, bindings@, path@, 0, None, out),
        decreases bindings.len() - k,
    {
        let ghost here = decision;
        let b = &bindings[k];
        if text_eq(b.path.as_str(), path) && text_eq(b.callback_id.as_str(), "subrecord_array.is_sorted") {
            if decision.is_some() {
                let e = SemanticError::Handler {
                    handler: b.callback_id.clone(),
                    message: String::from_str("array sorting callback is bound more than once"),
                };
                assert(sorting(invokes, bindings@, path@, k as nat, here, Err(e)));
                return Err(e);
            }
            if !executable(&b.implementation) {
                let e = SemanticError::Handler {
                    handler: b.callback_id.clone(),
                    message: String::from_str("array sorting callback is not executable"),
                };
                assert(sorting(invokes, bindings@, path@, k as nat, here, Err(e)));
                return Err(e);
            }
            let r = invoke(b);
            proof {
                reveal(binding_invoking_of);
                assert(invokes(*b, output_of(r)));
                assert(candidate_output(output_of(r)));
            }
            match r {
                Err(e) => {
                    assert(sorting(invokes, bindings@, path@, k as nat, here, Err(e)));
                    return Err(e);
                },
                Ok(HandlerOutput::Boolean(x)) => {
                    decision = Some(x);
                },
                Ok(_) => {
                    let e = SemanticError::Handler {
                        handler: b.callback_id.clone(),
                        message: String::from_str("array sorting callback returned a non-boolean result"),
                    };
                    assert(sorting(invokes, bindings@, path@, k as nat, here, Err(e)));
                    return Err(e);
                },
            }
        }
        proof {
            assert forall|out: Result<Option<bool>, SemanticError>|
                sorting(invokes, bindings@, path@, (k + 1) as nat, decision, out)
                    implies #[trigger] sorting(invokes, bindings@, path@, 0, None, out) by {
                assert(sorting(invokes, bindings@, path@, k as nat, here, out));
            }
        }
        k += 1;
    }
    Ok(decision)
}

proof fn lemma_sorting_unbound(
    invokes: spec_fn(CallbackBinding, Result<SpecHandlerOutput, SemanticError>) -> bool,
    bindings: Seq<CallbackBinding>,
    path: Seq<char>,
    k: nat,
    decision: Option<bool>,
    out: Result<Option<bool>, SemanticError>,
)
    requires
        forall|i: int|
            k <= i < bindings.len() ==> !((#[trigger] bindings[i]).path@ == path && bindings[i].callback_id@
                == "subrecord_array.is_sorted"@),
        sorting(invokes, bindings, path, k, decision, out),
    ensures
        out == Ok::<Option<bool>, SemanticError>(decision),
    decreases bindings.len() - k,
{
    if k < bindings.len() {
        assert(!(bindings[k as int].path@ == path && bindings[k as int].callback_id@ == "subrecord_array.is_sorted"@));
        lemma_sorting_unbound(invokes, bindings, path, k + 1, decision, out);
    }
}

/// An array with no sorting callback bound at its path has no dynamic sorting decision,
/// so its schema ordering applies.
pub proof fn unbound_arrays_have_no_sorting_decision(
    invokes: spec_fn(CallbackBinding, Result<SpecHandlerOutput, SemanticError>) -> bool,
    bindings: Seq<CallbackBinding>,
    path: Seq<char>,
    out: Result<Option<bool>, SemanticError>,
)
    requires
        forall|i: int|
            0 <= i < bindings.len() ==> !((#[trigger] bindings[i]).path@ == path && bindings[i].callback_id@
                == "subrecord_array.is_sorted"@),
        sorting(invokes, bindings, path, 0, None, out),
    ensures
        out == Ok::<Option<bool>, SemanticError>(None),
{
    lemma_sorting_unbound(invokes, bindings, path, 0, None, out);
}

// Formatting and parsing.

/// An optional text taken by view.
pub open spec fn text_opt(o: Option<String>) -> Option<Seq<char>> {
    match o {
        Some(t) => Some(t@),
        None => None,
    }
}

/// An optional owned value taken by view.
pub open spec fn owned_opt(o: Option<OwnedFieldValue>) -> Option<SpecOwnedValue> {
    match o {
        Some(v) => Some(v@),
        None => None,
    }
}

/// The text that the string enumeration at `path` shows `value` as, when there is one
/// and the value is a string.
pub open spec fn enumeration_text(
    root: SchemaNode,
    path: Seq<char>,
    value: SpecFieldValue,
    format: ValueFormat,
) -> Option<Seq<char>> {
    match (string_enumeration_of(root, path), value) {
        (Some(allowed), SpecFieldValue::String(s)) => Some(string_enumeration_text(texts(allowed), s, format)),
        _ => None,
    }
}

/// Whether `out` is a possible text, from binding `k` on, of a value at `path` whose
/// presentation so far is `current`, formatted as `formatted`: each executable
/// presentation callback bound at the path that is not a validation binding formats the
/// presentation so far; one that gives nothing leaves it, and any result but a text is
/// an error.
pub open spec fn formatting(
    invokes: spec_fn(CallbackBinding, SpecFieldValue, Result<SpecHandlerOutput, SemanticError>) -> bool,
    validates: spec_fn(CallbackBinding, bool) -> bool,
    bindings: Seq<CallbackBinding>,
    path: Seq<char>,
    k: nat,
    current: SpecFieldValue,
    formatted: Option<Seq<char>>,
    out: Result<Option<Seq<char>>, SemanticError>,
) -> bool
    decreases bindings.len() - k,
{
    if k >= bindings.len() {
        out == Ok::<Option<Seq<char>>, SemanticError>(formatted)
    } else {
        let b = bindings[k as int];
        if b.path@ != path {
            formatting(invokes, validates, bindings, path, k + 1, current, formatted, out)
        } else {
            exists|v: bool|
                #[trigger] candidate_flag(v) && validates(b, v) && if v || !is_presentation_callback(
                    b.callback_id@,
                ) || !is_executable(b.implementation) {
                    formatting(invokes, validates, bindings, path, k + 1, current, formatted, out)
                } else {
                    exists|o: Result<SpecHandlerOutput, SemanticError>|
                        #[trigger] candidate_output(o) && invokes(b, current, o) && match o {
                            Err(e) => out == Err::<Option<Seq<char>>, SemanticError>(e),
                            Ok(SpecHandlerOutput::Nothing) => formatting(
                                invokes,
                                validates,
                                bindings,
                                path,
                                k + 1,
                                current,
                                formatted,
                                out,
                            ),
                            Ok(SpecHandlerOutput::Text(t)) => formatting(
                                invokes,
                                validates,
                                bindings,
                                path,
                                k + 1,
                                SpecFieldValue::String(t),
                                Some(t),
                                out,
                            ),
                            Ok(_) => out matches Err(e) && handler_error_is(
                                e,
                                b.callback_id@,
                                "value formatter returned a non-text result"@,
                            ),
                        }
                }
        }
    }
}

/// An optional text result taken by view.
pub open spec fn text_result(res: Result<Option<String>, SemanticError>) -> Result<Option<Seq<char>>, SemanticError> {
    match res {
        Ok(Some(t)) => Ok(Some(t@)),
        Ok(None) => Ok(None),
        Err(e) => Err(e),
    }
}

/// Formats the value at `path` in presentation mode `format` (see [`formatting`]),
/// starting from its string enumeration text when the path holds one; `None` when
/// nothing formats it. The value itself is never replaced.
///
/// `root` is the record schema, `invoke` runs one bound callback on a value, and
/// `is_validation` tells the bindings that only validate.
pub fn format_value_as<I, V>(
    root: &SchemaNode,
    bindings: &Vec<CallbackBinding>,
    path: &str,
    value: &FieldValue,
    format: ValueFormat,
    invoke: &I,
    is_validation: &V,
) -> (res: Result<Option<String>, SemanticError>)
    where
        I: Fn(&CallbackBinding, &FieldValue) -> Result<HandlerOutput, SemanticError>,
        V: Fn(&CallbackBinding) -> bool,
    requires
        forall|b: &CallbackBinding, v: &FieldValue| invoke.requires((b, v)),
        forall|b: &CallbackBinding| is_validation.requires((b,)),
    ensures
        formatting(
            value_invoking_of(*invoke),
            validating_of(*is_validation),
            bindings@,
            path@,
            0,
            match enumeration_text(*root, path@, value@, format) {
                Some(t) => SpecFieldValue::String(t),
                None => value@,
            },
            enumeration_text(*root, path@, value@, format),
            text_result(res),
        ),
{
    let ghost invokes = value_invoking_of(*invoke);
    let ghost validates = validating_of(*is_validation);
    let mut formatted: Option<String> = match (string_enumeration(root, path), value) {
        (Some(allowed), FieldValue::String(text)) => Some(
            format_string_enumeration_value(allowed.as_slice(), text.as_str(), format),
        ),
        _ => None,
    };
    let mut current: FieldValue = match &formatted {
        Some(text) => FieldValue::String(text.clone()),
        None => value.clone(),
    };
    let ghost start_current = current@;
    let ghost start_formatted = text_opt(formatted);
    assert(start_formatted == enumeration_text(*root, path@, value@, format));
    assert(start_current == match enumeration_text(*root, path@, value@, format) {
        Some(t) => SpecFieldValue::String(t),
        None => value@,
    });
    let mut k: usize = 0;
    while k < bindings.len()
        invariant
            start_formatted == enumeration_text(*root, path@, value@, format),
            start_current == match enumeration_text(*root, path@, value@, format) {
                Some(t) => SpecFieldValue::String(t),
                None => value@,
            },
            forall|b: &CallbackBinding, v: &FieldValue| invoke.requires((b, v)),
            forall|b: &CallbackBinding| is_validation.requires((b,)),
            invokes == value_invoking_of(*invoke),
            validates == validating_of(*is_validation),
            k <= bindings@.len(),
            forall|out: Result<Option<Seq<char>>, SemanticError>|
                formatting(
                    invokes,
                    validates,
                    bindings@,
                    path@,
                    k as nat,
                    current@,
                    text_opt(formatted),
                    out,
                ) ==> #[trigger] formatting(
                    invokes,
                    validates,
                    bindings@,
                    path@,
                    0,
                    start_current,
                    start_formatted,
                    out,
                ),
        decreases bindings.len() - k,
    {
        let ghost here_current = current@;
        let ghost here_formatted = text_opt(formatted);
        let b = &bindings[k];
        if text_eq(b.path.as_str(), path) {
            let validation = is_validation(b);
            proof {
                reveal(validating_of);
                assert(validates(*b, validation));
                assert(candidate_flag(validation));
            }
            if !validation && presentation_callback(b.callback_id.as_str()) && executable(&b.implementation) {
                let r = invoke(b, &current);
                proof {
                    reveal(value_invoking_of);
                    assert(invokes(*b, current@, output_of(r)));
                    assert(candidate_output(output_of(r)));
                }
                match r {
                    Err(e) => {
                        assert(formatting(invokes, validates, bindings@, path@, k as nat, here_current, here_formatted, Err(e)));
                        return Err(e);
                    },
                    Ok(HandlerOutput::Nothing) => {},
                    Ok(HandlerOutput::Text(text)) => {
                        current = FieldValue::String(text.clone());
                        formatted = Some(text);
                    },
                    Ok(_) => {
                        let e = SemanticError::Handler {
                            handler: b.callback_id.clone(),
                            message: String::from_str("value formatter returned a non-text result"),
                        };
                        assert(formatting(invokes, validates, bindings@, path@, k as nat, here_current, here_formatted, Err(e)));
                        return Err(e);
                    },
                }
            }
        }
        proof {
            assert forall|out: Result<Option<Seq<char>>, SemanticError>|
                formatting(
                    invokes,
                    validates,
                    bindings@,
                    path@,
                    (k + 1) as nat,
                    current@,
                    text_opt(formatted),
                    out,
                ) implies #[trigger] formatting(
                    invokes,
                    validates,
                    bindings@,
                    path@,
                    0,
                    start_current,
                    start_formatted,
                    out,
                ) by {
                assert(formatting(invokes, validates, bindings@, path@, k as nat, here_current, here_formatted, out));
            }
        }
        k += 1;
    }
    Ok(formatted)
}

/// Formats the value at `path` for display (see [`format_value_as`]).
pub fn format_value<I, V>(
    root: &SchemaNode,
    bindings: &Vec<CallbackBinding>,
    path: &str,
    value: &FieldValue,
    invoke: &I,
    is_validation: &V,
) -> (res: Result<Option<String>, SemanticError>)
    where
        I: Fn(&CallbackBinding, &FieldValue) -> Result<HandlerOutput, SemanticError>,
        V: Fn(&CallbackBinding) -> bool,
    requires
        forall|b: &CallbackBinding, v: &FieldValue| invoke.requires((b, v)),
        forall|b: &CallbackBinding| is_validation.requires((b,)),
    ensures
        formatting(
            value_invoking_of(*invoke),
            validating_of(*is_validation),
            bindings@,
            path@,
            0,
            match enumeration_text(*root, path@, value@, ValueFormat::Display) {
                Some(t) => SpecFieldValue::String(t),
                None => value@,
            },
            enumeration_text(*root, path@, value@, ValueFormat::Display),
            text_result(res),
        ),
{
    format_value_as(root, bindings, path, value, ValueFormat::Display, invoke, is_validation)
}

/// Whether `out` is a possible value, from binding `k` on, parsed from the edited text
/// `text` of the value at `path`, `parsed` being the value so far: each executable
/// presentation callback bound at the path that is not a validation binding parses the
/// text; one that gives nothing leaves the value, and any result but a value is an
/// error.
pub open spec fn parsing(
    invokes: spec_fn(CallbackBinding, SpecFieldValue, Result<SpecHandlerOutput, SemanticError>) -> bool,
    validates: spec_fn(CallbackBinding, bool) -> bool,
    bindings: Seq<CallbackBinding>,
    path: Seq<char>,
    text: Seq<char>,
    k: nat,
    parsed: Option<SpecOwnedValue>,
    out: Result<Option<SpecOwnedValue>, SemanticError>,
) -> bool
    decreases bindings.len() - k,
{
    if k >= bindings.len() {
        out == Ok::<Option<SpecOwnedValue>, SemanticError>(parsed)
    } else {
        let b = bindings[k as int];
        if !(b.path@ == path && is_presentation_callback(b.callback_id@)) {
            parsing(invokes, validates, bindings, path, text, k + 1, parsed, out)
        } else {
            exists|v: bool|
                #[trigger] candidate_flag(v) && validates(b, v) && if v || !is_executable(b.implementation) {
                    parsing(invokes, validates, bindings, path, text, k + 1, parsed, out)
                } else {
                    exists|o: Result<SpecHandlerOutput, SemanticError>|
                        #[trigger] candidate_output(o) && invokes(b, SpecFieldValue::String(text), o) && match o {
                            Err(e) => out == Err::<Option<SpecOwnedValue>, SemanticError>(e),
                            Ok(SpecHandlerOutput::Nothing) => parsing(
                                invokes,
                                validates,
                                bindings,
                                path,
                                text,
                                k + 1,
                                parsed,
                                out,
                            ),
                            Ok(SpecHandlerOutput::Value(x)) => parsing(
                                invokes,
                                validates,
                                bindings,
                                path,
                                text,
                                k + 1,
                                Some(x),
                                out,
                            ),
                            Ok(_) => out matches Err(e) && handler_error_is(
                                e,
                                b.callback_id@,
                                "edit parser returned a non-value result"@,
                            ),
                        }
                }
        }
    }
}

/// An optional value result taken by view.
pub open spec fn value_result(res: Result<Option<OwnedFieldValue>, SemanticError>) -> Result<
    Option<SpecOwnedValue>,
    SemanticError,
> {
    match res {
        Ok(Some(v)) => Ok(Some(v@)),
        Ok(None) => Ok(None),
        Err(e) => Err(e),
    }
}

/// Parses the edited text of the value at `path` back to a value (see [`parsing`]),
/// starting from the text itself when the path holds a string enumeration; `None` when
/// nothing parses it. The arguments are those of [`format_value_as`].
pub fn parse_edit_value<I, V>(
    root: &SchemaNode,
    bindings: &Vec<CallbackBinding>,
    path: &str,
    text: &str,
    invoke: &I,
    is_validation: &V,
) -> (res: Result<Option<OwnedFieldValue>, SemanticError>)
    where
        I: Fn(&CallbackBinding, &FieldValue) -> Result<HandlerOutput, SemanticError>,
        V: Fn(&CallbackBinding) -> bool,
    requires
        forall|b: &CallbackBinding, v: &FieldValue| invoke.requires((b, v)),
        forall|b: &CallbackBinding| is_validation.requires((b,)),
    ensures
        parsing(
            value_invoking_of(*invoke),
            validating_of(*is_validation),
            bindings@,
            path@,
            text@,
            0,
            if string_enumeration_of(*root, path@) is Some {
                Some(SpecOwnedValue::String(text@))
            } else {
                None
            },
            value_result(res),
        ),
{
    let ghost invokes = value_invoking_of(*invoke);
    let ghost validates = validating_of(*is_validation);
    let input = FieldValue::String(text.to_owned());
    let mut parsed: Option<OwnedFieldValue> = match string_enumeration(root, path) {
        Some(_) => Some(OwnedFieldValue::String(text.to_owned())),
        None => None,
    };
    let ghost start = owned_opt(parsed);
    assert(start == if string_enumeration_of(*root, path@) is Some {
        Some(SpecOwnedValue::String(text@))
    } else {
        None
    });
    let mut k: usize = 0;
    while k < bindings.len()
        invariant
            start == if string_enumeration_of(*root, path@) is Some {
                Some(SpecOwnedValue::String(text@))
            } else {
                None
            },
            forall|b: &CallbackBinding, v: &FieldValue| invoke.requires((b, v)),
            forall|b: &CallbackBinding| is_validation.requires((b,)),
            invokes == value_invoking_of(*invoke),
            validates == validating_of(*is_validation),
            input@ == SpecFieldValue::String(text@),
            k <= bindings@.len(),
            forall|out: Result<Option<SpecOwnedValue>, SemanticError>|
                parsing(
                    invokes,
                    validates,
                    bindings@,
                    path@,
                    text@,
                    k as nat,
                    owned_opt(parsed),
                    out,
                ) ==> #[trigger] parsing(invokes, validates, bindings@, path@, text@, 0, start, out),
        decreases bindings.len() - k,
    {
        let ghost here = owned_opt(parsed);
        let b = &bindings[k];
        if text_eq(b.path.as_str(), path) && presentation_callback(b.callback_id.as_str()) {
            let validation = is_validation(b);
            proof {
                reveal(validating_of);
                assert(validates(*b, validation));
                assert(candidate_flag(validation));
            }
            if !validation && executable(&b.implementation) {
                let r = invoke(b, &input);
                proof {
                    reveal(value_invoking_of);
                    assert(invokes(*b, input@, output_of(r)));
                    assert(candidate_output(output_of(r)));
                }
                match r {
                    Err(e) => {
                        assert(parsing(invokes, validates, bindings@, path@, text@, k as nat, here, Err(e)));
                        return Err(e);
                    },
                    Ok(HandlerOutput::Nothing) => {},
                    Ok(HandlerOutput::Value(v)) => {
                        parsed = Some(v);
                    },
                    Ok(_) => {
                        let e = SemanticError::Handler {
                            handler: b.callback_id.clone(),
                            message: String::from_str("edit parser returned a non-value result"),
                        };
                        assert(parsing(invokes, validates, bindings@, path@, text@, k as nat, here, Err(e)));
                        return Err(e);
                    },
                }
            }
        }
        proof {
            assert forall|out: Result<Option<SpecOwnedValue>, SemanticError>|
                parsing(
                    invokes,
                    validates,
                    bindings@,
                    path@,
                    text@,
                    (k + 1) as nat,
                    owned_opt(parsed),
                    out,
                ) implies #[trigger] parsing(invokes, validates, bindings@, path@, text@, 0, start, out) by {
                assert(parsing(invokes, validates, bindings@, path@, text@, k as nat, here, out));
            }
        }
        k += 1;
    }
    Ok(parsed)
}

// Record metadata.

/// Whether `sel` is what the record metadata lookup gives for `callback_id` at the
/// record path: no binding gives `None`, one executable binding gives it, and two or
/// more, or one that cannot run, give a handler error.
pub open spec fn metadata_binding_is(
    bindings: Seq<CallbackBinding>,
    record_path: Seq<char>,
    callback_id: Seq<char>,
    sel: Result<Option<CallbackBinding>, SemanticError>,
) -> bool {
    let found = bindings_for(bindings, record_path, callback_id);
    if found.len() == 0 {
        sel == Ok::<Option<CallbackBinding>, SemanticError>(None)
    } else if found.len() >= 2 {
        sel matches Err(e) && handler_error_is(e, callback_id, "record metadata callback is bound more than once"@)
    } else if is_executable(found[0].implementation) {
        sel == Ok::<Option<CallbackBinding>, SemanticError>(Some(found[0]))
    } else {
        sel matches Err(e) && handler_error_is(e, callback_id, "record metadata callback is not executable"@)
    }
}

/// Marks a candidate binding selection; every one is.
pub open spec fn candidate_selection(sel: Result<Option<CallbackBinding>, SemanticError>) -> bool {
    true
}

/// A binding selection taken by value.
pub open spec fn selection_view(sel: Result<Option<&CallbackBinding>, SemanticError>) -> Result<
    Option<CallbackBinding>,
    SemanticError,
> {
    match sel {
        Ok(Some(b)) => Ok(Some(*b)),
        Ok(None) => Ok(None),
        Err(e) => Err(e),
    }
}

/// Whether `out` is a possible text that the record metadata callback `callback_id`
/// gives: `None` without a binding; a text result is the answer, and any other result is
/// the handler error `message`.
pub open spec fn metadata_text(
    invokes: spec_fn(CallbackBinding, Result<SpecHandlerOutput, SemanticError>) -> bool,
    bindings: Seq<CallbackBinding>,
    record_path: Seq<char>,
    callback_id: Seq<char>,
    message: Seq<char>,
    out: Result<Option<Seq<char>>, SemanticError>,
) -> bool {
    exists|sel: Result<Option<CallbackBinding>, SemanticError>|
        #[trigger] candidate_selection(sel) && metadata_binding_is(bindings, record_path, callback_id, sel)
            && match sel {
            Err(e) => out == Err::<Option<Seq<char>>, SemanticError>(e),
            Ok(None) => out == Ok::<Option<Seq<char>>, SemanticError>(None),
            Ok(Some(b)) => exists|o: Result<SpecHandlerOutput, SemanticError>|
                #[trigger] candidate_output(o) && invokes(b, o) && match o {
                    Err(e) => out == Err::<Option<Seq<char>>, SemanticError>(e),
                    Ok(SpecHandlerOutput::Text(t)) => out == Ok::<Option<Seq<char>>, SemanticError>(Some(t)),
                    Ok(_) => out matches Err(e) && handler_error_is(e, b.callback_id@, message),
                },
        }
}

/// Runs the record metadata callback `callback_id` for a text (see [`metadata_text`]).
fn metadata_text_of<I>(
    bindings: &Vec<CallbackBinding>,
    record_path: &str,
    callback_id: &str,
    message: &str,
    invoke: &I,
) -> (res: Result<Option<String>, SemanticError>)
    where
        I: Fn(&CallbackBinding) -> Result<HandlerOutput, SemanticError>,
    requires
        forall|b: &CallbackBinding| invoke.requires((b,)),
    ensures
        metadata_text(binding_invoking_of(*invoke), bindings@, record_path@, callback_id@, message@, text_result(res)),
{
    let sel = record_metadata_binding(bindings.as_slice(), record_path, callback_id);
    assert(candidate_selection(selection_view(sel)));
    let binding = match sel {
        Err(e) => {
            return Err(e);
        },
        Ok(None) => {
            return Ok(None);
        },
        Ok(Some(b)) => b,
    };
    let r = invoke(binding);
    proof {
        reveal(binding_invoking_of);
        assert(binding_invoking_of(*invoke)(*binding, output_of(r)));
        assert(candidate_output(output_of(r)));
    }
    match r {
        Err(e) => Err(e),
        Ok(HandlerOutput::Text(text)) => Ok(Some(text)),
        Ok(_) => Err(invalid_record_metadata_output(binding, message)),
    }
}

/// The identity text of the record at `record_path` from its `record.identity`
/// callback (see [`metadata_text`]); `None` when the record has none. `invoke` runs the
/// bound callback on the record.
pub fn record_identity<I>(bindings: &Vec<CallbackBinding>, record_path: &str, invoke: &I) -> (res: Result<
    Option<String>,
    SemanticError,
>)
    where
        I: Fn(&CallbackBinding) -> Result<HandlerOutput, SemanticError>,
    requires
        forall|b: &CallbackBinding| invoke.requires((b,)),
    ensures
        metadata_text(
            binding_invoking_of(*invoke),
            bindings@,
            record_path@,
            "record.identity"@,
            "identity callback returned a non-text result"@,
            text_result(res),
        ),
{
    metadata_text_of(bindings, record_path, "record.identity", "identity callback returned a non-text result", invoke)
}

/// The editor ID of the record at `record_path` from its `record.get_editor_id`
/// callback (see [`metadata_text`]); `None` when the record has none. `invoke` runs the
/// bound callback on the record.
pub fn record_editor_id<I>(bindings: &Vec<CallbackBinding>, record_path: &str, invoke: &I) -> (res: Result<
    Option<String>,
    SemanticError,
>)
    where
        I: Fn(&CallbackBinding) -> Result<HandlerOutput, SemanticError>,
    requires
        forall|b: &CallbackBinding| invoke.requires((b,)),
    ensures
        metadata_text(
            binding_invoking_of(*invoke),
            bindings@,
            record_path@,
            "record.get_editor_id"@,
            "editor-ID callback returned a non-text result"@,
            text_result(res),
        ),
{
    metadata_text_of(bindings, record_path, "record.get_editor_id", "editor-ID callback returned a non-text result", invoke)
}

/// Whether `out` is a possible FormID that the `record.form_id` callback gives: `None`
/// without a binding or when the callback gives nothing; any result but a FormID is a
/// handler error.
pub open spec fn metadata_form_id(
    invokes: spec_fn(CallbackBinding, Result<SpecHandlerOutput, SemanticError>) -> bool,
    bindings: Seq<CallbackBinding>,
    record_path: Seq<char>,
    out: Result<Option<FormId>, SemanticError>,
) -> bool {
    exists|sel: Result<Option<CallbackBinding>, SemanticError>|
        #[trigger] candidate_selection(sel) && metadata_binding_is(bindings, record_path, "record.form_id"@, sel)
            && match sel {
            Err(e) => out == Err::<Option<FormId>, SemanticError>(e),
            Ok(None) => out == Ok::<Option<FormId>, SemanticError>(None),
            Ok(Some(b)) => exists|o: Result<SpecHandlerOutput, SemanticError>|
                #[trigger] candidate_output(o) && invokes(b, o) && match o {
                    Err(e) => out == Err::<Option<FormId>, SemanticError>(e),
                    Ok(SpecHandlerOutput::FormId(f)) => out == Ok::<Option<FormId>, SemanticError>(Some(f)),
                    Ok(SpecHandlerOutput::Nothing) => out == Ok::<Option<FormId>, SemanticError>(None),
                    Ok(_) => out matches Err(e) && handler_error_is(
                        e,
                        b.callback_id@,
                        "FormID callback returned a non-FormID result"@,
                    ),
                },
        }
}

/// The FormID of the record at `record_path` from its `record.form_id` callback (see
/// [`metadata_form_id`]). `invoke` runs the bound callback on the record.
pub fn record_form_id<I>(bindings: &Vec<CallbackBinding>, record_path: &str, invoke: &I) -> (res: Result<
    Option<FormId>,
    SemanticError,
>)
    where
        I: Fn(&CallbackBinding) -> Result<HandlerOutput, SemanticError>,
    requires
        forall|b: &CallbackBinding| invoke.requires((b,)),
    ensures
        metadata_form_id(binding_invoking_of(*invoke), bindings@, record_path@, res),
{
    let sel = record_metadata_binding(bindings.as_slice(), record_path, "record.form_id");
    assert(candidate_selection(selection_view(sel)));
    let binding = match sel {
        Err(e) => {
            return Err(e);
        },
        Ok(None) => {
            return Ok(None);
        },
        Ok(Some(b)) => b,
    };
    let r = invoke(binding);
    proof {
        reveal(binding_invoking_of);
        assert(binding_invoking_of(*invoke)(*binding, output_of(r)));
        assert(candidate_output(output_of(r)));
    }
    match r {
        Err(e) => Err(e),
        Ok(HandlerOutput::FormId(form_id)) => Ok(Some(form_id)),
        Ok(HandlerOutput::Nothing) => Ok(None),
        Ok(_) => Err(invalid_record_metadata_output(binding, "FormID callback returned a non-FormID result")),
    }
}

} // verus!
