//! Presentation of string enumerations and resolution of record metadata callbacks.
use vstd::prelude::*;
use vstd::string::*;

use crate::external::{spec_to_uppercase, to_uppercase};
use crate::text::text_eq;
use crate::model::FormId;
use crate::mutation::HandlerMutation;
use crate::value::{texts, OwnedFieldValue, SemanticError, SpecOwnedValue, ValueFormat};

verus! {

/// How a string enumeration value is presented: text outside the allowed set is marked
/// unknown in display and summary form, sort keys are uppercased, and every other
/// form shows the value as it is.
pub open spec fn string_enumeration_text(
    allowed: Seq<Seq<char>>,
    value: Seq<char>,
    format: ValueFormat,
) -> Seq<char> {
    match format {
        ValueFormat::Display | ValueFormat::Summary => if value.len() > 0 && !allowed.contains(
            value,
        ) {
            "<Unknown: "@ + value + ">"@
        } else {
            value
        },
        ValueFormat::SortKey => spec_to_uppercase(value),
        _ => value,
    }
}

fn contains_text(allowed: &[String], value: &str) -> (res: bool)
    ensures
        res == texts(allowed@).contains(value@),
{
    let mut i: usize = 0;
    while i < allowed.len()
        invariant
            i <= allowed@.len(),
            forall|j: int| 0 <= j < i ==> (#[trigger] allowed@[j])@ != value@,
        decreases allowed.len() - i,
    {
        if text_eq(allowed[i].as_str(), value) {
            assert(texts(allowed@)[i as int] == value@);
            return true;
        }
        i += 1;
    }
    proof {
        if texts(allowed@).contains(value@) {
            let k = choose|k: int| 0 <= k < texts(allowed@).len() && texts(allowed@)[k] == value@;
            assert(allowed@[k]@ == value@);
        }
    }
    false
}

/// Formats a value of a string enumeration in the requested presentation mode.
pub fn format_string_enumeration_value(
    allowed_values: &[String],
    value: &str,
    format: ValueFormat,
) -> (res: String)
    ensures
        res@ == string_enumeration_text(texts(allowed_values@), value@, format),
{
    match format {
        ValueFormat::Display | ValueFormat::Summary => {
            if !value.is_empty() && !contains_text(allowed_values, value) {
                let mut text = String::from_str("<Unknown: ");
                text.append(value);
                text.append(">");
                text
            } else {
                value.to_owned()
            }
        },
        ValueFormat::SortKey => to_uppercase(value),
        ValueFormat::EditValue | ValueFormat::NativeValue => value.to_owned(),
    }
}

/// How a bound callback is implemented.
pub enum CallbackImplementation {
    /// A handler built into the runtime.
    BuiltIn,
    /// A handler registered by the caller.
    CustomHandler,
    /// A declaration that the runtime cannot execute.
    Unsupported,
}

/// A callback bound to a schema path.
pub struct CallbackBinding {
    /// Schema path the callback is bound to; a record's path is its signature.
    pub path: String,
    /// Identifier of the bound callback.
    pub callback_id: String,
    /// How the callback is implemented.
    pub implementation: CallbackImplementation,
}

/// What a semantic callback gave back, as the library reads it.
#[derive(Debug)]
pub enum HandlerOutput {
    /// The callback has nothing to report.
    Nothing,
    /// A value.
    Value(OwnedFieldValue),
    /// Further mutations to apply.
    Mutations(Vec<HandlerMutation>),
    /// An integer.
    Integer(i64),
    /// A yes-or-no answer.
    Boolean(bool),
    /// A text.
    Text(String),
    /// A record FormID.
    FormId(FormId),
    /// A request to sort the enclosing INFO group.
    GroupSortRequested,
    /// New payload bytes for the subrecord the callback was pointed at.
    SubrecordPayload(Vec<u8>),
    /// Any other kind of result.
    Other,
}

/// Mathematical view of a callback's output.
pub ghost enum SpecHandlerOutput {
    Nothing,
    Value(SpecOwnedValue),
    Mutations(Seq<HandlerMutation>),
    Integer(i64),
    Boolean(bool),
    Text(Seq<char>),
    FormId(FormId),
    GroupSortRequested,
    SubrecordPayload(Seq<u8>),
    Other,
}

impl View for HandlerOutput {
    type V = SpecHandlerOutput;

    open spec fn view(&self) -> SpecHandlerOutput {
        match self {
            HandlerOutput::Nothing => SpecHandlerOutput::Nothing,
            HandlerOutput::Value(v) => SpecHandlerOutput::Value(v@),
            HandlerOutput::Mutations(ms) => SpecHandlerOutput::Mutations(ms@),
            HandlerOutput::Integer(i) => SpecHandlerOutput::Integer(*i),
            HandlerOutput::Boolean(b) => SpecHandlerOutput::Boolean(*b),
            HandlerOutput::Text(t) => SpecHandlerOutput::Text(t@),
            HandlerOutput::FormId(f) => SpecHandlerOutput::FormId(*f),
            HandlerOutput::GroupSortRequested => SpecHandlerOutput::GroupSortRequested,
            HandlerOutput::SubrecordPayload(data) => SpecHandlerOutput::SubrecordPayload(data@),
            HandlerOutput::Other => SpecHandlerOutput::Other,
        }
    }
}

/// A callback output result taken by view.
pub open spec fn output_of(res: Result<HandlerOutput, SemanticError>) -> Result<SpecHandlerOutput, SemanticError> {
    match res {
        Ok(o) => Ok(o@),
        Err(e) => Err(e),
    }
}

/// Marks a candidate callback output; every one is.
pub open spec fn candidate_output(r: Result<SpecHandlerOutput, SemanticError>) -> bool {
    true
}

/// Whether a binding is for the given path and callback.
pub open spec fn binding_for(path: Seq<char>, callback_id: Seq<char>) -> spec_fn(CallbackBinding) -> bool {
    |b: CallbackBinding| b.path@ == path && b.callback_id@ == callback_id
}

/// The bindings for a path and callback, in their order.
pub open spec fn bindings_for(
    bindings: Seq<CallbackBinding>,
    path: Seq<char>,
    callback_id: Seq<char>,
) -> Seq<CallbackBinding> {
    bindings.filter(binding_for(path, callback_id))
}

/// Whether the runtime can execute a callback implementation.
pub open spec fn is_executable(implementation: CallbackImplementation) -> bool {
    implementation is BuiltIn || implementation is CustomHandler
}

/// A handler error for a callback.
pub open spec fn handler_error_is(e: SemanticError, callback_id: Seq<char>, message: Seq<char>) -> bool {
    e matches SemanticError::Handler { handler, message: m } && handler@ == callback_id && m@ == message
}

/// Finds the one executable binding of a record metadata callback for a record path.
///
/// No binding gives `None`; two or more, or one that cannot be executed, give a handler error.
pub fn record_metadata_binding<'a>(
    bindings: &'a [CallbackBinding],
    record_path: &str,
    callback_id: &str,
) -> (res: Result<Option<&'a CallbackBinding>, SemanticError>)
    ensures
        ({
            let found = bindings_for(bindings@, record_path@, callback_id@);
            &&& found.len() == 0 ==> res == Ok::<Option<&CallbackBinding>, SemanticError>(None)
            &&& found.len() >= 2 ==> (res matches Err(e) && handler_error_is(
                e,
                callback_id@,
                "record metadata callback is bound more than once"@,
            ))
            &&& found.len() == 1 && is_executable(found[0].implementation) ==> (res matches Ok(
                Some(b),
            ) && *b == found[0])
            &&& found.len() == 1 && !is_executable(found[0].implementation) ==> (res matches Err(e)
                && handler_error_is(e, callback_id@, "record metadata callback is not executable"@))
        }),
{
    let ghost pred = binding_for(record_path@, callback_id@);
    let mut first: Option<usize> = None;
    let mut i: usize = 0;
    while i < bindings.len()
        invariant
            i <= bindings@.len(),
            pred == binding_for(record_path@, callback_id@),
            first is None ==> bindings@.subrange(0, i as int).filter(pred).len() == 0,
            first matches Some(j) ==> j < i && bindings@.subrange(0, i as int).filter(pred) == seq![
                bindings@[j as int],
            ],
        decreases bindings.len() - i,
    {
        proof {
            assert(bindings@.subrange(0, i + 1) =~= bindings@.subrange(0, i as int).push(
                bindings@[i as int],
            ));
            bindings@.subrange(0, i as int).lemma_filter_push(bindings@[i as int], pred);
        }
        let b = &bindings[i];
        if text_eq(b.path.as_str(), record_path) && text_eq(b.callback_id.as_str(), callback_id) {
            if first.is_some() {
                proof {
                    let n = bindings@.len() as int;
                    assert(bindings@ =~= bindings@.subrange(0, i + 1) + bindings@.subrange(i + 1, n));
                    Seq::filter_distributes_over_add(
                        bindings@.subrange(0, i + 1),
                        bindings@.subrange(i + 1, n),
                        pred,
                    );
                }
                return Err(
                    SemanticError::Handler {
                        handler: callback_id.to_owned(),
                        message: "record metadata callback is bound more than once".to_owned(),
                    },
                );
            }
            first = Some(i);
        }
        i += 1;
    }
    proof {
        assert(bindings@.subrange(0, bindings@.len() as int) =~= bindings@);
    }
    match first {
        None => Ok(None),
        Some(j) => {
            let b = &bindings[j];
            match b.implementation {
                CallbackImplementation::BuiltIn | CallbackImplementation::CustomHandler => Ok(Some(b)),
                CallbackImplementation::Unsupported => Err(
                    SemanticError::Handler {
                        handler: callback_id.to_owned(),
                        message: "record metadata callback is not executable".to_owned(),
                    },
                ),
            }
        },
    }
}

/// The handler error reporting that a record metadata callback returned an unusable output.
pub fn invalid_record_metadata_output(binding: &CallbackBinding, message: &str) -> (res: SemanticError)
    ensures
        handler_error_is(res, binding.callback_id@, message@),
{
    SemanticError::Handler { handler: binding.callback_id.clone(), message: message.to_owned() }
}

} // verus!
