//! Record metadata set through a callback: the record's editor ID is handed to the
//! callback bound for it, and the one set mutation that the callback gives back is
//! written into the single subrecord that holds the field.
use vstd::prelude::*;
use vstd::string::*;

use crate::apply::{candidate_slot, missing_path_is, EditState};
use crate::assignment::GrammarMatch;
use crate::changes::record_invoking_of;
use crate::context::{
    bindings_for, candidate_output, handler_error_is, is_executable, output_of, record_metadata_binding,
    CallbackBinding, HandlerOutput, SpecHandlerOutput,
};
use crate::decoded::{lists_occurrences, DecodedValues};
use crate::decoder::{CustomDecoder, DecoderRegistry};
use crate::encode::prefixes_reserved;
use crate::model::{RecordView, WritableRecord};
use crate::mutation::{missing_occurrence, missing_occurrence_is, HandlerMutation};
use crate::nested::{candidate_update, set_nested_value, update, update_of, Update};
use crate::nested_edit::{
    current_of, nested_context_of, place_occurrence, places_occurrence, reached, rewrite, rewrites, slot_view,
    NestedContext,
};
use crate::schema::SchemaNode;
use crate::text::text_eq;
use crate::tree::{containing_subrecord, find_containing_subrecord};
use crate::value::{owned_from_decoded, FieldValue, SemanticError, SpecFieldValue};

verus! {

/// The callback that sets a record's editor ID.
pub open spec fn editor_id_callback() -> Seq<char> {
    "record.set_editor_id"@
}

/// Whether `out` is a possible outcome of applying the mutations that a record metadata
/// callback gave back to state `s`: they must be one value set; the set's path must lie
/// in a subrecord node that has exactly one decoded occurrence; the write is made in that
/// occurrence's owned value ([`update`]) and, when it holds the requested match, the
/// occurrence's subrecord is located and rewritten ([`rewrites`]).
pub open spec fn sets_metadata<D: CustomDecoder>(
    ctx: NestedContext<D>,
    s: EditState,
    mutations: Seq<HandlerMutation>,
    out: Result<EditState, SemanticError>,
) -> bool {
    if mutations.len() != 1 || !(mutations[0] is SetValue) {
        out matches Err(e) && handler_error_is(e, editor_id_callback(), "record editor-ID callback must return one set mutation"@)
    } else {
        let path = mutations[0]->SetValue_path@;
        let occurrence = mutations[0]->SetValue_occurrence;
        let value = mutations[0]->SetValue_value@;
        match containing_subrecord(ctx.root, path, None) {
            None => out matches Err(e) && missing_path_is(e, path),
            Some(parent) => exists|occs: Seq<usize>|
                lists_occurrences(occs, s.decoded, parent.path@) && if occs.len() != 1 {
                    out matches Err(e) && handler_error_is(
                        e,
                        editor_id_callback(),
                        "record metadata field "@ + path + " must have exactly one containing subrecord"@,
                    )
                } else {
                    let po = occs[0];
                    exists|u: Result<Update, SemanticError>|
                        #[trigger] candidate_update(u) && update(
                            ctx.decoders,
                            ctx.localized,
                            ctx.selects,
                            ctx.narrowed,
                            parent,
                            current_of(s, parent, po),
                            path,
                            occurrence as nat,
                            Some(value),
                            u,
                        ) && match u {
                            Err(e) => out == Err::<EditState, SemanticError>(e),
                            Ok(Update::Missing(_)) => out matches Err(e) && missing_occurrence_is(e, path, occurrence as nat),
                            Ok(Update::Done(updated)) => exists|l: Result<Option<nat>, SemanticError>|
                                #[trigger] candidate_slot(l) && places_occurrence(ctx, s.record, parent.path@, po as nat, l)
                                    && match l {
                                    Err(e) => out == Err::<EditState, SemanticError>(e),
                                    Ok(None) => out matches Err(e) && missing_occurrence_is(e, parent.path@, po as nat),
                                    Ok(Some(i)) => rewrites(ctx, s, parent, po, i, updated, out),
                                },
                        }
                },
        }
    }
}

/// Applies the mutations that a record metadata callback gave back (see
/// [`sets_metadata`]). `root` is the record schema and `interpret` matches a record
/// against its grammar; the other arguments are those of
/// [`crate::encode::encode_node`]. On an error nothing changes.
pub fn apply_record_metadata_mutations<D, S, N, G>(
    root: &SchemaNode,
    record: &mut WritableRecord,
    decoded_values: &mut DecodedValues,
    mutations: Vec<HandlerMutation>,
    localized: bool,
    decoders: &DecoderRegistry<D>,
    selector: &S,
    narrow: &N,
    interpret: &G,
) -> (res: Result<(), SemanticError>)
    where
        D: CustomDecoder,
        S: Fn(&SchemaNode, usize, &Vec<u8>) -> Result<Option<i64>, SemanticError>,
        N: Fn(u64) -> u32,
        G: Fn(&WritableRecord) -> Result<GrammarMatch, SemanticError>,
    requires
        old(decoded_values).wf(),
        decoders.wf(),
        crate::apply::schema_reserved(*root),
        crate::apply::grammar_fits(*interpret),
        forall|bits: u64| narrow.requires((bits,)),
        forall|n: &SchemaNode, i: usize, p: &Vec<u8>| selector.requires((n, i, p)),
    ensures
        final(decoded_values).wf(),
        sets_metadata(
            nested_context_of(*root, decoders@, localized, *selector, *narrow, *interpret),
            EditState { record: old(record)@, decoded: old(decoded_values)@ },
            mutations@,
            reached(res, final(record)@, final(decoded_values)@),
        ),
        res is Err ==> final(record)@ == old(record)@ && final(decoded_values)@ == old(decoded_values)@,
{
    let ghost ctx = nested_context_of(*root, decoders@, localized, *selector, *narrow, *interpret);
    let ghost s = EditState { record: record@, decoded: decoded_values@ };
    let invalid = SemanticError::Handler {
        handler: String::from_str("record.set_editor_id"),
        message: String::from_str("record editor-ID callback must return one set mutation"),
    };
    if mutations.len() != 1 {
        return Err(invalid);
    }
    let (path, occurrence, value) = match &mutations[0] {
        HandlerMutation::SetValue { path, occurrence, value } => (path, *occurrence, value),
        _ => {
            return Err(invalid);
        },
    };
    let parent = match find_containing_subrecord(root, path.as_str()) {
        Some(p) => p,
        None => {
            return Err(SemanticError::MissingPath(path.clone()));
        },
    };
    assert(crate::tree::opt_node(Some(parent)) == Some(*parent));
    assert(prefixes_reserved(*parent));
    let occs = decoded_values.occurrences(parent.path.as_str());
    if occs.len() != 1 {
        let mut message = String::from_str("record metadata field ");
        message.append(path.as_str());
        message.append(" must have exactly one containing subrecord");
        return Err(SemanticError::Handler { handler: String::from_str("record.set_editor_id"), message });
    }
    let po = occs[0];
    assert(occs@.contains(po));
    let current = match decoded_values.get(parent.path.as_str(), po) {
        Some(c) => c,
        None => {
            return Err(missing_occurrence(parent.path.as_str(), po));
        },
    };
    let mut updated = owned_from_decoded(current);
    assert(updated@ == current_of(s, *parent, po));
    let mut remaining = occurrence;
    let mut replacement = Some(value.clone());
    assert(crate::nested::owned_option(replacement) == Some(value@));
    let r = set_nested_value(
        parent,
        &mut updated,
        path.as_str(),
        &mut remaining,
        &mut replacement,
        localized,
        decoders,
        selector,
        narrow,
    );
    assert(candidate_update(update_of(r, updated@, remaining)));
    match r {
        Err(e) => {
            return Err(e);
        },
        Ok(false) => {
            return Err(missing_occurrence(path.as_str(), occurrence));
        },
        Ok(true) => {},
    }
    let l = place_occurrence::<D, G>(Ghost(ctx), record, parent.path.as_str(), po, interpret);
    assert(candidate_slot(slot_view(l)));
    let i = match l {
        Err(e) => {
            return Err(e);
        },
        Ok(None) => {
            return Err(missing_occurrence(parent.path.as_str(), po));
        },
        Ok(Some(i)) => i,
    };
    rewrite(Ghost(ctx), record, decoded_values, parent, po, i, &updated, localized, decoders, selector, narrow)
}

/// Whether `out` is a possible outcome (the state reached, and whether a callback was
/// bound) of setting the record's editor ID to `editor_id` in state `s`. With no
/// `record.set_editor_id` callback bound to the record nothing changes; two or more, or
/// one that cannot be executed, are errors. The callback is given the record and the
/// editor ID as a string; it must give back mutations, which are applied
/// ([`sets_metadata`]).
pub open spec fn sets_editor_id<D: CustomDecoder>(
    ctx: NestedContext<D>,
    invokes: spec_fn(
        CallbackBinding,
        RecordView,
        Option<nat>,
        Option<SpecFieldValue>,
        Option<SpecFieldValue>,
        Result<SpecHandlerOutput, SemanticError>,
    ) -> bool,
    bindings: Seq<CallbackBinding>,
    record_path: Seq<char>,
    s: EditState,
    editor_id: Seq<char>,
    out: Result<(EditState, bool), SemanticError>,
) -> bool {
    let found = bindings_for(bindings, record_path, editor_id_callback());
    if found.len() == 0 {
        out == Ok::<(EditState, bool), SemanticError>((s, false))
    } else if found.len() >= 2 {
        out matches Err(e) && handler_error_is(
            e,
            editor_id_callback(),
            "record editor-ID callback is bound more than once"@,
        )
    } else if !is_executable(found[0].implementation) {
        out matches Err(e) && handler_error_is(e, editor_id_callback(), "record editor-ID callback is not executable"@)
    } else {
        exists|o: Result<SpecHandlerOutput, SemanticError>|
            #[trigger] candidate_output(o) && invokes(
                found[0],
                s.record,
                None,
                Some(SpecFieldValue::String(editor_id)),
                None,
                o,
            ) && match o {
                Err(e) => out == Err::<(EditState, bool), SemanticError>(e),
                Ok(SpecHandlerOutput::Mutations(ms)) => exists|r: Result<EditState, SemanticError>|
                    #[trigger] crate::editing::candidate_state_of(r) && sets_metadata(ctx, s, ms, r) && match r {
                        Err(e) => out == Err::<(EditState, bool), SemanticError>(e),
                        Ok(s2) => out == Ok::<(EditState, bool), SemanticError>((s2, true)),
                    },
                Ok(_) => out matches Err(e) && handler_error_is(
                    e,
                    editor_id_callback(),
                    "record editor-ID callback returned invalid mutations"@,
                ),
            }
    }
}

/// A state reached with a flag, or the error.
pub open spec fn flagged(res: Result<bool, SemanticError>, r: RecordView, d: Map<crate::decoded::DecodedKey, SpecFieldValue>) -> Result<(EditState, bool), SemanticError> {
    match res {
        Ok(b) => Ok((EditState { record: r, decoded: d }, b)),
        Err(e) => Err(e),
    }
}

/// Sets the record's editor ID through the `record.set_editor_id` callback bound to the
/// record at `record_path` (see [`sets_editor_id`]); returns `false`, changing nothing,
/// when no such callback is bound. `invoke` runs the callback on the record with the
/// editor ID; the other arguments are those of [`apply_record_metadata_mutations`]. On an
/// error nothing changes.
pub fn set_record_editor_id<D, S, N, G, R>(
    root: &SchemaNode,
    record_path: &str,
    record: &mut WritableRecord,
    decoded_values: &mut DecodedValues,
    bindings: &Vec<CallbackBinding>,
    editor_id: &str,
    localized: bool,
    decoders: &DecoderRegistry<D>,
    selector: &S,
    narrow: &N,
    interpret: &G,
    invoke: &R,
) -> (res: Result<bool, SemanticError>)
    where
        D: CustomDecoder,
        S: Fn(&SchemaNode, usize, &Vec<u8>) -> Result<Option<i64>, SemanticError>,
        N: Fn(u64) -> u32,
        G: Fn(&WritableRecord) -> Result<GrammarMatch, SemanticError>,
        R: Fn(&CallbackBinding, &WritableRecord, Option<usize>, Option<&FieldValue>, Option<&FieldValue>) -> Result<HandlerOutput, SemanticError>,
    requires
        old(decoded_values).wf(),
        decoders.wf(),
        crate::apply::schema_reserved(*root),
        crate::apply::grammar_fits(*interpret),
        forall|bits: u64| narrow.requires((bits,)),
        forall|n: &SchemaNode, i: usize, p: &Vec<u8>| selector.requires((n, i, p)),
        forall|b: &CallbackBinding, r: &WritableRecord, i: Option<usize>, v: Option<&FieldValue>, o: Option<&FieldValue>|
            invoke.requires((b, r, i, v, o)),
    ensures
        final(decoded_values).wf(),
        sets_editor_id(
            nested_context_of(*root, decoders@, localized, *selector, *narrow, *interpret),
            record_invoking_of(*invoke),
            bindings@,
            record_path@,
            EditState { record: old(record)@, decoded: old(decoded_values)@ },
            editor_id@,
            flagged(res, final(record)@, final(decoded_values)@),
        ),
        res is Err ==> final(record)@ == old(record)@ && final(decoded_values)@ == old(decoded_values)@,
{
    let ghost ctx = nested_context_of(*root, decoders@, localized, *selector, *narrow, *interpret);
    let ghost s = EditState { record: record@, decoded: decoded_values@ };
    let found = record_metadata_binding(bindings.as_slice(), record_path, "record.set_editor_id");
    let binding = match found {
        Ok(None) => {
            return Ok(false);
        },
        Ok(Some(b)) => b,
        Err(e) => {
            proof {
                reveal_strlit("record metadata callback is bound more than once");
                reveal_strlit("record metadata callback is not executable");
                assert("record metadata callback is bound more than once"@ != "record metadata callback is not executable"@)
                    by {
                    assert("record metadata callback is bound more than once"@.len() != "record metadata callback is not executable"@.len());
                }
            }
            let twice = match &e {
                SemanticError::Handler { message, .. } => text_eq(
                    message.as_str(),
                    "record metadata callback is bound more than once",
                ),
                _ => false,
            };
            let message = if twice {
                String::from_str("record editor-ID callback is bound more than once")
            } else {
                String::from_str("record editor-ID callback is not executable")
            };
            return Err(SemanticError::Handler { handler: String::from_str("record.set_editor_id"), message });
        },
    };
    let value = FieldValue::String(editor_id.to_owned());
    let o = invoke(binding, record, None, Some(&value), None);
    proof {
        reveal(record_invoking_of);
        let none: Option<FieldValue> = None;
        assert(crate::after_set::field_ref(none) == None::<&FieldValue>);
        assert(crate::after_set::field_ref(Some(value)) == Some(&value));
        assert(record_invoking_of(*invoke)(
            *binding,
            record@,
            None,
            Some(SpecFieldValue::String(editor_id@)),
            None,
            output_of(o),
        ));
        assert(candidate_output(output_of(o)));
    }
    match o {
        Err(e) => Err(e),
        Ok(HandlerOutput::Mutations(mutations)) => {
            let r = apply_record_metadata_mutations(
                root,
                record,
                decoded_values,
                mutations,
                localized,
                decoders,
                selector,
                narrow,
                interpret,
            );
            assert(crate::editing::candidate_state_of(reached(r, record@, decoded_values@)));
            match r {
                Err(e) => Err(e),
                Ok(()) => Ok(true),
            }
        },
        Ok(_) => Err(SemanticError::Handler {
            handler: String::from_str("record.set_editor_id"),
            message: String::from_str("record editor-ID callback returned invalid mutations"),
        }),
    }
}

} // verus!
