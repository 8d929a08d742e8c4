//! Record-level handler mutations: the changes that semantic handlers ask for, applied
//! to a writable record and to the decoded values kept beside it.
use vstd::prelude::*;
use vstd::string::*;

use crate::address::RepeatScope;
use crate::assignment::{
    all_indices, assigned_count, assigned_occurrence_count, assigned_subrecord_index, assigned_to, container_removals,
    insertion_scan, lemma_count_monotone, lemma_count_step, position_in, position_of,
    remove_container_assignments, schema_insertion_index, without_indices, without_occurrences,
    GrammarMatch,
};
use crate::container::{remove_container_occurrence, removes_occurrence};
use crate::nested_edit::{
    apply_nested_set, apply_nested_set_if_equal, sets_nested, sets_nested_if_equal, NestedContext,
};
use crate::context::handler_error_is;
use crate::text::text_eq;
use crate::convert::candidate_value;
use crate::decoded::{
    insert_decoded_occurrence, inserted_occurrence, remove_decoded_occurrence, removed_occurrence,
    DecodedKey, DecodedValues,
};
use crate::decoder::{CustomDecoder, DecoderRegistry, RegisteredDecoder};
use crate::editor::{encode_error, encode_error_is};
use crate::encode::{
    bytes_of, candidate, encode_node, encodes, narrowing_of, prefixes_reserved, selection_of,
};
use crate::convert::{converts, owned_to_handler_value, value_of};
use crate::defaults::{
    candidate_default, default_value_for_node, defaults, finishing_of, owned_result, picking_of,
};
use crate::model::{RecordView, Signature, SubRecordView, WritableRecord, WritableSubRecord};
use crate::mutation::{missing_occurrence, missing_occurrence_is, HandlerMutation};
use crate::schema::{SchemaNode, SchemaNodeKind};
use crate::tree::{containing_subrecord, find_node_by_path, node_by_path, subrecords_of, top_level_subrecords};
use crate::value::{OwnedFieldValue, SemanticError, SpecFieldValue, SpecOwnedValue};

verus! {

/// A record together with the decoded values kept for its fields.
pub ghost struct EditState {
    pub record: RecordView,
    pub decoded: Map<DecodedKey, SpecFieldValue>,
}

/// What record-level mutations run with: the record schema, the text that names the
/// record, the encoding context, the union picks and callbacks of fresh values, the
/// grammar matches of records, and the outcomes of the mutations that other editor
/// operations carry out.
pub ghost struct MutationContext<D: CustomDecoder> {
    pub root: SchemaNode,
    pub record_path: Seq<char>,
    pub decoders: Map<Seq<char>, RegisteredDecoder<D>>,
    pub localized: bool,
    pub selects: spec_fn(SchemaNode, usize, Seq<u8>, Result<Option<i64>, SemanticError>) -> bool,
    pub narrowed: spec_fn(u64, u32) -> bool,
    pub picks: spec_fn(SchemaNode, Result<i64, SemanticError>) -> bool,
    pub finishes: spec_fn(SchemaNode, SpecOwnedValue, Seq<usize>, Result<SpecOwnedValue, SemanticError>) -> bool,
    pub interprets: spec_fn(RecordView, Result<GrammarMatch, SemanticError>) -> bool,
}

/// Marks a candidate grammar match; every one is.
pub open spec fn candidate_grammar(g: Result<GrammarMatch, SemanticError>) -> bool {
    true
}

/// Marks a candidate subrecord index; every one is.
pub open spec fn candidate_index(r: Result<int, SemanticError>) -> bool {
    true
}

/// Marks a candidate lookup of an assigned subrecord; every one is.
pub open spec fn candidate_slot(r: Result<Option<nat>, SemanticError>) -> bool {
    true
}

/// Marks a candidate encoding of a subrecord value; every one is.
pub open spec fn candidate_payload(r: Result<(Signature, Seq<u8>), SemanticError>) -> bool {
    true
}

/// Marks a candidate state; every one is.
pub open spec fn candidate_state(r: Result<EditState, SemanticError>) -> bool {
    true
}

/// Whether `e` reports that no schema node has the path `path`.
pub open spec fn missing_path_is(e: SemanticError, path: Seq<char>) -> bool {
    e matches SemanticError::MissingPath(p) && p@ == path
}

/// Whether subrecord `i` is the one assigned as occurrence `occurrence` of `path`.
pub open spec fn nth_assigned(g: GrammarMatch, path: Seq<char>, occurrence: nat, i: nat) -> bool {
    &&& i < g.assignments@.len()
    &&& assigned_to(g.assignments@[i as int], path)
    &&& assigned_count(g.assignments@.take(i as int), path) == occurrence
}

/// The subrecord assigned as occurrence `occurrence` of `path`, when there is one.
pub open spec fn assigned_index(g: GrammarMatch, path: Seq<char>, occurrence: nat) -> Option<nat> {
    if occurrence < assigned_count(g.assignments@, path) {
        Some(choose|i: nat| nth_assigned(g, path, occurrence, i))
    } else {
        None
    }
}

/// The record with new header flags.
pub open spec fn with_flags(r: RecordView, flags: u32) -> RecordView {
    RecordView { flags, ..r }
}

/// The record with new payload bytes for subrecord `i`.
pub open spec fn with_data(r: RecordView, i: nat, data: Seq<u8>) -> RecordView {
    RecordView {
        subrecords: r.subrecords.update(
            i as int,
            SubRecordView { signature: r.subrecords[i as int].signature, data },
        ),
        ..r
    }
}

/// The record without subrecord `i`.
pub open spec fn without_subrecord(r: RecordView, i: nat) -> RecordView {
    RecordView { subrecords: r.subrecords.remove(i as int), ..r }
}

/// The record with a subrecord inserted at position `i`.
pub open spec fn with_subrecord(r: RecordView, i: int, s: SubRecordView) -> RecordView {
    RecordView { subrecords: r.subrecords.insert(i, s), ..r }
}

/// Where the subrecord of occurrence `occurrence` of `path` is, by the grammar match `g`
/// of the record: `None` when the grammar has no such occurrence.
pub open spec fn located(
    g: Result<GrammarMatch, SemanticError>,
    path: Seq<char>,
    occurrence: nat,
) -> Result<Option<nat>, SemanticError> {
    match g {
        Err(e) => Err(e),
        Ok(gm) => Ok(assigned_index(gm, path, occurrence)),
    }
}

/// Whether `out` is a possible place for the subrecord of occurrence `occurrence` of
/// `path` in record `r`, or the error met on the way.
pub open spec fn locates<D: CustomDecoder>(
    ctx: MutationContext<D>,
    r: RecordView,
    path: Seq<char>,
    occurrence: nat,
    out: Result<Option<nat>, SemanticError>,
) -> bool {
    exists|g: Result<GrammarMatch, SemanticError>|
        #[trigger] candidate_grammar(g) && (ctx.interprets)(r, g) && out == located(g, path, occurrence)
}

/// The existing subrecord of an occurrence, where a missing occurrence reported by the
/// grammar step counts as none.
pub open spec fn existing(l: Result<Option<nat>, SemanticError>) -> Result<Option<nat>, SemanticError> {
    match l {
        Err(SemanticError::MissingOccurrence { .. }) => Ok(None),
        _ => l,
    }
}

/// Whether `out` is a possible index at which a new subrecord for the subrecord node
/// `node` goes in record `r`: after the subrecords already assigned to it, or before the
/// first one of a later node in schema order, or at the end.
pub open spec fn places<D: CustomDecoder>(
    ctx: MutationContext<D>,
    r: RecordView,
    node: SchemaNode,
    out: Result<int, SemanticError>,
) -> bool {
    match position_of(subrecords_of(ctx.root), node.id) {
        None => out matches Err(e) && missing_path_is(e, node.path@),
        Some(t) => exists|g: Result<GrammarMatch, SemanticError>|
            #[trigger] candidate_grammar(g) && (ctx.interprets)(r, g) && match g {
                Err(e) => out == Err::<int, SemanticError>(e),
                Ok(gm) => out == Ok::<int, SemanticError>(
                    insertion_scan(
                        gm.assignments@,
                        subrecords_of(ctx.root),
                        node.path@,
                        t,
                        all_indices(gm.assignments@.len()),
                        0,
                        None,
                        r.subrecords.len() as int,
                    ),
                ),
            },
    }
}

/// Whether `out` is a possible encoding of `value` as the payload of the subrecord node
/// at `path`, with that node's signature.
pub open spec fn encodes_path<D: CustomDecoder>(
    ctx: MutationContext<D>,
    path: Seq<char>,
    value: SpecOwnedValue,
    out: Result<(Signature, Seq<u8>), SemanticError>,
) -> bool {
    match node_by_path(ctx.root, path) {
        None => out matches Err(e) && missing_path_is(e, path),
        Some(node) => match node.kind {
            SchemaNodeKind::Subrecord { signature, payload } => exists|
                enc: Result<Seq<u8>, SemanticError>,
            |
                #[trigger] candidate(enc) && encodes(
                    ctx.decoders,
                    ctx.localized,
                    ctx.selects,
                    ctx.narrowed,
                    *payload,
                    value,
                    enc,
                ) && out == match enc {
                    Ok(b) => Ok((signature, b)),
                    Err(e) => Err::<(Signature, Seq<u8>), SemanticError>(e),
                },
            _ => out matches Err(e) && encode_error_is(
                e,
                path,
                "handler mutation path is not a subrecord"@,
            ),
        },
    }
}

/// Whether `out` is a possible state after storing `value`, converted with `payload`,
/// as the decoded value of occurrence `occurrence` of `path` in state `s`.
pub open spec fn stores_decoded<D: CustomDecoder>(
    ctx: MutationContext<D>,
    s: EditState,
    payload: SchemaNode,
    value: SpecOwnedValue,
    path: Seq<char>,
    occurrence: usize,
    out: Result<EditState, SemanticError>,
) -> bool {
    exists|conv: Result<SpecFieldValue, SemanticError>|
        #[trigger] candidate_value(conv) && converts(
            ctx.decoders,
            ctx.localized,
            ctx.selects,
            ctx.narrowed,
            payload,
            value,
            conv,
        ) && match conv {
            Err(e) => out == Err::<EditState, SemanticError>(e),
            Ok(fv) => out == Ok::<EditState, SemanticError>(
                EditState { decoded: s.decoded.insert((path, occurrence), fv), ..s },
            ),
        }
}

/// Whether `e` is the handler error of a raw mutation that came after the record was
/// decoded.
pub open spec fn too_late(e: SemanticError, message: Seq<char>) -> bool {
    handler_error_is(e, "def.after_load"@, message)
}

/// Whether a subrecord has a signature other than `signature`.
pub open spec fn other_signature(signature: Signature) -> spec_fn(SubRecordView) -> bool {
    |sub: SubRecordView| sub.signature != signature
}

/// The first subrecord with a signature, if any.
pub open spec fn first_with_signature(subrecords: Seq<SubRecordView>, signature: Signature) -> Option<nat>
    decreases subrecords.len(),
{
    if subrecords.len() == 0 {
        None
    } else if subrecords[0].signature == signature {
        Some(0)
    } else {
        match first_with_signature(subrecords.drop_first(), signature) {
            Some(i) => Some(i + 1),
            None => None,
        }
    }
}

/// Whether `out` is a possible outcome of writing the encoded `value` into the subrecord
/// of occurrence `occurrence` of the subrecord node at `path`, which has `signature`
/// and `payload`, and storing its decoded value.
pub open spec fn writes_subrecord<D: CustomDecoder>(
    ctx: MutationContext<D>,
    s: EditState,
    path: Seq<char>,
    occurrence: usize,
    signature: Signature,
    payload: SchemaNode,
    value: SpecOwnedValue,
    out: Result<EditState, SemanticError>,
) -> bool {
    exists|l: Result<Option<nat>, SemanticError>|
        #[trigger] candidate_slot(l) && locates(ctx, s.record, path, occurrence as nat, l) && match l {
            Err(e) => out == Err::<EditState, SemanticError>(e),
            Ok(None) => out matches Err(e) && missing_occurrence_is(e, path, occurrence as nat),
            Ok(Some(i)) => exists|enc: Result<Seq<u8>, SemanticError>|
                #[trigger] candidate(enc) && encodes(
                    ctx.decoders,
                    ctx.localized,
                    ctx.selects,
                    ctx.narrowed,
                    payload,
                    value,
                    enc,
                ) && match enc {
                    Err(e) => out == Err::<EditState, SemanticError>(e),
                    Ok(b) => if i >= s.record.subrecords.len() || s.record.subrecords[i as int].signature
                        != signature {
                        out matches Err(e) && encode_error_is(
                            e,
                            path,
                            "assigned subrecord signature does not match schema"@,
                        )
                    } else {
                        stores_decoded(
                            ctx,
                            EditState { record: with_data(s.record, i, b), ..s },
                            payload,
                            value,
                            path,
                            occurrence,
                            out,
                        )
                    },
                },
        }
}

/// Whether `out` is a possible outcome of inserting a subrecord for `value` at the
/// subrecord node at `path`, as the next occurrence of that path, and storing its
/// decoded value.
pub open spec fn inserts_value<D: CustomDecoder>(
    ctx: MutationContext<D>,
    s: EditState,
    path: Seq<char>,
    value: SpecOwnedValue,
    out: Result<EditState, SemanticError>,
) -> bool {
    exists|p: Result<(Signature, Seq<u8>), SemanticError>|
        #[trigger] candidate_payload(p) && encodes_path(ctx, path, value, p) && match p {
            Err(e) => out == Err::<EditState, SemanticError>(e),
            Ok((signature, b)) => match node_by_path(ctx.root, path) {
                Some(node) => match node.kind {
                    SchemaNodeKind::Subrecord { payload, .. } => exists|
                        g: Result<GrammarMatch, SemanticError>,
                    |
                        #[trigger] candidate_grammar(g) && (ctx.interprets)(s.record, g) && match g {
                            Err(e) => out == Err::<EditState, SemanticError>(e),
                            Ok(gm) => exists|ix: Result<int, SemanticError>|
                                #[trigger] candidate_index(ix) && places(ctx, s.record, node, ix)
                                    && match ix {
                                    Err(e) => out == Err::<EditState, SemanticError>(e),
                                    Ok(i) => stores_decoded(
                                        ctx,
                                        EditState {
                                            record: with_subrecord(
                                                s.record,
                                                i,
                                                SubRecordView { signature, data: b },
                                            ),
                                            ..s
                                        },
                                        *payload,
                                        value,
                                        path,
                                        assigned_count(gm.assignments@, path) as usize,
                                        out,
                                    ),
                                },
                        },
                    _ => false,
                },
                None => false,
            },
        }
}

/// Whether `out` is a possible outcome of removing every occurrence of the subrecord
/// node at `path`, which has `signature`, one first occurrence at a time.
pub open spec fn removes_all<D: CustomDecoder>(
    ctx: MutationContext<D>,
    s: EditState,
    path: Seq<char>,
    signature: Signature,
    out: Result<EditState, SemanticError>,
) -> bool
    decreases s.record.subrecords.len(),
{
    exists|l: Result<Option<nat>, SemanticError>|
        #[trigger] candidate_slot(l) && locates(ctx, s.record, path, 0, l) && match l {
            Err(SemanticError::MissingOccurrence { .. }) => out == Ok::<EditState, SemanticError>(s),
            Err(e) => out == Err::<EditState, SemanticError>(e),
            Ok(None) => out == Ok::<EditState, SemanticError>(s),
            Ok(Some(i)) => if i >= s.record.subrecords.len() || s.record.subrecords[i as int].signature
                != signature {
                out matches Err(e) && encode_error_is(
                    e,
                    path,
                    "assigned subrecord signature does not match schema"@,
                )
            } else {
                removes_all(
                    ctx,
                    EditState {
                        record: without_subrecord(s.record, i),
                        decoded: removed_occurrence(s.decoded, path, 0),
                    },
                    path,
                    signature,
                    out,
                )
            },
        }
}

/// Whether `out` is a possible outcome of keeping occurrence `occurrence` of the counter
/// subrecord node at `path`, with `signature` and `payload`, equal to `count`: at zero
/// with `remove_when_zero` the subrecord goes, otherwise it is rewritten or inserted.
pub open spec fn synchronizes_count<D: CustomDecoder>(
    ctx: MutationContext<D>,
    s: EditState,
    path: Seq<char>,
    occurrence: usize,
    count: u64,
    remove_when_zero: bool,
    node: SchemaNode,
    signature: Signature,
    payload: SchemaNode,
    out: Result<EditState, SemanticError>,
) -> bool {
    exists|l: Result<Option<nat>, SemanticError>|
        #[trigger] candidate_slot(l) && locates(ctx, s.record, path, occurrence as nat, l) && match existing(l) {
            Err(e) => out == Err::<EditState, SemanticError>(e),
            Ok(found) => if count == 0 && remove_when_zero {
                match found {
                    Some(i) => i < s.record.subrecords.len() && out == Ok::<EditState, SemanticError>(
                        EditState {
                            record: without_subrecord(s.record, i),
                            decoded: removed_occurrence(s.decoded, path, occurrence),
                        },
                    ),
                    None => out == Ok::<EditState, SemanticError>(s),
                }
            } else {
                exists|p: Result<(Signature, Seq<u8>), SemanticError>|
                    #[trigger] candidate_payload(p) && encodes_path(ctx, path, SpecOwnedValue::UInt(count), p)
                        && match p {
                        Err(e) => out == Err::<EditState, SemanticError>(e),
                        Ok((sig, b)) => match found {
                            Some(i) => if i >= s.record.subrecords.len()
                                || s.record.subrecords[i as int].signature != sig {
                                out matches Err(e) && encode_error_is(
                                    e,
                                    path,
                                    "assigned counter signature does not match schema"@,
                                )
                            } else {
                                stores_decoded(
                                    ctx,
                                    EditState { record: with_data(s.record, i, b), ..s },
                                    payload,
                                    SpecOwnedValue::UInt(count),
                                    path,
                                    occurrence,
                                    out,
                                )
                            },
                            None => exists|ix: Result<int, SemanticError>|
                                #[trigger] candidate_index(ix) && places(ctx, s.record, node, ix) && match ix {
                                    Err(e) => out == Err::<EditState, SemanticError>(e),
                                    Ok(i) => stores_decoded(
                                        ctx,
                                        EditState {
                                            record: with_subrecord(
                                                s.record,
                                                i,
                                                SubRecordView { signature: sig, data: b },
                                            ),
                                            ..s
                                        },
                                        payload,
                                        SpecOwnedValue::UInt(count),
                                        path,
                                        occurrence,
                                        out,
                                    ),
                                },
                        },
                    }
            },
        }
}

/// Whether `out` is a possible outcome of keeping occurrence `occurrence` of the
/// subrecord at `path` present (inserted with `value` when missing) or absent (removed
/// when there).
pub open spec fn synchronizes_presence<D: CustomDecoder>(
    ctx: MutationContext<D>,
    s: EditState,
    path: Seq<char>,
    occurrence: usize,
    present: bool,
    value: SpecOwnedValue,
    out: Result<EditState, SemanticError>,
) -> bool {
    exists|l: Result<Option<nat>, SemanticError>|
        #[trigger] candidate_slot(l) && locates(ctx, s.record, path, occurrence as nat, l) && match existing(l) {
            Err(e) => out == Err::<EditState, SemanticError>(e),
            Ok(Some(i)) => if present {
                out == Ok::<EditState, SemanticError>(s)
            } else {
                i < s.record.subrecords.len() && out == Ok::<EditState, SemanticError>(
                    EditState {
                        record: without_subrecord(s.record, i),
                        decoded: removed_occurrence(s.decoded, path, occurrence),
                    },
                )
            },
            Ok(None) => if !present {
                out == Ok::<EditState, SemanticError>(s)
            } else {
                exists|p: Result<(Signature, Seq<u8>), SemanticError>|
                    #[trigger] candidate_payload(p) && encodes_path(ctx, path, value, p) && match p {
                        Err(e) => out == Err::<EditState, SemanticError>(e),
                        Ok((sig, b)) => match node_by_path(ctx.root, path) {
                            Some(node) => match node.kind {
                                SchemaNodeKind::Subrecord { payload, .. } => exists|
                                    ix: Result<int, SemanticError>,
                                |
                                    #[trigger] candidate_index(ix) && places(ctx, s.record, node, ix)
                                        && match ix {
                                        Err(e) => out == Err::<EditState, SemanticError>(e),
                                        Ok(i) => stores_decoded(
                                            ctx,
                                            EditState {
                                                record: with_subrecord(
                                                    s.record,
                                                    i,
                                                    SubRecordView { signature: sig, data: b },
                                                ),
                                                ..s
                                            },
                                            *payload,
                                            value,
                                            path,
                                            occurrence,
                                            out,
                                        ),
                                    },
                                _ => false,
                            },
                            None => false,
                        },
                    }
            },
        }
}

/// Whether `out` is a possible outcome of inserting a fresh value (see [`defaults`]) for
/// the subrecord node at `path`, as the next occurrence of that path, with its decoded
/// value stored at that occurrence and the later ones moved up.
pub open spec fn inserts_default<D: CustomDecoder>(
    ctx: MutationContext<D>,
    s: EditState,
    path: Seq<char>,
    out: Result<EditState, SemanticError>,
) -> bool {
    match node_by_path(ctx.root, path) {
        None => out matches Err(e) && missing_path_is(e, path),
        Some(node) => match node.kind {
            SchemaNodeKind::Subrecord { signature, payload } => exists|ix: Result<int, SemanticError>|
                #[trigger] candidate_index(ix) && places(ctx, s.record, node, ix) && match ix {
                    Err(e) => out == Err::<EditState, SemanticError>(e),
                    Ok(i) => exists|v: Result<SpecOwnedValue, SemanticError>|
                        #[trigger] candidate_default(v) && defaults(
                            ctx.localized,
                            ctx.picks,
                            ctx.finishes,
                            *payload,
                            0,
                            Seq::empty(),
                            v,
                        ) && match v {
                            Err(e) => out == Err::<EditState, SemanticError>(e),
                            Ok(value) => exists|enc: Result<Seq<u8>, SemanticError>|
                                #[trigger] candidate(enc) && encodes(
                                    ctx.decoders,
                                    ctx.localized,
                                    ctx.selects,
                                    ctx.narrowed,
                                    *payload,
                                    value,
                                    enc,
                                ) && match enc {
                                    Err(e) => out == Err::<EditState, SemanticError>(e),
                                    Ok(b) => exists|g: Result<GrammarMatch, SemanticError>|
                                        #[trigger] candidate_grammar(g) && (ctx.interprets)(s.record, g)
                                            && match g {
                                            Err(e) => out == Err::<EditState, SemanticError>(e),
                                            Ok(gm) => exists|conv: Result<SpecFieldValue, SemanticError>|
                                                #[trigger] candidate_value(conv) && converts(
                                                    ctx.decoders,
                                                    ctx.localized,
                                                    ctx.selects,
                                                    ctx.narrowed,
                                                    *payload,
                                                    value,
                                                    conv,
                                                ) && match conv {
                                                    Err(e) => out == Err::<EditState, SemanticError>(e),
                                                    Ok(fv) => out == Ok::<EditState, SemanticError>(
                                                        EditState {
                                                            record: with_subrecord(
                                                                s.record,
                                                                i,
                                                                SubRecordView { signature, data: b },
                                                            ),
                                                            decoded: inserted_occurrence(
                                                                s.decoded,
                                                                path,
                                                                assigned_count(gm.assignments@, path) as usize,
                                                                fv,
                                                            ),
                                                        },
                                                    ),
                                                },
                                        },
                                },
                        },
                },
            _ => out matches Err(e) && encode_error_is(
                e,
                path,
                "schema-native insertion path is not a subrecord"@,
            ),
        },
    }
}

/// Whether `out` is a possible outcome of applying one handler mutation to state `s`.
///
/// Flags change only for the record's own path. Values and raw payloads of subrecord
/// nodes are written at the subrecord that the grammar assigns to the occurrence, whose
/// signature must match the node's; raw insertions and removals by signature must come
/// before any value is decoded; inserted subrecords go where the schema order puts them;
/// removals renumber the later decoded occurrences. Writes below a subrecord and
/// conditional writes go through the containing subrecord's decoded value (see
/// [`sets_nested`] and [`sets_nested_if_equal`]); a reset to default cannot reach this
/// level.
pub open spec fn applies_one<D: CustomDecoder>(
    ctx: MutationContext<D>,
    s: EditState,
    m: HandlerMutation,
    out: Result<EditState, SemanticError>,
) -> bool {
    match m {
        HandlerMutation::SetRecordFlags { path, flags } => if path@ != ctx.record_path {
            out matches Err(e) && handler_error_is(
                e,
                "def.after_load"@,
                "record flag mutation path "@ + path@ + " does not match "@ + ctx.record_path,
            )
        } else {
            out == Ok::<EditState, SemanticError>(EditState { record: with_flags(s.record, flags), ..s })
        },
        HandlerMutation::SetValue { path, occurrence, value } => match node_by_path(ctx.root, path@) {
            None => out matches Err(e) && missing_path_is(e, path@),
            Some(node) => match node.kind {
                SchemaNodeKind::Subrecord { signature, payload } => writes_subrecord(
                    ctx,
                    s,
                    path@,
                    occurrence,
                    signature,
                    *payload,
                    value@,
                    out,
                ),
                _ => sets_nested(nested_of(ctx), s, path@, occurrence, value@, out),
            },
        },
        HandlerMutation::ReplacePayload { path, occurrence, data } => match node_by_path(
            ctx.root,
            path@,
        ) {
            None => out matches Err(e) && missing_path_is(e, path@),
            Some(node) => match node.kind {
                SchemaNodeKind::Subrecord { signature, .. } => exists|
                    l: Result<Option<nat>, SemanticError>,
                |
                    #[trigger] candidate_slot(l) && locates(ctx, s.record, path@, occurrence as nat, l)
                        && match l {
                        Err(e) => out == Err::<EditState, SemanticError>(e),
                        Ok(None) => out matches Err(e) && missing_occurrence_is(
                            e,
                            path@,
                            occurrence as nat,
                        ),
                        Ok(Some(i)) => if i >= s.record.subrecords.len()
                            || s.record.subrecords[i as int].signature != signature {
                            out matches Err(e) && encode_error_is(
                                e,
                                path@,
                                "assigned subrecord signature does not match schema"@,
                            )
                        } else {
                            out == Ok::<EditState, SemanticError>(
                                EditState {
                                    record: with_data(s.record, i, data@),
                                    decoded: s.decoded.remove((path@, occurrence)),
                                },
                            )
                        },
                    },
                _ => out matches Err(e) && encode_error_is(
                    e,
                    path@,
                    "payload replacement path is not a subrecord"@,
                ),
            },
        },
        HandlerMutation::InsertPayload { path, data } => if s.decoded != Map::<DecodedKey, SpecFieldValue>::empty() {
            out matches Err(e) && too_late(
                e,
                "raw payload insertion for "@ + path@ + " must run before initial decoding"@,
            )
        } else {
            match node_by_path(ctx.root, path@) {
                None => out matches Err(e) && missing_path_is(e, path@),
                Some(node) => match node.kind {
                    SchemaNodeKind::Subrecord { signature, .. } => exists|
                        ix: Result<int, SemanticError>,
                    |
                        #[trigger] candidate_index(ix) && places(ctx, s.record, node, ix) && match ix {
                            Err(e) => out == Err::<EditState, SemanticError>(e),
                            Ok(i) => out == Ok::<EditState, SemanticError>(
                                EditState {
                                    record: with_subrecord(
                                        s.record,
                                        i,
                                        SubRecordView { signature, data: data@ },
                                    ),
                                    ..s
                                },
                            ),
                        },
                    _ => out matches Err(e) && encode_error_is(
                        e,
                        path@,
                        "payload insertion path is not a subrecord"@,
                    ),
                },
            }
        },
        HandlerMutation::ResetToDefault { path, .. } => out matches Err(e) && handler_error_is(
            e,
            "edit.reset_sibling_default"@,
            "schema-native default mutation for "@ + path@ + " escaped its value container"@,
        ),
        HandlerMutation::RemoveContainer { path } => match node_by_path(ctx.root, path@) {
            None => out matches Err(e) && missing_path_is(e, path@),
            Some(_) => exists|g: Result<GrammarMatch, SemanticError>|
                #[trigger] candidate_grammar(g) && (ctx.interprets)(s.record, g) && match g {
                    Err(e) => out == Err::<EditState, SemanticError>(e),
                    Ok(gm) => {
                        let removals = container_removals(
                            gm,
                            None,
                            path@,
                            gm.assignments@.len() as int,
                        );
                        out == Ok::<EditState, SemanticError>(
                            EditState {
                                record: RecordView {
                                    subrecords: without_indices(s.record.subrecords, removals),
                                    ..s.record
                                },
                                decoded: without_occurrences(s.decoded, removals),
                            },
                        )
                    },
                },
        },
        HandlerMutation::RemoveContainerOccurrence { path, occurrence } => removes_occurrence(
            ctx.root,
            ctx.interprets,
            s,
            None,
            path@,
            occurrence,
            out,
        ),
        HandlerMutation::Insert { path, value } => inserts_value(ctx, s, path@, value@, out),
        HandlerMutation::InsertDefault { path } => inserts_default(ctx, s, path@, out),
        HandlerMutation::Remove { path, occurrence } => match node_by_path(ctx.root, path@) {
            None => out matches Err(e) && missing_path_is(e, path@),
            Some(node) => match node.kind {
                SchemaNodeKind::Subrecord { signature, .. } => exists|
                    l: Result<Option<nat>, SemanticError>,
                |
                    #[trigger] candidate_slot(l) && locates(ctx, s.record, path@, occurrence as nat, l)
                        && match l {
                        Err(e) => out == Err::<EditState, SemanticError>(e),
                        Ok(None) => out matches Err(e) && missing_occurrence_is(
                            e,
                            path@,
                            occurrence as nat,
                        ),
                        Ok(Some(i)) => if i >= s.record.subrecords.len()
                            || s.record.subrecords[i as int].signature != signature {
                            out matches Err(e) && encode_error_is(
                                e,
                                path@,
                                "assigned subrecord signature does not match schema"@,
                            )
                        } else {
                            out == Ok::<EditState, SemanticError>(
                                EditState {
                                    record: without_subrecord(s.record, i),
                                    decoded: removed_occurrence(s.decoded, path@, occurrence),
                                },
                            )
                        },
                    },
                _ => out matches Err(e) && encode_error_is(
                    e,
                    path@,
                    "handler mutation path is not a subrecord"@,
                ),
            },
        },
        HandlerMutation::RemoveAll { path } => match node_by_path(ctx.root, path@) {
            None => out matches Err(e) && missing_path_is(e, path@),
            Some(node) => match node.kind {
                SchemaNodeKind::Subrecord { signature, .. } => removes_all(ctx, s, path@, signature, out),
                _ => out matches Err(e) && encode_error_is(
                    e,
                    path@,
                    "handler mutation path is not a subrecord"@,
                ),
            },
        },
        HandlerMutation::RemoveAllBySignature { path, signature } => if s.decoded != Map::<DecodedKey, SpecFieldValue>::empty() {
            out matches Err(e) && too_late(
                e,
                "raw signature removal for "@ + path@ + " must run before initial decoding"@,
            )
        } else {
            out == Ok::<EditState, SemanticError>(
                EditState {
                    record: RecordView {
                        subrecords: s.record.subrecords.filter(other_signature(signature)),
                        ..s.record
                    },
                    ..s
                },
            )
        },
        HandlerMutation::RemoveFirstBySignature { path, signature } => if s.decoded != Map::<DecodedKey, SpecFieldValue>::empty() {
            out matches Err(e) && too_late(
                e,
                "raw signature removal for "@ + path@ + " must run before initial decoding"@,
            )
        } else {
            out == Ok::<EditState, SemanticError>(
                match first_with_signature(s.record.subrecords, signature) {
                    Some(i) => EditState { record: without_subrecord(s.record, i), ..s },
                    None => s,
                },
            )
        },
        HandlerMutation::SynchronizeCount { path, occurrence, value, remove_when_zero } => match node_by_path(
            ctx.root,
            path@,
        ) {
            None => out matches Err(e) && missing_path_is(e, path@),
            Some(node) => match node.kind {
                SchemaNodeKind::Subrecord { signature, payload } => synchronizes_count(
                    ctx,
                    s,
                    path@,
                    occurrence,
                    value,
                    remove_when_zero,
                    node,
                    signature,
                    *payload,
                    out,
                ),
                _ => out matches Err(e) && encode_error_is(e, path@, "counter path is not a subrecord"@),
            },
        },
        HandlerMutation::SynchronizePresence { path, occurrence, present, value } => synchronizes_presence(
            ctx,
            s,
            path@,
            occurrence,
            present,
            value@,
            out,
        ),
        HandlerMutation::SetIfEqual { path, occurrence, expected, value } => sets_nested_if_equal(
            nested_of(ctx),
            s,
            path@,
            occurrence,
            expected@,
            value@,
            out,
        ),
    }
}

/// Whether `out` is a possible outcome of applying the mutations from index `k` on to
/// state `s`, in order, stopping at the first error.
pub open spec fn applies_all<D: CustomDecoder>(
    ctx: MutationContext<D>,
    s: EditState,
    ms: Seq<HandlerMutation>,
    k: nat,
    out: Result<EditState, SemanticError>,
) -> bool
    decreases ms.len() - k,
{
    if k >= ms.len() {
        out == Ok::<EditState, SemanticError>(s)
    } else {
        exists|r: Result<EditState, SemanticError>|
            #[trigger] candidate_state(r) && applies_one(ctx, s, ms[k as int], r) && match r {
                Err(e) => out == Err::<EditState, SemanticError>(e),
                Ok(next) => applies_all(ctx, next, ms, k + 1, out),
            }
    }
}

/// The grammar matches that a record grammar may give for a record.
#[verifier::opaque]
pub open spec fn interpreting_of<G: Fn(&WritableRecord) -> Result<GrammarMatch, SemanticError>>(
    interpret: G,
) -> spec_fn(RecordView, Result<GrammarMatch, SemanticError>) -> bool {
    |r: RecordView, g: Result<GrammarMatch, SemanticError>|
        exists|rec: WritableRecord| rec@ == r && #[trigger] interpret.ensures((&rec,), g)
}

/// An optional repetition taken by value.
pub open spec fn scope_view(scope: Option<&RepeatScope>) -> Option<RepeatScope> {
    match scope {
        Some(s) => Some(*s),
        None => None,
    }
}

/// Whether a record grammar always matches every subrecord of the record it reads.
pub open spec fn grammar_fits<G: Fn(&WritableRecord) -> Result<GrammarMatch, SemanticError>>(interpret: G) -> bool {
    &&& forall|rec: &WritableRecord| #[trigger] interpret.requires((rec,))
    &&& forall|rec: &WritableRecord, g: GrammarMatch|
        #[trigger] interpret.ensures((rec,), Ok::<GrammarMatch, SemanticError>(g)) ==> g.wf()
            && g.assignments@.len() == rec.subrecords@.len()
}

/// Whether every node that a schema path reaches, and every subrecord that contains a
/// schema path, reserves room for its string prefixes.
pub open spec fn schema_reserved(root: SchemaNode) -> bool {
    &&& forall|p: Seq<char>| #[trigger] node_by_path(root, p) matches Some(n) ==> prefixes_reserved(n)
    &&& forall|p: Seq<char>|
        #[trigger] containing_subrecord(root, p, None) matches Some(n) ==> prefixes_reserved(n)
}

/// What a write below subrecord level reads of a mutation context.
pub open spec fn nested_of<D: CustomDecoder>(ctx: MutationContext<D>) -> NestedContext<D> {
    NestedContext {
        root: ctx.root,
        decoders: ctx.decoders,
        localized: ctx.localized,
        selects: ctx.selects,
        narrowed: ctx.narrowed,
        interprets: ctx.interprets,
    }
}

/// The context that the arguments of a mutation call make up.
pub open spec fn context_of<D: CustomDecoder, S, N, C, F, G>(
    root: SchemaNode,
    record_path: Seq<char>,
    decoders: Map<Seq<char>, RegisteredDecoder<D>>,
    localized: bool,
    selector: S,
    narrow: N,
    pick: C,
    finish: F,
    interpret: G,
) -> MutationContext<D>
    where
        S: Fn(&SchemaNode, usize, &Vec<u8>) -> Result<Option<i64>, SemanticError>,
        N: Fn(u64) -> u32,
        C: Fn(&SchemaNode) -> Result<i64, SemanticError>,
        F: Fn(&SchemaNode, OwnedFieldValue, &Vec<usize>) -> Result<OwnedFieldValue, SemanticError>,
        G: Fn(&WritableRecord) -> Result<GrammarMatch, SemanticError>,
{
    MutationContext {
        root,
        record_path,
        decoders,
        localized,
        selects: selection_of(selector),
        narrowed: narrowing_of(narrow),
        picks: picking_of(pick),
        finishes: finishing_of(finish),
        interprets: interpreting_of(interpret),
    }
}

/// An outcome as a state: the record and decoded values reached, or the error.
pub open spec fn outcome(res: Result<(), SemanticError>, r: RecordView, d: Map<DecodedKey, SpecFieldValue>) -> Result<
    EditState,
    SemanticError,
> {
    match res {
        Ok(_) => Ok(EditState { record: r, decoded: d }),
        Err(e) => Err(e),
    }
}

/// A subrecord lookup result as indices.
pub open spec fn slot_of(res: Result<Option<usize>, SemanticError>) -> Result<Option<nat>, SemanticError> {
    match res {
        Ok(Some(i)) => Ok(Some(i as nat)),
        Ok(None) => Ok(None),
        Err(e) => Err(e),
    }
}

/// An insertion index result as an integer.
pub open spec fn index_of(res: Result<usize, SemanticError>) -> Result<int, SemanticError> {
    match res {
        Ok(i) => Ok(i as int),
        Err(e) => Err(e),
    }
}

/// An encoded subrecord payload taken by view.
pub open spec fn payload_of(res: Result<(Signature, Vec<u8>), SemanticError>) -> Result<(Signature, Seq<u8>), SemanticError> {
    match res {
        Ok((sig, b)) => Ok((sig, b@)),
        Err(e) => Err(e),
    }
}

/// Two assignments of the same occurrence of a path are the same subrecord.
pub(crate) proof fn lemma_nth_unique(g: GrammarMatch, path: Seq<char>, occurrence: nat, i: nat, j: nat)
    requires
        nth_assigned(g, path, occurrence, i),
        nth_assigned(g, path, occurrence, j),
    ensures
        i == j,
{
    let a = g.assignments@;
    if i < j {
        lemma_count_step(a, path, i as int);
        lemma_count_monotone(a.take(j as int), path, i + 1int);
        assert(a.take(j as int).take(i + 1int) =~= a.take(i + 1int));
    } else if j < i {
        lemma_count_step(a, path, j as int);
        lemma_count_monotone(a.take(i as int), path, j + 1int);
        assert(a.take(i as int).take(j + 1int) =~= a.take(j + 1int));
    }
}

/// An insertion scan over every subrecord index ends at a position among them or
/// right after the last.
proof fn lemma_scan_bound(
    assignments: Seq<Option<crate::assignment::Assignment>>,
    ordered: Seq<SchemaNode>,
    target_path: Seq<char>,
    target_order: nat,
    n: nat,
    k: nat,
    after: Option<int>,
    fallback: int,
)
    requires
        assignments.len() == n,
        0 <= fallback <= n,
        after matches Some(a) ==> 0 <= a <= n,
    ensures
        0 <= insertion_scan(assignments, ordered, target_path, target_order, all_indices(n), k, after, fallback)
            <= n,
    decreases n - k,
{
    if k < n {
        lemma_scan_bound(assignments, ordered, target_path, target_order, n, k + 1, after, fallback);
        lemma_scan_bound(
            assignments,
            ordered,
            target_path,
            target_order,
            n,
            k + 1,
            Some(k + 1int),
            fallback,
        );
    }
}

/// Finds the subrecord of an occurrence of a path by the record's grammar match.
pub(crate) fn locate<D: CustomDecoder, G>(
    Ghost(ctx): Ghost<MutationContext<D>>,
    record: &WritableRecord,
    path: &str,
    occurrence: usize,
    interpret: &G,
) -> (res: Result<Option<usize>, SemanticError>)
    where
        G: Fn(&WritableRecord) -> Result<GrammarMatch, SemanticError>,
    requires
        ctx.interprets == interpreting_of(*interpret),
        grammar_fits(*interpret),
    ensures
        locates(ctx, record@, path@, occurrence as nat, slot_of(res)),
        res matches Ok(Some(i)) ==> i < record.subrecords@.len(),
{
    let g = interpret(record);
    proof {
        reveal(interpreting_of);
        assert((ctx.interprets)(record@, g));
        assert(candidate_grammar(g));
    }
    let grammar = match g {
        Ok(grammar) => grammar,
        Err(e) => {
            return Err(e);
        },
    };
    match assigned_subrecord_index(&grammar, path, occurrence) {
        Ok(i) => {
            proof {
                assert(nth_assigned(grammar, path@, occurrence as nat, i as nat));
                let c = choose|c: nat| nth_assigned(grammar, path@, occurrence as nat, c);
                lemma_nth_unique(grammar, path@, occurrence as nat, i as nat, c);
            }
            Ok(Some(i))
        },
        Err(_) => Ok(None),
    }
}

/// Finds where a new subrecord for a subrecord node goes in the record.
pub(crate) fn place<D: CustomDecoder, G>(
    Ghost(ctx): Ghost<MutationContext<D>>,
    root: &SchemaNode,
    record: &WritableRecord,
    node: &SchemaNode,
    interpret: &G,
) -> (res: Result<usize, SemanticError>)
    where
        G: Fn(&WritableRecord) -> Result<GrammarMatch, SemanticError>,
    requires
        ctx.interprets == interpreting_of(*interpret),
        ctx.root == *root,
        grammar_fits(*interpret),
    ensures
        places(ctx, record@, *node, index_of(res)),
        res matches Ok(i) ==> i <= record.subrecords@.len(),
{
    let ordered = top_level_subrecords(root);
    if position_in(&ordered, node.id).is_none() {
        return Err(SemanticError::MissingPath(node.path.clone()));
    }
    let g = interpret(record);
    proof {
        reveal(interpreting_of);
        assert((ctx.interprets)(record@, g));
        assert(candidate_grammar(g));
    }
    let grammar = match g {
        Ok(grammar) => grammar,
        Err(e) => {
            return Err(e);
        },
    };
    let r = schema_insertion_index(root, &grammar, record.subrecords.len(), node);
    proof {
        if let Some(t) = position_of(subrecords_of(*root), node.id) {
            lemma_scan_bound(
                grammar.assignments@,
                subrecords_of(*root),
                node.path@,
                t,
                grammar.assignments@.len(),
                0,
                None,
                record.subrecords@.len() as int,
            );
        }
    }
    r
}

/// Whether a context is the one that a call's arguments make up, and the arguments are
/// fit to run mutations with.
pub open spec fn runs_with<D: CustomDecoder, S, N, G>(
    ctx: MutationContext<D>,
    root: SchemaNode,
    decoders: DecoderRegistry<D>,
    localized: bool,
    selector: S,
    narrow: N,
    interpret: G,
) -> bool
    where
        S: Fn(&SchemaNode, usize, &Vec<u8>) -> Result<Option<i64>, SemanticError>,
        N: Fn(u64) -> u32,
        G: Fn(&WritableRecord) -> Result<GrammarMatch, SemanticError>,
{
    &&& ctx.root == root
    &&& ctx.decoders == decoders@
    &&& ctx.localized == localized
    &&& ctx.selects == selection_of(selector)
    &&& ctx.narrowed == narrowing_of(narrow)
    &&& ctx.interprets == interpreting_of(interpret)
    &&& decoders.wf()
    &&& schema_reserved(root)
    &&& grammar_fits(interpret)
    &&& forall|bits: u64| narrow.requires((bits,))
    &&& forall|n: &SchemaNode, i: usize, p: &Vec<u8>| selector.requires((n, i, p))
}

/// Replaces the payload of subrecord `i`.
pub(crate) fn set_payload(record: &mut WritableRecord, i: usize, data: Vec<u8>)
    requires
        i < old(record).subrecords@.len(),
    ensures
        final(record)@ == with_data(old(record)@, i as nat, data@),
{
    let signature = record.subrecords[i].signature;
    let ghost before = record@;
    record.subrecords.set(i, WritableSubRecord { signature, data });
    assert(record@.subrecords =~= with_data(before, i as nat, data@).subrecords);
}

/// Inserts a subrecord at position `i`.
pub(crate) fn insert_subrecord(record: &mut WritableRecord, i: usize, subrecord: WritableSubRecord)
    requires
        i <= old(record).subrecords@.len(),
    ensures
        final(record)@ == with_subrecord(old(record)@, i as int, subrecord@),
{
    let ghost before = record@;
    let ghost view = subrecord@;
    record.subrecords.insert(i, subrecord);
    assert(record@.subrecords =~= with_subrecord(before, i as int, view).subrecords);
}

/// Removes subrecord `i`.
pub(crate) fn remove_subrecord(record: &mut WritableRecord, i: usize)
    requires
        i < old(record).subrecords@.len(),
    ensures
        final(record)@ == without_subrecord(old(record)@, i as nat),
        final(record).subrecords@.len() == old(record).subrecords@.len() - 1,
{
    let ghost before = record@;
    record.subrecords.remove(i);
    assert(record@.subrecords =~= without_subrecord(before, i as nat).subrecords);
}

/// Whether two signatures are the same.
pub(crate) fn same_signature(a: Signature, b: Signature) -> (res: bool)
    ensures
        res == (a == b),
{
    let res = a.0[0] == b.0[0] && a.0[1] == b.0[1] && a.0[2] == b.0[2] && a.0[3] == b.0[3];
    proof {
        if res {
            assert(a.0 =~= b.0);
        }
    }
    res
}

/// Encodes a value as the payload of the subrecord node at `path`.
pub(crate) fn encode_path<D, S, N, G>(
    Ghost(ctx): Ghost<MutationContext<D>>,
    root: &SchemaNode,
    path: &str,
    value: &OwnedFieldValue,
    localized: bool,
    decoders: &DecoderRegistry<D>,
    selector: &S,
    narrow: &N,
    interpret: &G,
) -> (res: Result<(Signature, Vec<u8>), SemanticError>)
    where
        D: CustomDecoder,
        S: Fn(&SchemaNode, usize, &Vec<u8>) -> Result<Option<i64>, SemanticError>,
        N: Fn(u64) -> u32,
        G: Fn(&WritableRecord) -> Result<GrammarMatch, SemanticError>,
    requires
        runs_with(ctx, *root, *decoders, localized, *selector, *narrow, *interpret),
    ensures
        encodes_path(ctx, path@, value@, payload_of(res)),
{
    let node = match find_node_by_path(root, path) {
        Some(node) => node,
        None => {
            return Err(SemanticError::MissingPath(path.to_owned()));
        },
    };
    match &node.kind {
        SchemaNodeKind::Subrecord { signature, payload } => {
            assert(node_by_path(*root, path@) == Some(*node));
            assert(prefixes_reserved(*node));
            let enc = encode_node(payload, value, localized, decoders, selector, narrow);
            proof {
                assert(candidate(bytes_of(enc)));
            }
            match enc {
                Ok(b) => Ok((*signature, b)),
                Err(e) => Err(e),
            }
        },
        _ => Err(encode_error(path, "handler mutation path is not a subrecord")),
    }
}

/// Stores the decoded form of `value`, converted with `payload`, as the decoded value
/// of an occurrence of `path`.
pub(crate) fn store_decoded<D, S, N, G>(
    Ghost(ctx): Ghost<MutationContext<D>>,
    Ghost(r): Ghost<RecordView>,
    decoded_values: &mut DecodedValues,
    payload: &SchemaNode,
    value: &OwnedFieldValue,
    path: &str,
    occurrence: usize,
    root: &SchemaNode,
    localized: bool,
    decoders: &DecoderRegistry<D>,
    selector: &S,
    narrow: &N,
    interpret: &G,
) -> (res: Result<(), SemanticError>)
    where
        D: CustomDecoder,
        S: Fn(&SchemaNode, usize, &Vec<u8>) -> Result<Option<i64>, SemanticError>,
        N: Fn(u64) -> u32,
        G: Fn(&WritableRecord) -> Result<GrammarMatch, SemanticError>,
    requires
        runs_with(ctx, *root, *decoders, localized, *selector, *narrow, *interpret),
        old(decoded_values).wf(),
        prefixes_reserved(*payload),
    ensures
        final(decoded_values).wf(),
        stores_decoded(
            ctx,
            EditState { record: r, decoded: old(decoded_values)@ },
            *payload,
            value@,
            path@,
            occurrence,
            outcome(res, r, final(decoded_values)@),
        ),
{
    let conv = owned_to_handler_value(payload, value, localized, decoders, selector, narrow);
    proof {
        assert(candidate_value(value_of(conv)));
    }
    match conv {
        Ok(fv) => {
            decoded_values.insert(path.to_owned(), occurrence, fv);
            Ok(())
        },
        Err(e) => Err(e),
    }
}

/// Writes the encoded value into the subrecord of an occurrence of a subrecord node and
/// stores its decoded value.
fn write_subrecord<D, S, N, G>(
    Ghost(ctx): Ghost<MutationContext<D>>,
    record: &mut WritableRecord,
    decoded_values: &mut DecodedValues,
    path: &str,
    occurrence: usize,
    signature: Signature,
    payload: &SchemaNode,
    value: &OwnedFieldValue,
    root: &SchemaNode,
    localized: bool,
    decoders: &DecoderRegistry<D>,
    selector: &S,
    narrow: &N,
    interpret: &G,
) -> (res: Result<(), SemanticError>)
    where
        D: CustomDecoder,
        S: Fn(&SchemaNode, usize, &Vec<u8>) -> Result<Option<i64>, SemanticError>,
        N: Fn(u64) -> u32,
        G: Fn(&WritableRecord) -> Result<GrammarMatch, SemanticError>,
    requires
        runs_with(ctx, *root, *decoders, localized, *selector, *narrow, *interpret),
        old(decoded_values).wf(),
        prefixes_reserved(*payload),
    ensures
        final(decoded_values).wf(),
        writes_subrecord(ctx, (EditState { record: old(record)@, decoded: old(decoded_values)@ }), path@, occurrence, signature, *payload, value@, outcome(res, final(record)@, final(decoded_values)@)),
{
    let slot = locate::<D, G>(Ghost(ctx), record, path, occurrence, interpret);
    proof {
        assert(candidate_slot(slot_of(slot)));
    }
    let index = match slot {
        Err(e) => {
            return Err(e);
        },
        Ok(None) => {
            return Err(missing_occurrence(path, occurrence));
        },
        Ok(Some(i)) => i,
    };
    let enc = encode_node(payload, value, localized, decoders, selector, narrow);
    proof {
        assert(candidate(bytes_of(enc)));
    }
    let bytes = match enc {
        Ok(b) => b,
        Err(e) => {
            return Err(e);
        },
    };
    if !same_signature(record.subrecords[index].signature, signature) {
        return Err(encode_error(path, "assigned subrecord signature does not match schema"));
    }
    set_payload(record, index, bytes);
    store_decoded(
        Ghost(ctx),
        Ghost(record@),
        decoded_values,
        payload,
        value,
        path,
        occurrence,
        root, localized, decoders, selector, narrow, interpret,
    )
}

/// Replaces the raw payload of the subrecord of an occurrence of a subrecord node and
/// drops its decoded value.
fn replace_payload<D, S, N, G>(
    Ghost(ctx): Ghost<MutationContext<D>>,
    record: &mut WritableRecord,
    decoded_values: &mut DecodedValues,
    path: &str,
    occurrence: usize,
    signature: Signature,
    data: &Vec<u8>,
    root: &SchemaNode,
    localized: bool,
    decoders: &DecoderRegistry<D>,
    selector: &S,
    narrow: &N,
    interpret: &G,
) -> (res: Result<(), SemanticError>)
    where
        D: CustomDecoder,
        S: Fn(&SchemaNode, usize, &Vec<u8>) -> Result<Option<i64>, SemanticError>,
        N: Fn(u64) -> u32,
        G: Fn(&WritableRecord) -> Result<GrammarMatch, SemanticError>,
    requires
        runs_with(ctx, *root, *decoders, localized, *selector, *narrow, *interpret),
        old(decoded_values).wf(),
    ensures
        final(decoded_values).wf(),
        ({
            let s = (EditState { record: old(record)@, decoded: old(decoded_values)@ });
            exists|l: Result<Option<nat>, SemanticError>|
                #[trigger] candidate_slot(l) && locates(ctx, s.record, path@, occurrence as nat, l)
                    && match l {
                    Err(e) => outcome(res, final(record)@, final(decoded_values)@) == Err::<EditState, SemanticError>(e),
                    Ok(None) => outcome(res, final(record)@, final(decoded_values)@) matches Err(e) && missing_occurrence_is(
                        e,
                        path@,
                        occurrence as nat,
                    ),
                    Ok(Some(i)) => if i >= s.record.subrecords.len()
                        || s.record.subrecords[i as int].signature != signature {
                        outcome(res, final(record)@, final(decoded_values)@) matches Err(e) && encode_error_is(
                            e,
                            path@,
                            "assigned subrecord signature does not match schema"@,
                        )
                    } else {
                        outcome(res, final(record)@, final(decoded_values)@) == Ok::<EditState, SemanticError>(
                            EditState {
                                record: with_data(s.record, i, data@),
                                decoded: s.decoded.remove((path@, occurrence)),
                            },
                        )
                    },
                }
        }),
{
    let slot = locate::<D, G>(Ghost(ctx), record, path, occurrence, interpret);
    proof {
        assert(candidate_slot(slot_of(slot)));
    }
    let index = match slot {
        Err(e) => {
            return Err(e);
        },
        Ok(None) => {
            return Err(missing_occurrence(path, occurrence));
        },
        Ok(Some(i)) => i,
    };
    if !same_signature(record.subrecords[index].signature, signature) {
        return Err(encode_error(path, "assigned subrecord signature does not match schema"));
    }
    let bytes = data.clone();
    assert(bytes@ =~= data@);
    set_payload(record, index, bytes);
    decoded_values.remove(path, occurrence);
    Ok(())
}

/// Removes the subrecord of an occurrence of a subrecord node and renumbers the later
/// decoded occurrences of its path.
fn remove_one<D, S, N, G>(
    Ghost(ctx): Ghost<MutationContext<D>>,
    record: &mut WritableRecord,
    decoded_values: &mut DecodedValues,
    path: &str,
    occurrence: usize,
    signature: Signature,
    root: &SchemaNode,
    localized: bool,
    decoders: &DecoderRegistry<D>,
    selector: &S,
    narrow: &N,
    interpret: &G,
) -> (res: Result<(), SemanticError>)
    where
        D: CustomDecoder,
        S: Fn(&SchemaNode, usize, &Vec<u8>) -> Result<Option<i64>, SemanticError>,
        N: Fn(u64) -> u32,
        G: Fn(&WritableRecord) -> Result<GrammarMatch, SemanticError>,
    requires
        runs_with(ctx, *root, *decoders, localized, *selector, *narrow, *interpret),
        old(decoded_values).wf(),
    ensures
        final(decoded_values).wf(),
        ({
            let s = (EditState { record: old(record)@, decoded: old(decoded_values)@ });
            exists|l: Result<Option<nat>, SemanticError>|
                #[trigger] candidate_slot(l) && locates(ctx, s.record, path@, occurrence as nat, l)
                    && match l {
                    Err(e) => outcome(res, final(record)@, final(decoded_values)@) == Err::<EditState, SemanticError>(e),
                    Ok(None) => outcome(res, final(record)@, final(decoded_values)@) matches Err(e) && missing_occurrence_is(
                        e,
                        path@,
                        occurrence as nat,
                    ),
                    Ok(Some(i)) => if i >= s.record.subrecords.len()
                        || s.record.subrecords[i as int].signature != signature {
                        outcome(res, final(record)@, final(decoded_values)@) matches Err(e) && encode_error_is(
                            e,
                            path@,
                            "assigned subrecord signature does not match schema"@,
                        )
                    } else {
                        outcome(res, final(record)@, final(decoded_values)@) == Ok::<EditState, SemanticError>(
                            EditState {
                                record: without_subrecord(s.record, i),
                                decoded: removed_occurrence(s.decoded, path@, occurrence),
                            },
                        )
                    },
                }
        }),
{
    let slot = locate::<D, G>(Ghost(ctx), record, path, occurrence, interpret);
    proof {
        assert(candidate_slot(slot_of(slot)));
    }
    let index = match slot {
        Err(e) => {
            return Err(e);
        },
        Ok(None) => {
            return Err(missing_occurrence(path, occurrence));
        },
        Ok(Some(i)) => i,
    };
    if !same_signature(record.subrecords[index].signature, signature) {
        return Err(encode_error(path, "assigned subrecord signature does not match schema"));
    }
    remove_subrecord(record, index);
    remove_decoded_occurrence(decoded_values, path, occurrence);
    Ok(())
}

/// Inserts a subrecord for `value` at the subrecord node at `path`, as the next
/// occurrence of that path, and stores its decoded value.
fn insert_value<D, S, N, G>(
    Ghost(ctx): Ghost<MutationContext<D>>,
    record: &mut WritableRecord,
    decoded_values: &mut DecodedValues,
    path: &str,
    value: &OwnedFieldValue,
    root: &SchemaNode,
    localized: bool,
    decoders: &DecoderRegistry<D>,
    selector: &S,
    narrow: &N,
    interpret: &G,
) -> (res: Result<(), SemanticError>)
    where
        D: CustomDecoder,
        S: Fn(&SchemaNode, usize, &Vec<u8>) -> Result<Option<i64>, SemanticError>,
        N: Fn(u64) -> u32,
        G: Fn(&WritableRecord) -> Result<GrammarMatch, SemanticError>,
    requires
        runs_with(ctx, *root, *decoders, localized, *selector, *narrow, *interpret),
        old(decoded_values).wf(),
    ensures
        final(decoded_values).wf(),
        inserts_value(ctx, (EditState { record: old(record)@, decoded: old(decoded_values)@ }), path@, value@, outcome(res, final(record)@, final(decoded_values)@)),
{
    let enc = encode_path::<D, S, N, G>(
        Ghost(ctx),
        root,
        path,
        value,
        localized,
        decoders,
        selector,
        narrow,
        interpret,
    );
    proof {
        assert(candidate_payload(payload_of(enc)));
    }
    let (signature, bytes) = match enc {
        Ok(p) => p,
        Err(e) => {
            return Err(e);
        },
    };
    let node = match find_node_by_path(root, path) {
        Some(node) => node,
        None => {
            return Err(SemanticError::MissingPath(path.to_owned()));
        },
    };
    let payload = match &node.kind {
        SchemaNodeKind::Subrecord { payload, .. } => payload,
        _ => {
            return Err(encode_error(path, "handler mutation path is not a subrecord"));
        },
    };
    assert(node_by_path(*root, path@) == Some(*node));
    assert(prefixes_reserved(*node));
    let g = interpret(record);
    proof {
        reveal(interpreting_of);
        assert((ctx.interprets)(record@, g));
        assert(candidate_grammar(g));
    }
    let grammar = match g {
        Ok(grammar) => grammar,
        Err(e) => {
            return Err(e);
        },
    };
    let occurrence = assigned_occurrence_count(&grammar, path);
    let ix = place::<D, G>(Ghost(ctx), root, record, node, interpret);
    proof {
        assert(candidate_index(index_of(ix)));
    }
    let index = match ix {
        Ok(i) => i,
        Err(e) => {
            return Err(e);
        },
    };
    insert_subrecord(record, index, WritableSubRecord { signature, data: bytes });
    store_decoded(
        Ghost(ctx),
        Ghost(record@),
        decoded_values,
        payload,
        value,
        path,
        occurrence,
        root, localized, decoders, selector, narrow, interpret,
    )
}

/// Removes every occurrence of the subrecord node at `path`, first occurrence first,
/// until the grammar reports none.
fn remove_all<D, S, N, G>(
    Ghost(ctx): Ghost<MutationContext<D>>,
    record: &mut WritableRecord,
    decoded_values: &mut DecodedValues,
    path: &str,
    signature: Signature,
    root: &SchemaNode,
    localized: bool,
    decoders: &DecoderRegistry<D>,
    selector: &S,
    narrow: &N,
    interpret: &G,
) -> (res: Result<(), SemanticError>)
    where
        D: CustomDecoder,
        S: Fn(&SchemaNode, usize, &Vec<u8>) -> Result<Option<i64>, SemanticError>,
        N: Fn(u64) -> u32,
        G: Fn(&WritableRecord) -> Result<GrammarMatch, SemanticError>,
    requires
        runs_with(ctx, *root, *decoders, localized, *selector, *narrow, *interpret),
        old(decoded_values).wf(),
    ensures
        final(decoded_values).wf(),
        removes_all(ctx, (EditState { record: old(record)@, decoded: old(decoded_values)@ }), path@, signature, outcome(res, final(record)@, final(decoded_values)@)),
{
    let ghost start = (EditState { record: old(record)@, decoded: old(decoded_values)@ });
    loop
        invariant
            runs_with(ctx, *root, *decoders, localized, *selector, *narrow, *interpret),
            decoded_values.wf(),
            start == (EditState { record: old(record)@, decoded: old(decoded_values)@ }),
            forall|out: Result<EditState, SemanticError>|
                removes_all(ctx, EditState { record: record@, decoded: decoded_values@ }, path@, signature, out)
                    ==> #[trigger] removes_all(ctx, start, path@, signature, out),
        decreases record.subrecords@.len(),
    {
        let ghost here = EditState { record: record@, decoded: decoded_values@ };
        let slot = locate::<D, G>(Ghost(ctx), record, path, 0, interpret);
        proof {
            assert(candidate_slot(slot_of(slot)));
        }
        match slot {
            Err(e) => {
                match e {
                    SemanticError::MissingOccurrence { .. } => {
                        assert(removes_all(ctx, here, path@, signature, Ok(here)));
                        return Ok(());
                    },
                    _ => {
                        assert(removes_all(ctx, here, path@, signature, Err(e)));
                        return Err(e);
                    },
                }
            },
            Ok(None) => {
                assert(removes_all(ctx, here, path@, signature, Ok(here)));
                return Ok(());
            },
            Ok(Some(index)) => {
                if !same_signature(record.subrecords[index].signature, signature) {
                    let e = encode_error(path, "assigned subrecord signature does not match schema");
                    assert(removes_all(ctx, here, path@, signature, Err(e)));
                    return Err(e);
                }
                remove_subrecord(record, index);
                remove_decoded_occurrence(decoded_values, path, 0);
                proof {
                    let next = EditState { record: record@, decoded: decoded_values@ };
                    assert forall|out: Result<EditState, SemanticError>|
                        removes_all(ctx, next, path@, signature, out) implies #[trigger] removes_all(
                        ctx,
                        start,
                        path@,
                        signature,
                        out,
                    ) by {
                        assert(removes_all(ctx, here, path@, signature, out));
                    }
                }
            },
        }
    }
}

/// The views of a list of subrecords.
pub open spec fn subrecord_views(s: Seq<WritableSubRecord>) -> Seq<SubRecordView> {
    s.map_values(|x: WritableSubRecord| x@)
}

/// Keeps only the subrecords whose signature differs from `signature`, in order.
fn retain_other_signatures(record: &mut WritableRecord, signature: Signature)
    ensures
        final(record)@ == (RecordView {
            subrecords: old(record)@.subrecords.filter(other_signature(signature)),
            ..old(record)@
        }),
{
    let ghost views = record@.subrecords;
    let ghost before = record@;
    let ghost pred = other_signature(signature);
    let mut pending: Vec<WritableSubRecord> = Vec::new();
    std::mem::swap(&mut pending, &mut record.subrecords);
    let mut kept: Vec<WritableSubRecord> = Vec::new();
    let total = pending.len();
    let mut k: usize = 0;
    proof {
        assert(views.take(0) =~= Seq::<SubRecordView>::empty());
        reveal(Seq::filter);
        assert(subrecord_views(pending@) =~= views.skip(0));
        assert(subrecord_views(kept@) =~= Seq::<SubRecordView>::empty());
    }
    while pending.len() > 0
        invariant
            k <= total,
            views.len() == total,
            pending@.len() == total - k,
            subrecord_views(pending@) == views.skip(k as int),
            subrecord_views(kept@) == views.take(k as int).filter(pred),
            pred == other_signature(signature),
            record.signature == before.signature,
            record.flags == before.flags,
            record.form_id == before.form_id,
            record.form_version == before.form_version,
        decreases pending.len(),
    {
        let ghost rest = pending@;
        let sub = pending.remove(0);
        proof {
            assert(views.skip(k as int)[0] == sub@) by {
                assert(subrecord_views(rest)[0] == rest[0]@);
            }
            assert forall|j: int| 0 <= j < pending@.len() implies subrecord_views(pending@)[j]
                == views.skip(k + 1)[j] by {
                assert(subrecord_views(rest)[j + 1] == rest[j + 1]@);
            }
            assert(subrecord_views(pending@) =~= views.skip(k + 1));
            assert(views.take(k + 1) =~= views.take(k as int).push(views[k as int]));
            views.take(k as int).lemma_filter_push(views[k as int], pred);
        }
        let ghost kept_before = kept@;
        if !same_signature(sub.signature, signature) {
            kept.push(sub);
            proof {
                assert(subrecord_views(kept@) =~= subrecord_views(kept_before).push(views[k as int]));
            }
        }
        k += 1;
    }
    record.subrecords = kept;
    proof {
        assert(views.take(k as int) =~= views);
        assert(record@.subrecords =~= views.filter(pred));
    }
}

/// Removes the first subrecord with `signature`, if any.
fn remove_first_with_signature(record: &mut WritableRecord, signature: Signature)
    ensures
        final(record)@ == match first_with_signature(old(record)@.subrecords, signature) {
            Some(i) => without_subrecord(old(record)@, i),
            None => old(record)@,
        },
{
    let ghost views = record@.subrecords;
    let mut i: usize = 0;
    assert(views.skip(0) =~= views);
    while i < record.subrecords.len()
        invariant
            views == record@.subrecords,
            record@ == old(record)@,
            i <= views.len(),
            first_with_signature(views, signature) == match first_with_signature(
                views.skip(i as int),
                signature,
            ) {
                Some(p) => Some((p + i) as nat),
                None => None::<nat>,
            },
        decreases record.subrecords.len() - i,
    {
        assert(views.skip(i as int)[0] == views[i as int]);
        assert(views[i as int] == record.subrecords@[i as int]@);
        assert(views.skip(i as int).drop_first() =~= views.skip(i + 1));
        if same_signature(record.subrecords[i].signature, signature) {
            assert(first_with_signature(views.skip(i as int), signature) == Some(0nat));
            remove_subrecord(record, i);
            return;
        }
        i += 1;
    }
    assert(views.len() == record.subrecords@.len());
    assert(views.skip(i as int) =~= Seq::<SubRecordView>::empty());
    assert(first_with_signature(views.skip(i as int), signature) == None::<nat>);
}

/// Keeps occurrence `occurrence` of the counter subrecord node `node`, at `path` with
/// `signature` and `payload`, equal to `count`.
fn synchronize_count<D, S, N, G>(
    Ghost(ctx): Ghost<MutationContext<D>>,
    record: &mut WritableRecord,
    decoded_values: &mut DecodedValues,
    path: &str,
    occurrence: usize,
    count: u64,
    remove_when_zero: bool,
    node: &SchemaNode,
    signature: Signature,
    payload: &SchemaNode,
    root: &SchemaNode,
    localized: bool,
    decoders: &DecoderRegistry<D>,
    selector: &S,
    narrow: &N,
    interpret: &G,
) -> (res: Result<(), SemanticError>)
    where
        D: CustomDecoder,
        S: Fn(&SchemaNode, usize, &Vec<u8>) -> Result<Option<i64>, SemanticError>,
        N: Fn(u64) -> u32,
        G: Fn(&WritableRecord) -> Result<GrammarMatch, SemanticError>,
    requires
        runs_with(ctx, *root, *decoders, localized, *selector, *narrow, *interpret),
        old(decoded_values).wf(),
        prefixes_reserved(*payload),
    ensures
        final(decoded_values).wf(),
        synchronizes_count(
            ctx,
            (EditState { record: old(record)@, decoded: old(decoded_values)@ }),
            path@,
            occurrence,
            count,
            remove_when_zero,
            *node,
            signature,
            *payload,
            outcome(res, final(record)@, final(decoded_values)@),
        ),
{
    let slot = locate::<D, G>(Ghost(ctx), record, path, occurrence, interpret);
    proof {
        assert(candidate_slot(slot_of(slot)));
    }
    let found: Option<usize> = match slot {
        Ok(f) => f,
        Err(e) => match e {
            SemanticError::MissingOccurrence { .. } => None,
            _ => {
                return Err(e);
            },
        },
    };
    if count == 0 && remove_when_zero {
        if let Some(index) = found {
            remove_subrecord(record, index);
            remove_decoded_occurrence(decoded_values, path, occurrence);
        }
        return Ok(());
    }
    let counted = OwnedFieldValue::UInt(count);
    let enc = encode_path::<D, S, N, G>(
        Ghost(ctx),
        root,
        path,
        &counted,
        localized,
        decoders,
        selector,
        narrow,
        interpret,
    );
    proof {
        assert(candidate_payload(payload_of(enc)));
    }
    let (sig, bytes) = match enc {
        Ok(p) => p,
        Err(e) => {
            return Err(e);
        },
    };
    match found {
        Some(index) => {
            if !same_signature(record.subrecords[index].signature, sig) {
                return Err(encode_error(path, "assigned counter signature does not match schema"));
            }
            set_payload(record, index, bytes);
        },
        None => {
            let ix = place::<D, G>(Ghost(ctx), root, record, node, interpret);
            proof {
                assert(candidate_index(index_of(ix)));
            }
            let index = match ix {
                Ok(i) => i,
                Err(e) => {
                    return Err(e);
                },
            };
            insert_subrecord(record, index, WritableSubRecord { signature: sig, data: bytes });
        },
    }
    store_decoded(
        Ghost(ctx),
        Ghost(record@),
        decoded_values,
        payload,
        &counted,
        path,
        occurrence,
        root, localized, decoders, selector, narrow, interpret,
    )
}

/// Keeps occurrence `occurrence` of the subrecord at `path` present, inserted with
/// `value` when missing, or absent, removed when there.
fn synchronize_presence<D, S, N, G>(
    Ghost(ctx): Ghost<MutationContext<D>>,
    record: &mut WritableRecord,
    decoded_values: &mut DecodedValues,
    path: &str,
    occurrence: usize,
    present: bool,
    value: &OwnedFieldValue,
    root: &SchemaNode,
    localized: bool,
    decoders: &DecoderRegistry<D>,
    selector: &S,
    narrow: &N,
    interpret: &G,
) -> (res: Result<(), SemanticError>)
    where
        D: CustomDecoder,
        S: Fn(&SchemaNode, usize, &Vec<u8>) -> Result<Option<i64>, SemanticError>,
        N: Fn(u64) -> u32,
        G: Fn(&WritableRecord) -> Result<GrammarMatch, SemanticError>,
    requires
        runs_with(ctx, *root, *decoders, localized, *selector, *narrow, *interpret),
        old(decoded_values).wf(),
    ensures
        final(decoded_values).wf(),
        synchronizes_presence(ctx, (EditState { record: old(record)@, decoded: old(decoded_values)@ }), path@, occurrence, present, value@, outcome(res, final(record)@, final(decoded_values)@)),
{
    let slot = locate::<D, G>(Ghost(ctx), record, path, occurrence, interpret);
    proof {
        assert(candidate_slot(slot_of(slot)));
    }
    let found: Option<usize> = match slot {
        Ok(f) => f,
        Err(e) => match e {
            SemanticError::MissingOccurrence { .. } => None,
            _ => {
                return Err(e);
            },
        },
    };
    match found {
        Some(index) => {
            if !present {
                remove_subrecord(record, index);
                remove_decoded_occurrence(decoded_values, path, occurrence);
            }
            Ok(())
        },
        None => {
            if !present {
                return Ok(());
            }
            let enc = encode_path::<D, S, N, G>(
                Ghost(ctx),
                root,
                path,
                value,
                localized,
                decoders,
                selector,
                narrow,
                interpret,
            );
            proof {
                assert(candidate_payload(payload_of(enc)));
            }
            let (sig, bytes) = match enc {
                Ok(p) => p,
                Err(e) => {
                    return Err(e);
                },
            };
            let node = match find_node_by_path(root, path) {
                Some(node) => node,
                None => {
                    return Err(SemanticError::MissingPath(path.to_owned()));
                },
            };
            let payload = match &node.kind {
                SchemaNodeKind::Subrecord { payload, .. } => payload,
                _ => {
                    return Err(encode_error(path, "presence path is not a subrecord"));
                },
            };
            assert(node_by_path(*root, path@) == Some(*node));
            assert(prefixes_reserved(*node));
            let ix = place::<D, G>(Ghost(ctx), root, record, node, interpret);
            proof {
                assert(candidate_index(index_of(ix)));
            }
            let index = match ix {
                Ok(i) => i,
                Err(e) => {
                    return Err(e);
                },
            };
            insert_subrecord(record, index, WritableSubRecord { signature: sig, data: bytes });
            store_decoded(
                Ghost(ctx),
                Ghost(record@),
                decoded_values,
                payload,
                value,
                path,
                occurrence,
                root, localized, decoders, selector, narrow, interpret,
            )
        },
    }
}

/// Whether a context's fresh-value picks and callbacks are those of the given closures.
pub open spec fn fresh_with<D: CustomDecoder, C, F>(ctx: MutationContext<D>, pick: C, finish: F) -> bool
    where
        C: Fn(&SchemaNode) -> Result<i64, SemanticError>,
        F: Fn(&SchemaNode, OwnedFieldValue, &Vec<usize>) -> Result<OwnedFieldValue, SemanticError>,
{
    &&& ctx.picks == picking_of(pick)
    &&& ctx.finishes == finishing_of(finish)
    &&& forall|n: &SchemaNode| pick.requires((n,))
    &&& forall|n: &SchemaNode, v: OwnedFieldValue, ix: &Vec<usize>| finish.requires((n, v, ix))
}

/// Inserts a fresh value for the subrecord node at `path` as the next occurrence of
/// that path.
fn insert_default<D, S, N, C, F, G>(
    Ghost(ctx): Ghost<MutationContext<D>>,
    record: &mut WritableRecord,
    decoded_values: &mut DecodedValues,
    path: &str,
    root: &SchemaNode,
    localized: bool,
    decoders: &DecoderRegistry<D>,
    selector: &S,
    narrow: &N,
    pick: &C,
    finish: &F,
    interpret: &G,
) -> (res: Result<(), SemanticError>)
    where
        D: CustomDecoder,
        S: Fn(&SchemaNode, usize, &Vec<u8>) -> Result<Option<i64>, SemanticError>,
        N: Fn(u64) -> u32,
        C: Fn(&SchemaNode) -> Result<i64, SemanticError>,
        F: Fn(&SchemaNode, OwnedFieldValue, &Vec<usize>) -> Result<OwnedFieldValue, SemanticError>,
        G: Fn(&WritableRecord) -> Result<GrammarMatch, SemanticError>,
    requires
        runs_with(ctx, *root, *decoders, localized, *selector, *narrow, *interpret),
        fresh_with(ctx, *pick, *finish),
        old(decoded_values).wf(),
    ensures
        final(decoded_values).wf(),
        inserts_default(
            ctx,
            (EditState { record: old(record)@, decoded: old(decoded_values)@ }),
            path@,
            outcome(res, final(record)@, final(decoded_values)@),
        ),
{
    let node = match find_node_by_path(root, path) {
        Some(node) => node,
        None => {
            return Err(SemanticError::MissingPath(path.to_owned()));
        },
    };
    let (signature, payload) = match &node.kind {
        SchemaNodeKind::Subrecord { signature, payload } => (*signature, payload),
        _ => {
            return Err(encode_error(path, "schema-native insertion path is not a subrecord"));
        },
    };
    assert(node_by_path(*root, path@) == Some(*node));
    assert(prefixes_reserved(*node));
    let ix = place::<D, G>(Ghost(ctx), root, record, node, interpret);
    proof {
        assert(candidate_index(index_of(ix)));
    }
    let index = match ix {
        Ok(i) => i,
        Err(e) => {
            return Err(e);
        },
    };
    let no_indices: Vec<usize> = Vec::new();
    assert(no_indices@ =~= Seq::<usize>::empty());
    let fresh = default_value_for_node(payload, localized, 0, &no_indices, pick, finish);
    proof {
        assert(candidate_default(owned_result(fresh)));
    }
    let value = match fresh {
        Ok(v) => v,
        Err(e) => {
            return Err(e);
        },
    };
    let enc = encode_node(payload, &value, localized, decoders, selector, narrow);
    proof {
        assert(candidate(bytes_of(enc)));
    }
    let bytes = match enc {
        Ok(b) => b,
        Err(e) => {
            return Err(e);
        },
    };
    let g = interpret(record);
    proof {
        reveal(interpreting_of);
        assert((ctx.interprets)(record@, g));
        assert(candidate_grammar(g));
    }
    let grammar = match g {
        Ok(grammar) => grammar,
        Err(e) => {
            return Err(e);
        },
    };
    let occurrence = assigned_occurrence_count(&grammar, path);
    insert_subrecord(record, index, WritableSubRecord { signature, data: bytes });
    let conv = owned_to_handler_value(payload, &value, localized, decoders, selector, narrow);
    proof {
        assert(candidate_value(value_of(conv)));
    }
    match conv {
        Ok(fv) => {
            insert_decoded_occurrence(decoded_values, path, occurrence, fv);
            Ok(())
        },
        Err(e) => Err(e),
    }
}

/// Builds the handler error of a raw mutation that came after the record was decoded.
fn too_late_error(kind: &str, path: &str) -> (res: SemanticError)
    ensures
        too_late(res, kind@ + path@ + " must run before initial decoding"@),
{
    let mut message = String::from_str(kind);
    message.append(path);
    message.append(" must run before initial decoding");
    SemanticError::Handler { handler: String::from_str("def.after_load"), message }
}

/// Applies one handler mutation to a record and to the decoded values kept beside it
/// (see [`applies_one`]).
///
/// `root` is the record's schema and `record_path` the text that names the record.
/// `interpret` matches a record's subrecords with the schema grammar. On an error the
/// record and the decoded values may hold part of the change.
pub fn apply_mutation<D, S, N, C, F, G>(
    root: &SchemaNode,
    record_path: &str,
    record: &mut WritableRecord,
    decoded_values: &mut DecodedValues,
    mutation: &HandlerMutation,
    localized: bool,
    decoders: &DecoderRegistry<D>,
    selector: &S,
    narrow: &N,
    pick: &C,
    finish: &F,
    interpret: &G,
) -> (res: Result<(), SemanticError>)
    where
        D: CustomDecoder,
        S: Fn(&SchemaNode, usize, &Vec<u8>) -> Result<Option<i64>, SemanticError>,
        N: Fn(u64) -> u32,
        C: Fn(&SchemaNode) -> Result<i64, SemanticError>,
        F: Fn(&SchemaNode, OwnedFieldValue, &Vec<usize>) -> Result<OwnedFieldValue, SemanticError>,
        G: Fn(&WritableRecord) -> Result<GrammarMatch, SemanticError>,
    requires
        old(decoded_values).wf(),
        decoders.wf(),
        schema_reserved(*root),
        grammar_fits(*interpret),
        forall|bits: u64| narrow.requires((bits,)),
        forall|n: &SchemaNode, i: usize, p: &Vec<u8>| selector.requires((n, i, p)),
        forall|n: &SchemaNode| pick.requires((n,)),
        forall|n: &SchemaNode, v: OwnedFieldValue, ix: &Vec<usize>| finish.requires((n, v, ix)),
    ensures
        final(decoded_values).wf(),
        applies_one(context_of(
            *root,
            record_path@,
            decoders@,
            localized,
            *selector,
            *narrow,
            *pick,
            *finish,
            *interpret,
        ), (EditState { record: old(record)@, decoded: old(decoded_values)@ }), *mutation, outcome(res, final(record)@, final(decoded_values)@)),
{
    let ghost ctx = context_of(
            *root,
            record_path@,
            decoders@,
            localized,
            *selector,
            *narrow,
            *pick,
            *finish,
            *interpret,
        );
    match mutation {
        HandlerMutation::SetRecordFlags { path, flags } => {
            if !text_eq(path.as_str(), record_path) {
                let mut message = String::from_str("record flag mutation path ");
                message.append(path.as_str());
                message.append(" does not match ");
                message.append(record_path);
                return Err(SemanticError::Handler { handler: String::from_str("def.after_load"), message });
            }
            record.flags = *flags;
            Ok(())
        },
        HandlerMutation::SetValue { path, occurrence, value } => {
            let node = match find_node_by_path(root, path.as_str()) {
                Some(node) => node,
                None => {
                    return Err(SemanticError::MissingPath(path.clone()));
                },
            };
            match &node.kind {
                SchemaNodeKind::Subrecord { signature, payload } => {
                    assert(node_by_path(*root, path@) == Some(*node));
                    assert(prefixes_reserved(*node));
                    write_subrecord(
                        Ghost(ctx),
                        record,
                        decoded_values,
                        path.as_str(),
                        *occurrence,
                        *signature,
                        payload,
                        value,
                        root, localized, decoders, selector, narrow, interpret,
                    )
                },
                _ => apply_nested_set(
                    root,
                    record,
                    decoded_values,
                    path.as_str(),
                    *occurrence,
                    value.clone(),
                    localized,
                    decoders,
                    selector,
                    narrow,
                    interpret,
                ),
            }
        },
        HandlerMutation::ReplacePayload { path, occurrence, data } => {
            let node = match find_node_by_path(root, path.as_str()) {
                Some(node) => node,
                None => {
                    return Err(SemanticError::MissingPath(path.clone()));
                },
            };
            match &node.kind {
                SchemaNodeKind::Subrecord { signature, .. } => replace_payload(
                    Ghost(ctx),
                    record,
                    decoded_values,
                    path.as_str(),
                    *occurrence,
                    *signature,
                    data,
                    root, localized, decoders, selector, narrow, interpret,
                ),
                _ => Err(encode_error(path.as_str(), "payload replacement path is not a subrecord")),
            }
        },
        HandlerMutation::InsertPayload { path, data } => {
            if !decoded_values.is_empty() {
                return Err(too_late_error("raw payload insertion for ", path.as_str()));
            }
            let node = match find_node_by_path(root, path.as_str()) {
                Some(node) => node,
                None => {
                    return Err(SemanticError::MissingPath(path.clone()));
                },
            };
            match &node.kind {
                SchemaNodeKind::Subrecord { signature, .. } => {
                    let ix = place::<D, G>(Ghost(ctx), root, record, node, interpret);
                    proof {
                        assert(candidate_index(index_of(ix)));
                    }
                    let index = match ix {
                        Ok(i) => i,
                        Err(e) => {
                            return Err(e);
                        },
                    };
                    let bytes = data.clone();
                    assert(bytes@ =~= data@);
                    insert_subrecord(record, index, WritableSubRecord { signature: *signature, data: bytes });
                    Ok(())
                },
                _ => Err(encode_error(path.as_str(), "payload insertion path is not a subrecord")),
            }
        },
        HandlerMutation::ResetToDefault { path, .. } => {
            let mut message = String::from_str("schema-native default mutation for ");
            message.append(path.as_str());
            message.append(" escaped its value container");
            Err(SemanticError::Handler { handler: String::from_str("edit.reset_sibling_default"), message })
        },
        HandlerMutation::RemoveContainer { path } => {
            if find_node_by_path(root, path.as_str()).is_none() {
                return Err(SemanticError::MissingPath(path.clone()));
            }
            let g = interpret(record);
            proof {
                reveal(interpreting_of);
                assert((ctx.interprets)(record@, g));
                assert(candidate_grammar(g));
            }
            let grammar = match g {
                Ok(grammar) => grammar,
                Err(e) => {
                    return Err(e);
                },
            };
            remove_container_assignments(root, record, decoded_values, &grammar, None, path.as_str())
        },
        HandlerMutation::RemoveContainerOccurrence { path, occurrence } => remove_container_occurrence(
            root,
            record,
            decoded_values,
            None,
            path.as_str(),
            *occurrence,
            interpret,
        ),
        HandlerMutation::InsertDefault { path } => insert_default(
            Ghost(ctx),
            record,
            decoded_values,
            path.as_str(),
            root,
            localized,
            decoders,
            selector,
            narrow,
            pick,
            finish,
            interpret,
        ),
        HandlerMutation::Insert { path, value } => insert_value(
            Ghost(ctx),
            record,
            decoded_values,
            path.as_str(),
            value,
            root, localized, decoders, selector, narrow, interpret,
        ),
        HandlerMutation::Remove { path, occurrence } => {
            let node = match find_node_by_path(root, path.as_str()) {
                Some(node) => node,
                None => {
                    return Err(SemanticError::MissingPath(path.clone()));
                },
            };
            match &node.kind {
                SchemaNodeKind::Subrecord { signature, .. } => remove_one(
                    Ghost(ctx),
                    record,
                    decoded_values,
                    path.as_str(),
                    *occurrence,
                    *signature,
                    root, localized, decoders, selector, narrow, interpret,
                ),
                _ => Err(encode_error(path.as_str(), "handler mutation path is not a subrecord")),
            }
        },
        HandlerMutation::RemoveAll { path } => {
            let node = match find_node_by_path(root, path.as_str()) {
                Some(node) => node,
                None => {
                    return Err(SemanticError::MissingPath(path.clone()));
                },
            };
            match &node.kind {
                SchemaNodeKind::Subrecord { signature, .. } => remove_all(
                    Ghost(ctx),
                    record,
                    decoded_values,
                    path.as_str(),
                    *signature,
                    root, localized, decoders, selector, narrow, interpret,
                ),
                _ => Err(encode_error(path.as_str(), "handler mutation path is not a subrecord")),
            }
        },
        HandlerMutation::RemoveAllBySignature { path, signature } => {
            if !decoded_values.is_empty() {
                return Err(too_late_error("raw signature removal for ", path.as_str()));
            }
            retain_other_signatures(record, *signature);
            Ok(())
        },
        HandlerMutation::RemoveFirstBySignature { path, signature } => {
            if !decoded_values.is_empty() {
                return Err(too_late_error("raw signature removal for ", path.as_str()));
            }
            remove_first_with_signature(record, *signature);
            Ok(())
        },
        HandlerMutation::SynchronizeCount { path, occurrence, value, remove_when_zero } => {
            let node = match find_node_by_path(root, path.as_str()) {
                Some(node) => node,
                None => {
                    return Err(SemanticError::MissingPath(path.clone()));
                },
            };
            match &node.kind {
                SchemaNodeKind::Subrecord { signature, payload } => {
                    assert(node_by_path(*root, path@) == Some(*node));
                    assert(prefixes_reserved(*node));
                    synchronize_count(
                        Ghost(ctx),
                        record,
                        decoded_values,
                        path.as_str(),
                        *occurrence,
                        *value,
                        *remove_when_zero,
                        node,
                        *signature,
                        payload,
                        root, localized, decoders, selector, narrow, interpret,
                    )
                },
                _ => Err(encode_error(path.as_str(), "counter path is not a subrecord")),
            }
        },
        HandlerMutation::SynchronizePresence { path, occurrence, present, value } => synchronize_presence(
            Ghost(ctx),
            record,
            decoded_values,
            path.as_str(),
            *occurrence,
            *present,
            value,
            root, localized, decoders, selector, narrow, interpret,
        ),
        HandlerMutation::SetIfEqual { path, occurrence, expected, value } => apply_nested_set_if_equal(
            root,
            record,
            decoded_values,
            path.as_str(),
            *occurrence,
            expected,
            value.clone(),
            localized,
            decoders,
            selector,
            narrow,
            interpret,
        ),
    }
}

/// Applies handler mutations to a record and to the decoded values kept beside it, in
/// order, stopping at the first error (see [`applies_all`] and [`apply_mutation`]).
pub fn apply_mutations_with_values<D, S, N, C, F, G>(
    root: &SchemaNode,
    record_path: &str,
    record: &mut WritableRecord,
    decoded_values: &mut DecodedValues,
    mutations: Vec<HandlerMutation>,
    localized: bool,
    decoders: &DecoderRegistry<D>,
    selector: &S,
    narrow: &N,
    pick: &C,
    finish: &F,
    interpret: &G,
) -> (res: Result<(), SemanticError>)
    where
        D: CustomDecoder,
        S: Fn(&SchemaNode, usize, &Vec<u8>) -> Result<Option<i64>, SemanticError>,
        N: Fn(u64) -> u32,
        C: Fn(&SchemaNode) -> Result<i64, SemanticError>,
        F: Fn(&SchemaNode, OwnedFieldValue, &Vec<usize>) -> Result<OwnedFieldValue, SemanticError>,
        G: Fn(&WritableRecord) -> Result<GrammarMatch, SemanticError>,
    requires
        old(decoded_values).wf(),
        decoders.wf(),
        schema_reserved(*root),
        grammar_fits(*interpret),
        forall|bits: u64| narrow.requires((bits,)),
        forall|n: &SchemaNode, i: usize, p: &Vec<u8>| selector.requires((n, i, p)),
        forall|n: &SchemaNode| pick.requires((n,)),
        forall|n: &SchemaNode, v: OwnedFieldValue, ix: &Vec<usize>| finish.requires((n, v, ix)),
    ensures
        final(decoded_values).wf(),
        applies_all(context_of(
            *root,
            record_path@,
            decoders@,
            localized,
            *selector,
            *narrow,
            *pick,
            *finish,
            *interpret,
        ), (EditState { record: old(record)@, decoded: old(decoded_values)@ }), mutations@, 0, outcome(res, final(record)@, final(decoded_values)@)),
{
    let ghost ctx = context_of(
            *root,
            record_path@,
            decoders@,
            localized,
            *selector,
            *narrow,
            *pick,
            *finish,
            *interpret,
        );
    let ghost start = (EditState { record: old(record)@, decoded: old(decoded_values)@ });
    let mut i: usize = 0;
    while i < mutations.len()
        invariant
            decoded_values.wf(),
            decoders.wf(),
            schema_reserved(*root),
            grammar_fits(*interpret),
            forall|bits: u64| narrow.requires((bits,)),
            forall|n: &SchemaNode, k: usize, p: &Vec<u8>| selector.requires((n, k, p)),
            forall|n: &SchemaNode| pick.requires((n,)),
            forall|n: &SchemaNode, v: OwnedFieldValue, ix: &Vec<usize>| finish.requires((n, v, ix)),
            ctx == context_of(
            *root,
            record_path@,
            decoders@,
            localized,
            *selector,
            *narrow,
            *pick,
            *finish,
            *interpret,
        ),
            start == (EditState { record: old(record)@, decoded: old(decoded_values)@ }),
            i <= mutations@.len(),
            forall|out: Result<EditState, SemanticError>|
                applies_all(ctx, EditState { record: record@, decoded: decoded_values@ }, mutations@, i as nat, out)
                    ==> #[trigger] applies_all(ctx, start, mutations@, 0, out),
        decreases mutations.len() - i,
    {
        let ghost here = EditState { record: record@, decoded: decoded_values@ };
        let r = apply_mutation(
            root,
            record_path,
            record,
            decoded_values,
            &mutations[i],
            localized,
            decoders,
            selector,
            narrow,
            pick,
            finish,
            interpret,
        );
        proof {
            assert(candidate_state(outcome(r, record@, decoded_values@)));
        }
        match r {
            Err(e) => {
                assert(applies_all(ctx, here, mutations@, i as nat, Err(e)));
                return Err(e);
            },
            Ok(()) => {
                proof {
                    let next = EditState { record: record@, decoded: decoded_values@ };
                    assert forall|out: Result<EditState, SemanticError>|
                        applies_all(ctx, next, mutations@, (i + 1) as nat, out) implies #[trigger] applies_all(
                        ctx,
                        start,
                        mutations@,
                        0,
                        out,
                    ) by {
                        assert(applies_all(ctx, here, mutations@, i as nat, out));
                    }
                }
            },
        }
        i += 1;
    }
    proof {
        let here = EditState { record: record@, decoded: decoded_values@ };
        assert(applies_all(ctx, here, mutations@, i as nat, Ok(here)));
    }
    Ok(())
}

} // verus!
