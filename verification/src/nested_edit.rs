//! Writes below subrecord level: a value set at a path inside a subrecord's payload, or
//! set only when the value there equals an expected one. The containing subrecord's
//! decoded value is rebuilt as an owned value, the write is made inside it, and the
//! subrecord is encoded again together with its decoded value.
use vstd::prelude::*;
use vstd::string::*;

use crate::apply::{candidate_grammar, candidate_slot, located, missing_path_is, with_data, EditState};
use crate::assignment::{assigned_subrecord_index, GrammarMatch};
use crate::convert::{candidate_value, converts, owned_to_handler_value, value_of};
use crate::decoded::{lists_occurrences, DecodedKey, DecodedValues};
use crate::decoder::{CustomDecoder, DecoderRegistry, RegisteredDecoder};
use crate::editor::{encode_error, encode_error_is, owned_values_eq, owned_values_equal};
use crate::encode::{bytes_of, candidate, encode_node, encodes, narrowing_of, prefixes_reserved, selection_of};
use crate::model::{RecordView, WritableRecord};
use crate::mutation::{missing_occurrence, missing_occurrence_is};
use crate::nested::{
    candidate_lookup, candidate_update, lookup, lookup_of, nested_value_at, set_nested_value, update,
    update_of, Lookup, Update,
};
use crate::schema::{SchemaNode, SchemaNodeKind};
use crate::tree::{containing_subrecord, find_containing_subrecord};
use crate::value::{owned_form, owned_from_decoded, OwnedFieldValue, SemanticError, SpecFieldValue, SpecOwnedValue};

verus! {

/// What a write below subrecord level reads with: the record schema, how values are
/// encoded and decoded, and the grammar matches that records may give.
pub ghost struct NestedContext<D: CustomDecoder> {
    pub root: SchemaNode,
    pub decoders: Map<Seq<char>, RegisteredDecoder<D>>,
    pub localized: bool,
    pub selects: spec_fn(SchemaNode, usize, Seq<u8>, Result<Option<i64>, SemanticError>) -> bool,
    pub narrowed: spec_fn(u64, u32) -> bool,
    pub interprets: spec_fn(RecordView, Result<GrammarMatch, SemanticError>) -> bool,
}

/// Whether `out` is a possible place of the subrecord holding occurrence `occurrence`
/// of `path` in record `r`, by one of the record's grammar matches.
pub open spec fn places_occurrence<D: CustomDecoder>(
    ctx: NestedContext<D>,
    r: RecordView,
    path: Seq<char>,
    occurrence: nat,
    out: Result<Option<nat>, SemanticError>,
) -> bool {
    exists|g: Result<GrammarMatch, SemanticError>|
        #[trigger] candidate_grammar(g) && (ctx.interprets)(r, g) && out == located(g, path, occurrence)
}

/// Whether `out` is a possible outcome of writing `updated`, the new owned value of
/// occurrence `po` of the subrecord node `parent`, into subrecord `i` of state `s`: it is
/// encoded with the node's payload, the subrecord must have the node's signature, and
/// its decoded value is stored in place of the old one. On an error nothing changes.
pub open spec fn rewrites<D: CustomDecoder>(
    ctx: NestedContext<D>,
    s: EditState,
    parent: SchemaNode,
    po: usize,
    i: nat,
    updated: SpecOwnedValue,
    out: Result<EditState, SemanticError>,
) -> bool {
    match parent.kind {
        SchemaNodeKind::Subrecord { signature, payload } => exists|enc: Result<Seq<u8>, SemanticError>|
            #[trigger] candidate(enc) && encodes(
                ctx.decoders,
                ctx.localized,
                ctx.selects,
                ctx.narrowed,
                *payload,
                updated,
                enc,
            ) && match enc {
                Err(e) => out == Err::<EditState, SemanticError>(e),
                Ok(b) => if i >= s.record.subrecords.len() || s.record.subrecords[i as int].signature
                    != signature {
                    out matches Err(e) && encode_error_is(
                        e,
                        parent.path@,
                        "assigned subrecord signature does not match schema"@,
                    )
                } else {
                    exists|conv: Result<SpecFieldValue, SemanticError>|
                        #[trigger] candidate_value(conv) && converts(
                            ctx.decoders,
                            ctx.localized,
                            ctx.selects,
                            ctx.narrowed,
                            *payload,
                            updated,
                            conv,
                        ) && match conv {
                            Err(e) => out == Err::<EditState, SemanticError>(e),
                            Ok(fv) => out == Ok::<EditState, SemanticError>(
                                EditState {
                                    record: with_data(s.record, i, b),
                                    decoded: s.decoded.insert((parent.path@, po), fv),
                                },
                            ),
                        }
                },
            },
        _ => out matches Err(e) && encode_error_is(
            e,
            parent.path@,
            "containing schema node is not a subrecord"@,
        ),
    }
}

/// The owned value of the decoded occurrence `po` of `parent`'s path.
pub open spec fn current_of(s: EditState, parent: SchemaNode, po: usize) -> SpecOwnedValue {
    owned_form(s.decoded[(parent.path@, po)])
}

/// Whether `out` is a possible outcome of setting match `remaining` of `path` to `value`,
/// trying the decoded occurrences `occs` of the containing subrecord node `parent` from
/// position `k` on: in each, after its subrecord is located, the write is tried in its
/// owned value ([`update`]); the first that holds the match is rewritten. When none
/// does, occurrence `occurrence` of `path` is missing.
pub open spec fn sets_nested_from<D: CustomDecoder>(
    ctx: NestedContext<D>,
    s: EditState,
    parent: SchemaNode,
    path: Seq<char>,
    occurrence: usize,
    value: SpecOwnedValue,
    occs: Seq<usize>,
    k: nat,
    remaining: nat,
    out: Result<EditState, SemanticError>,
) -> bool
    decreases occs.len() - k,
{
    if k >= occs.len() {
        out matches Err(e) && missing_occurrence_is(e, path, occurrence as nat)
    } else {
        let po = occs[k as int];
        exists|l: Result<Option<nat>, SemanticError>|
            #[trigger] candidate_slot(l) && places_occurrence(ctx, s.record, parent.path@, po as nat, l) && match l {
                Err(e) => out == Err::<EditState, SemanticError>(e),
                Ok(None) => out matches Err(e) && missing_occurrence_is(e, parent.path@, po as nat),
                Ok(Some(i)) => exists|u: Result<Update, SemanticError>|
                    #[trigger] candidate_update(u) && update(
                        ctx.decoders,
                        ctx.localized,
                        ctx.selects,
                        ctx.narrowed,
                        parent,
                        current_of(s, parent, po),
                        path,
                        remaining,
                        Some(value),
                        u,
                    ) && match u {
                        Err(e) => out == Err::<EditState, SemanticError>(e),
                        Ok(Update::Missing(rest)) => sets_nested_from(
                            ctx,
                            s,
                            parent,
                            path,
                            occurrence,
                            value,
                            occs,
                            k + 1,
                            rest,
                            out,
                        ),
                        Ok(Update::Done(updated)) => rewrites(ctx, s, parent, po, i, updated, out),
                    },
            }
    }
}

/// Whether `out` is a possible outcome of setting occurrence `occurrence` of the nested
/// path `path` to `value` in state `s`. The path's containing subrecord node must exist;
/// its decoded occurrences are tried in increasing order (see [`sets_nested_from`]).
pub open spec fn sets_nested<D: CustomDecoder>(
    ctx: NestedContext<D>,
    s: EditState,
    path: Seq<char>,
    occurrence: usize,
    value: SpecOwnedValue,
    out: Result<EditState, SemanticError>,
) -> bool {
    match containing_subrecord(ctx.root, path, None) {
        None => out matches Err(e) && missing_path_is(e, path),
        Some(parent) => exists|occs: Seq<usize>|
            lists_occurrences(occs, s.decoded, parent.path@) && sets_nested_from(
                ctx,
                s,
                parent,
                path,
                occurrence,
                value,
                occs,
                0,
                occurrence as nat,
                out,
            ),
    }
}

/// Whether `out` is a possible outcome of setting match `remaining` of `path` to `value`
/// when the value there owned-equals `expected`, trying the decoded occurrences `occs`
/// of `parent` from position `k` on: the first occurrence that holds the match decides;
/// when its value differs from `expected` nothing changes, otherwise it is written as
/// [`sets_nested_from`] writes it.
pub open spec fn sets_nested_if_equal_from<D: CustomDecoder>(
    ctx: NestedContext<D>,
    s: EditState,
    parent: SchemaNode,
    path: Seq<char>,
    occurrence: usize,
    expected: SpecOwnedValue,
    value: SpecOwnedValue,
    occs: Seq<usize>,
    k: nat,
    remaining: nat,
    out: Result<EditState, SemanticError>,
) -> bool
    decreases occs.len() - k,
{
    if k >= occs.len() {
        out matches Err(e) && missing_occurrence_is(e, path, occurrence as nat)
    } else {
        let po = occs[k as int];
        let current = current_of(s, parent, po);
        exists|l: Result<Option<nat>, SemanticError>|
            #[trigger] candidate_slot(l) && places_occurrence(ctx, s.record, parent.path@, po as nat, l) && match l {
                Err(e) => out == Err::<EditState, SemanticError>(e),
                Ok(None) => out matches Err(e) && missing_occurrence_is(e, parent.path@, po as nat),
                Ok(Some(i)) => exists|f: Result<Lookup, SemanticError>|
                    #[trigger] candidate_lookup(f) && lookup(
                        ctx.decoders,
                        ctx.localized,
                        ctx.selects,
                        ctx.narrowed,
                        parent,
                        current,
                        path,
                        remaining,
                        f,
                    ) && match f {
                        Err(e) => out == Err::<EditState, SemanticError>(e),
                        Ok(Lookup::Missing(rest)) => sets_nested_if_equal_from(
                            ctx,
                            s,
                            parent,
                            path,
                            occurrence,
                            expected,
                            value,
                            occs,
                            k + 1,
                            rest,
                            out,
                        ),
                        Ok(Lookup::Found(found)) => if !owned_values_eq(found, expected) {
                            out == Ok::<EditState, SemanticError>(s)
                        } else {
                            exists|u: Result<Update, SemanticError>|
                                #[trigger] candidate_update(u) && update(
                                    ctx.decoders,
                                    ctx.localized,
                                    ctx.selects,
                                    ctx.narrowed,
                                    parent,
                                    current,
                                    path,
                                    remaining,
                                    Some(value),
                                    u,
                                ) && match u {
                                    Err(e) => out == Err::<EditState, SemanticError>(e),
                                    Ok(Update::Missing(_)) => out matches Err(e) && missing_occurrence_is(
                                        e,
                                        path,
                                        occurrence as nat,
                                    ),
                                    Ok(Update::Done(updated)) => rewrites(ctx, s, parent, po, i, updated, out),
                                }
                        },
                    },
            }
    }
}

/// Whether `out` is a possible outcome of setting occurrence `occurrence` of the nested
/// path `path` to `value` in state `s` when the value there owned-equals `expected` (see
/// [`sets_nested_if_equal_from`]).
pub open spec fn sets_nested_if_equal<D: CustomDecoder>(
    ctx: NestedContext<D>,
    s: EditState,
    path: Seq<char>,
    occurrence: usize,
    expected: SpecOwnedValue,
    value: SpecOwnedValue,
    out: Result<EditState, SemanticError>,
) -> bool {
    match containing_subrecord(ctx.root, path, None) {
        None => out matches Err(e) && missing_path_is(e, path),
        Some(parent) => exists|occs: Seq<usize>|
            lists_occurrences(occs, s.decoded, parent.path@) && sets_nested_if_equal_from(
                ctx,
                s,
                parent,
                path,
                occurrence,
                expected,
                value,
                occs,
                0,
                occurrence as nat,
                out,
            ),
    }
}

/// The context that the arguments of a nested write make up.
pub open spec fn nested_context_of<D: CustomDecoder, S, N, G>(
    root: SchemaNode,
    decoders: Map<Seq<char>, RegisteredDecoder<D>>,
    localized: bool,
    selector: S,
    narrow: N,
    interpret: G,
) -> NestedContext<D>
    where
        S: Fn(&SchemaNode, usize, &Vec<u8>) -> Result<Option<i64>, SemanticError>,
        N: Fn(u64) -> u32,
        G: Fn(&WritableRecord) -> Result<GrammarMatch, SemanticError>,
{
    NestedContext {
        root,
        decoders,
        localized,
        selects: selection_of(selector),
        narrowed: narrowing_of(narrow),
        interprets: crate::apply::interpreting_of(interpret),
    }
}

/// An outcome as a state: the record and decoded values reached, or the error.
pub open spec fn reached(res: Result<(), SemanticError>, r: RecordView, d: Map<DecodedKey, SpecFieldValue>) -> Result<
    EditState,
    SemanticError,
> {
    match res {
        Ok(_) => Ok(EditState { record: r, decoded: d }),
        Err(e) => Err(e),
    }
}

/// An index result as natural numbers.
pub open spec fn slot_view(res: Result<Option<usize>, SemanticError>) -> Result<Option<nat>, SemanticError> {
    match res {
        Ok(Some(i)) => Ok(Some(i as nat)),
        Ok(None) => Ok(None),
        Err(e) => Err(e),
    }
}

/// Locates the subrecord holding occurrence `occurrence` of `path` (see
/// [`places_occurrence`]).
pub(crate) fn place_occurrence<D: CustomDecoder, G>(
    Ghost(ctx): Ghost<NestedContext<D>>,
    record: &WritableRecord,
    path: &str,
    occurrence: usize,
    interpret: &G,
) -> (res: Result<Option<usize>, SemanticError>)
    where
        G: Fn(&WritableRecord) -> Result<GrammarMatch, SemanticError>,
    requires
        ctx.interprets == crate::apply::interpreting_of(*interpret),
        crate::apply::grammar_fits(*interpret),
    ensures
        places_occurrence(ctx, record@, path@, occurrence as nat, slot_view(res)),
        res matches Ok(Some(i)) ==> i < record.subrecords@.len(),
{
    let g = interpret(record);
    proof {
        reveal(crate::apply::interpreting_of);
        assert((ctx.interprets)(record@, g));
        assert(candidate_grammar(g));
    }
    let grammar = match g {
        Ok(grammar) => grammar,
        Err(e) => {
            return Err(e);
        },
    };
    match assigned_subrecord_index(&grammar, path, occurrence) {
        Ok(i) => {
            proof {
                assert(crate::apply::nth_assigned(grammar, path@, occurrence as nat, i as nat));
                let c = choose|c: nat| crate::apply::nth_assigned(grammar, path@, occurrence as nat, c);
                crate::apply::lemma_nth_unique(grammar, path@, occurrence as nat, i as nat, c);
            }
            Ok(Some(i))
        },
        Err(_) => Ok(None),
    }
}

/// Writes `updated` into subrecord `i` as occurrence `po` of `parent` (see
/// [`rewrites`]); on an error nothing changes.
pub(crate) fn rewrite<D, S, N>(
    Ghost(ctx): Ghost<NestedContext<D>>,
    record: &mut WritableRecord,
    decoded_values: &mut DecodedValues,
    parent: &SchemaNode,
    po: usize,
    i: usize,
    updated: &OwnedFieldValue,
    localized: bool,
    decoders: &DecoderRegistry<D>,
    selector: &S,
    narrow: &N,
) -> (res: Result<(), SemanticError>)
    where
        D: CustomDecoder,
        S: Fn(&SchemaNode, usize, &Vec<u8>) -> Result<Option<i64>, SemanticError>,
        N: Fn(u64) -> u32,
    requires
        ctx.decoders == decoders@,
        ctx.localized == localized,
        ctx.selects == selection_of(*selector),
        ctx.narrowed == narrowing_of(*narrow),
        old(decoded_values).wf(),
        decoders.wf(),
        prefixes_reserved(*parent),
        forall|bits: u64| narrow.requires((bits,)),
        forall|n: &SchemaNode, k: usize, p: &Vec<u8>| selector.requires((n, k, p)),
    ensures
        final(decoded_values).wf(),
        rewrites(
            ctx,
            EditState { record: old(record)@, decoded: old(decoded_values)@ },
            *parent,
            po,
            i as nat,
            updated@,
            reached(res, final(record)@, final(decoded_values)@),
        ),
        res is Err ==> final(record)@ == old(record)@ && final(decoded_values)@ == old(decoded_values)@,
{
    match &parent.kind {
        SchemaNodeKind::Subrecord { signature, payload } => {
            let enc = encode_node(payload, updated, localized, decoders, selector, narrow);
            assert(candidate(bytes_of(enc)));
            let bytes = match enc {
                Ok(b) => b,
                Err(e) => {
                    return Err(e);
                },
            };
            if i >= record.subrecords.len() || !crate::apply::same_signature(
                record.subrecords[i].signature,
                *signature,
            ) {
                return Err(encode_error(parent.path.as_str(), "assigned subrecord signature does not match schema"));
            }
            let conv = owned_to_handler_value(payload, updated, localized, decoders, selector, narrow);
            assert(candidate_value(value_of(conv)));
            let decoded = match conv {
                Ok(v) => v,
                Err(e) => {
                    return Err(e);
                },
            };
            crate::apply::set_payload(record, i, bytes);
            decoded_values.insert(parent.path.clone(), po, decoded);
            Ok(())
        },
        _ => Err(encode_error(parent.path.as_str(), "containing schema node is not a subrecord")),
    }
}

/// Sets occurrence `occurrence` of the nested path `path` to `value` (see
/// [`sets_nested`]): the containing subrecord that holds the occurrence is rebuilt from
/// its decoded value with the write made inside it, encoded again, and its decoded value
/// stored. `root` is the record schema and `interpret` matches a record against its
/// grammar; the other arguments are those of [`crate::encode::encode_node`]. On an error
/// nothing changes.
pub fn apply_nested_set<D, S, N, G>(
    root: &SchemaNode,
    record: &mut WritableRecord,
    decoded_values: &mut DecodedValues,
    path: &str,
    occurrence: usize,
    value: OwnedFieldValue,
    localized: bool,
    decoders: &DecoderRegistry<D>,
    selector: &S,
    narrow: &N,
    interpret: &G,
) -> (res: Result<(), SemanticError>)
    where
        D: CustomDecoder,
        S: Fn(&SchemaNode, usize, &Vec<u8>) -> Result<Option<i64>, SemanticError>,
        N: Fn(u64) -> u32,
        G: Fn(&WritableRecord) -> Result<GrammarMatch, SemanticError>,
    requires
        old(decoded_values).wf(),
        decoders.wf(),
        crate::apply::schema_reserved(*root),
        crate::apply::grammar_fits(*interpret),
        forall|bits: u64| narrow.requires((bits,)),
        forall|n: &SchemaNode, i: usize, p: &Vec<u8>| selector.requires((n, i, p)),
    ensures
        final(decoded_values).wf(),
        sets_nested(
            nested_context_of(*root, decoders@, localized, *selector, *narrow, *interpret),
            EditState { record: old(record)@, decoded: old(decoded_values)@ },
            path@,
            occurrence,
            value@,
            reached(res, final(record)@, final(decoded_values)@),
        ),
        res is Err ==> final(record)@ == old(record)@ && final(decoded_values)@ == old(decoded_values)@,
{
    let ghost ctx = nested_context_of(*root, decoders@, localized, *selector, *narrow, *interpret);
    let ghost s = EditState { record: record@, decoded: decoded_values@ };
    let ghost value_view = value@;
    let parent = match find_containing_subrecord(root, path) {
        Some(p) => p,
        None => {
            return Err(SemanticError::MissingPath(path.to_owned()));
        },
    };
    assert(crate::tree::opt_node(Some(parent)) == Some(*parent));
    assert(prefixes_reserved(*parent));
    let occs = decoded_values.occurrences(parent.path.as_str());
    let mut remaining = occurrence;
    let mut replacement = Some(value);
    let mut k: usize = 0;
    while k < occs.len()
        invariant
            decoded_values.wf(),
            decoders.wf(),
            prefixes_reserved(*parent),
            crate::apply::grammar_fits(*interpret),
            forall|bits: u64| narrow.requires((bits,)),
            forall|n: &SchemaNode, i: usize, p: &Vec<u8>| selector.requires((n, i, p)),
            ctx == nested_context_of(*root, decoders@, localized, *selector, *narrow, *interpret),
            s == (EditState { record: old(record)@, decoded: old(decoded_values)@ }),
            record@ == s.record,
            decoded_values@ == s.decoded,
            lists_occurrences(occs@, s.decoded, parent.path@),
            containing_subrecord(*root, path@, None) == Some(*parent),
            crate::nested::owned_option(replacement) == Some(value_view),
            value_view == value@,
            k <= occs@.len(),
            forall|out: Result<EditState, SemanticError>|
                sets_nested_from(ctx, s, *parent, path@, occurrence, value_view, occs@, k as nat, remaining as nat, out)
                    ==> #[trigger] sets_nested_from(
                    ctx,
                    s,
                    *parent,
                    path@,
                    occurrence,
                    value_view,
                    occs@,
                    0,
                    occurrence as nat,
                    out,
                ),
        decreases occs.len() - k,
    {
        let ghost here = remaining as nat;
        let po = occs[k];
        assert(occs@.contains(po));
        let current = decoded_values.get(parent.path.as_str(), po);
        let mut updated = match current {
            Some(c) => owned_from_decoded(c),
            None => {
                assert(false);
                return Err(missing_occurrence(parent.path.as_str(), po));
            },
        };
        assert(updated@ == current_of(s, *parent, po));
        let l = place_occurrence::<D, G>(Ghost(ctx), record, parent.path.as_str(), po, interpret);
        assert(candidate_slot(slot_view(l)));
        let i = match l {
            Err(e) => {
                assert(sets_nested_from(ctx, s, *parent, path@, occurrence, value_view, occs@, k as nat, here, Err(e)));
                assert(sets_nested_from(ctx, s, *parent, path@, occurrence, value_view, occs@, 0, occurrence as nat, Err(e)));
                assert(sets_nested(ctx, s, path@, occurrence, value_view, Err(e)));
                return Err(e);
            },
            Ok(None) => {
                let e = missing_occurrence(parent.path.as_str(), po);
                assert(sets_nested_from(ctx, s, *parent, path@, occurrence, value_view, occs@, k as nat, here, Err(e)));
                return Err(e);
            },
            Ok(Some(i)) => i,
        };
        let ghost before = updated@;
        let r = set_nested_value(
            parent,
            &mut updated,
            path,
            &mut remaining,
            &mut replacement,
            localized,
            decoders,
            selector,
            narrow,
        );
        assert(candidate_update(update_of(r, updated@, remaining)));
        match r {
            Err(e) => {
                assert(sets_nested_from(ctx, s, *parent, path@, occurrence, value_view, occs@, k as nat, here, Err(e)));
                assert(sets_nested_from(ctx, s, *parent, path@, occurrence, value_view, occs@, 0, occurrence as nat, Err(e)));
                assert(sets_nested(ctx, s, path@, occurrence, value_view, Err(e)));
                return Err(e);
            },
            Ok(true) => {
                let w = rewrite(
                    Ghost(ctx),
                    record,
                    decoded_values,
                    parent,
                    po,
                    i,
                    &updated,
                    localized,
                    decoders,
                    selector,
                    narrow,
                );
                assert(sets_nested_from(
                    ctx,
                    s,
                    *parent,
                    path@,
                    occurrence,
                    value_view,
                    occs@,
                    k as nat,
                    here,
                    reached(w, record@, decoded_values@),
                ));
                return w;
            },
            Ok(false) => {},
        }
        proof {
            assert forall|out: Result<EditState, SemanticError>|
                sets_nested_from(ctx, s, *parent, path@, occurrence, value_view, occs@, (k + 1) as nat, remaining as nat, out)
                    implies #[trigger] sets_nested_from(
                    ctx,
                    s,
                    *parent,
                    path@,
                    occurrence,
                    value_view,
                    occs@,
                    0,
                    occurrence as nat,
                    out,
                ) by {
                assert(sets_nested_from(ctx, s, *parent, path@, occurrence, value_view, occs@, k as nat, here, out));
            }
        }
        k += 1;
    }
    let e = missing_occurrence(path, occurrence);
    assert(sets_nested_from(ctx, s, *parent, path@, occurrence, value_view, occs@, k as nat, remaining as nat, Err(e)));
    Err(e)
}

/// Sets occurrence `occurrence` of the nested path `path` to `value` when the value there
/// owned-equals `expected` (see [`sets_nested_if_equal`]); when it differs nothing
/// changes. The other arguments are those of [`apply_nested_set`]. On an error nothing
/// changes.
pub fn apply_nested_set_if_equal<D, S, N, G>(
    root: &SchemaNode,
    record: &mut WritableRecord,
    decoded_values: &mut DecodedValues,
    path: &str,
    occurrence: usize,
    expected: &OwnedFieldValue,
    value: OwnedFieldValue,
    localized: bool,
    decoders: &DecoderRegistry<D>,
    selector: &S,
    narrow: &N,
    interpret: &G,
) -> (res: Result<(), SemanticError>)
    where
        D: CustomDecoder,
        S: Fn(&SchemaNode, usize, &Vec<u8>) -> Result<Option<i64>, SemanticError>,
        N: Fn(u64) -> u32,
        G: Fn(&WritableRecord) -> Result<GrammarMatch, SemanticError>,
    requires
        old(decoded_values).wf(),
        decoders.wf(),
        crate::apply::schema_reserved(*root),
        crate::apply::grammar_fits(*interpret),
        forall|bits: u64| narrow.requires((bits,)),
        forall|n: &SchemaNode, i: usize, p: &Vec<u8>| selector.requires((n, i, p)),
    ensures
        final(decoded_values).wf(),
        sets_nested_if_equal(
            nested_context_of(*root, decoders@, localized, *selector, *narrow, *interpret),
            EditState { record: old(record)@, decoded: old(decoded_values)@ },
            path@,
            occurrence,
            expected@,
            value@,
            reached(res, final(record)@, final(decoded_values)@),
        ),
        res is Err ==> final(record)@ == old(record)@ && final(decoded_values)@ == old(decoded_values)@,
{
    let ghost ctx = nested_context_of(*root, decoders@, localized, *selector, *narrow, *interpret);
    let ghost s = EditState { record: record@, decoded: decoded_values@ };
    let ghost value_view = value@;
    let parent = match find_containing_subrecord(root, path) {
        Some(p) => p,
        None => {
            return Err(SemanticError::MissingPath(path.to_owned()));
        },
    };
    assert(crate::tree::opt_node(Some(parent)) == Some(*parent));
    assert(prefixes_reserved(*parent));
    let occs = decoded_values.occurrences(parent.path.as_str());
    let mut remaining = occurrence;
    let mut k: usize = 0;
    while k < occs.len()
        invariant
            decoded_values.wf(),
            decoders.wf(),
            prefixes_reserved(*parent),
            crate::apply::grammar_fits(*interpret),
            forall|bits: u64| narrow.requires((bits,)),
            forall|n: &SchemaNode, i: usize, p: &Vec<u8>| selector.requires((n, i, p)),
            ctx == nested_context_of(*root, decoders@, localized, *selector, *narrow, *interpret),
            s == (EditState { record: old(record)@, decoded: old(decoded_values)@ }),
            record@ == s.record,
            decoded_values@ == s.decoded,
            lists_occurrences(occs@, s.decoded, parent.path@),
            containing_subrecord(*root, path@, None) == Some(*parent),
            value_view == value@,
            k <= occs@.len(),
            forall|out: Result<EditState, SemanticError>|
                sets_nested_if_equal_from(
                    ctx,
                    s,
                    *parent,
                    path@,
                    occurrence,
                    expected@,
                    value_view,
                    occs@,
                    k as nat,
                    remaining as nat,
                    out,
                ) ==> #[trigger] sets_nested_if_equal_from(
                    ctx,
                    s,
                    *parent,
                    path@,
                    occurrence,
                    expected@,
                    value_view,
                    occs@,
                    0,
                    occurrence as nat,
                    out,
                ),
        decreases occs.len() - k,
    {
        let ghost here = remaining as nat;
        let po = occs[k];
        assert(occs@.contains(po));
        let current = decoded_values.get(parent.path.as_str(), po);
        let mut updated = match current {
            Some(c) => owned_from_decoded(c),
            None => {
                assert(false);
                return Err(missing_occurrence(parent.path.as_str(), po));
            },
        };
        assert(updated@ == current_of(s, *parent, po));
        let l = place_occurrence::<D, G>(Ghost(ctx), record, parent.path.as_str(), po, interpret);
        assert(candidate_slot(slot_view(l)));
        let i = match l {
            Err(e) => {
                assert(sets_nested_if_equal_from(ctx, s, *parent, path@, occurrence, expected@, value_view, occs@, k as nat, here, Err(e)));
                return Err(e);
            },
            Ok(None) => {
                let e = missing_occurrence(parent.path.as_str(), po);
                assert(sets_nested_if_equal_from(ctx, s, *parent, path@, occurrence, expected@, value_view, occs@, k as nat, here, Err(e)));
                return Err(e);
            },
            Ok(Some(i)) => i,
        };
        let local = remaining;
        let mut probed = remaining;
        let found = nested_value_at(parent, &updated, path, &mut probed, localized, decoders, selector, narrow);
        assert(candidate_lookup(lookup_of(found, probed)));
        let equal = match found {
            Err(e) => {
                assert(sets_nested_if_equal_from(ctx, s, *parent, path@, occurrence, expected@, value_view, occs@, k as nat, here, Err(e)));
                return Err(e);
            },
            Ok(None) => {
                remaining = probed;
                proof {
                    assert forall|out: Result<EditState, SemanticError>|
                        sets_nested_if_equal_from(
                            ctx,
                            s,
                            *parent,
                            path@,
                            occurrence,
                            expected@,
                            value_view,
                            occs@,
                            (k + 1) as nat,
                            remaining as nat,
                            out,
                        ) implies #[trigger] sets_nested_if_equal_from(
                        ctx,
                        s,
                        *parent,
                        path@,
                        occurrence,
                        expected@,
                        value_view,
                        occs@,
                        0,
                        occurrence as nat,
                        out,
                    ) by {
                        assert(sets_nested_if_equal_from(ctx, s, *parent, path@, occurrence, expected@, value_view, occs@, k as nat, here, out));
                    }
                }
                k += 1;
                continue;
            },
            Ok(Some(v)) => owned_values_equal(v, expected),
        };
        if !equal {
            assert(sets_nested_if_equal_from(ctx, s, *parent, path@, occurrence, expected@, value_view, occs@, k as nat, here, Ok(s)));
            return Ok(());
        }
        let mut target = local;
        let mut replacement = Some(value);
        let r = set_nested_value(
            parent,
            &mut updated,
            path,
            &mut target,
            &mut replacement,
            localized,
            decoders,
            selector,
            narrow,
        );
        assert(candidate_update(update_of(r, updated@, target)));
        match r {
            Err(e) => {
                assert(sets_nested_if_equal_from(ctx, s, *parent, path@, occurrence, expected@, value_view, occs@, k as nat, here, Err(e)));
                return Err(e);
            },
            Ok(false) => {
                let e = missing_occurrence(path, occurrence);
                assert(sets_nested_if_equal_from(ctx, s, *parent, path@, occurrence, expected@, value_view, occs@, k as nat, here, Err(e)));
                return Err(e);
            },
            Ok(true) => {
                let w = rewrite(
                    Ghost(ctx),
                    record,
                    decoded_values,
                    parent,
                    po,
                    i,
                    &updated,
                    localized,
                    decoders,
                    selector,
                    narrow,
                );
                assert(sets_nested_if_equal_from(
                    ctx,
                    s,
                    *parent,
                    path@,
                    occurrence,
                    expected@,
                    value_view,
                    occs@,
                    k as nat,
                    here,
                    reached(w, record@, decoded_values@),
                ));
                return w;
            },
        }
    }
    let e = missing_occurrence(path, occurrence);
    assert(sets_nested_if_equal_from(ctx, s, *parent, path@, occurrence, expected@, value_view, occs@, k as nat, remaining as nat, Err(e)));
    Err(e)
}

} // verus!
