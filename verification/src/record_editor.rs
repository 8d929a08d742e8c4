//! An editor for one record: the record, its decoded field values and the schema and
//! callback bindings it is edited with. Opening the record runs its after-load
//! migrations and decodes it; each edit is one transaction (see [`crate::editing`]).
use vstd::prelude::*;

use crate::after_load::{apply_after_load_callbacks, counted_of, runs_after_load_from, suffixing_of};
use crate::after_set::after_set_context_of;
use crate::apply::{context_of, grammar_fits, schema_reserved};
use crate::assignment::GrammarMatch;
use crate::changes::record_invoking_of;
use crate::context::{CallbackBinding, HandlerOutput};
use crate::decoded::{DecodedKey, DecodedValues};
use crate::decoder::{CustomDecoder, DecoderRegistry};
use crate::editing::{insert_field, inserts_field, normalizing_of, remove_field, removes_field, set_value, sets_field};
use crate::metadata::{flagged, set_record_editor_id, sets_editor_id};
use crate::model::{RecordView, WritableRecord};
use crate::mutation::HandlerMutation;
use crate::nested_edit::{nested_context_of, reached};
use crate::parsed_edit::{set_parsed_value, sets_parsed};
use crate::schema::SchemaNode;
use crate::value::{FieldValue, OwnedFieldValue, SemanticError, SpecFieldValue};

verus! {

/// A record being edited. `root` is the record schema, whose path is the record's path;
/// `decoded_values` are the record's decoded field values; `bindings` are the schema
/// package's callback bindings; `after_load_migrations` counts the after-load outputs that
/// changed the record when it was opened.
pub struct RecordEditor {
    pub root: SchemaNode,
    pub record: WritableRecord,
    pub decoded_values: DecodedValues,
    pub bindings: Vec<CallbackBinding>,
    pub localized: bool,
    pub after_load_migrations: usize,
}

/// The decoded values that a decoder may give for a record.
#[verifier::opaque]
pub open spec fn decoding_of<L: Fn(&WritableRecord) -> Result<DecodedValues, SemanticError>>(
    decode: L,
) -> spec_fn(RecordView, Result<Map<DecodedKey, SpecFieldValue>, SemanticError>) -> bool {
    |r: RecordView, out: Result<Map<DecodedKey, SpecFieldValue>, SemanticError>|
        exists|rec: WritableRecord, res: Result<DecodedValues, SemanticError>|
            rec@ == r && match res {
                Ok(d) => out == Ok::<Map<DecodedKey, SpecFieldValue>, SemanticError>(d@),
                Err(e) => out == Err::<Map<DecodedKey, SpecFieldValue>, SemanticError>(e),
            } && #[trigger] decode.ensures((&rec,), res)
}

impl RecordEditor {
    /// The editor's state is well formed.
    pub open spec fn wf(&self) -> bool {
        self.decoded_values.wf()
    }

    /// Opens `record` for editing with the record schema `root`: its after-load
    /// callbacks run (see [`crate::after_load::apply_after_load_callbacks`]) and the
    /// migrated record is decoded with `decode`, which stands for the decoding layer.
    /// An error of either is returned. The other arguments are those of
    /// [`crate::after_load::apply_after_load_callbacks`].
    pub fn new<D, S, N, C, F, G, A, R, L>(
        root: SchemaNode,
        record: WritableRecord,
        localized: bool,
        bindings: Vec<CallbackBinding>,
        decoders: &DecoderRegistry<D>,
        selector: &S,
        narrow: &N,
        pick: &C,
        finish: &F,
        interpret: &G,
        suffix_of: &A,
        invoke: &R,
        decode: &L,
    ) -> (res: Result<RecordEditor, SemanticError>)
        where
            D: CustomDecoder,
            S: Fn(&SchemaNode, usize, &Vec<u8>) -> Result<Option<i64>, SemanticError>,
            N: Fn(u64) -> u32,
            C: Fn(&SchemaNode) -> Result<i64, SemanticError>,
            F: Fn(&SchemaNode, OwnedFieldValue, &Vec<usize>) -> Result<OwnedFieldValue, SemanticError>,
            G: Fn(&WritableRecord) -> Result<GrammarMatch, SemanticError>,
            A: Fn(&CallbackBinding) -> Option<String>,
            R: Fn(&CallbackBinding, &WritableRecord, Option<usize>, Option<&FieldValue>, Option<&FieldValue>) -> Result<HandlerOutput, SemanticError>,
            L: Fn(&WritableRecord) -> Result<DecodedValues, SemanticError>,
        requires
            decoders.wf(),
            schema_reserved(root),
            grammar_fits(*interpret),
            forall|bits: u64| narrow.requires((bits,)),
            forall|n: &SchemaNode, i: usize, p: &Vec<u8>| selector.requires((n, i, p)),
            forall|n: &SchemaNode| pick.requires((n,)),
            forall|n: &SchemaNode, v: OwnedFieldValue, ix: &Vec<usize>| finish.requires((n, v, ix)),
            forall|b: &CallbackBinding| suffix_of.requires((b,)),
            forall|b: &CallbackBinding, r: &WritableRecord, i: Option<usize>, v: Option<&FieldValue>, o: Option<&FieldValue>|
                invoke.requires((b, r, i, v, o)),
            forall|r: &WritableRecord| decode.requires((r,)),
            forall|r: &WritableRecord, d: DecodedValues| #[trigger] decode.ensures((r,), Ok::<DecodedValues, SemanticError>(d)) ==> d.wf(),
        ensures
            res matches Ok(ed) ==> {
                &&& ed.wf()
                &&& ed.root == root
                &&& ed.localized == localized
                &&& ed.bindings@ == bindings@
                &&& runs_after_load_from(
                    context_of(root, root.path@, decoders@, localized, *selector, *narrow, *pick, *finish, *interpret),
                    record_invoking_of(*invoke),
                    suffixing_of(*suffix_of),
                    bindings@,
                    0,
                    record@,
                    0,
                    Ok((ed.record@, ed.after_load_migrations)),
                )
                &&& decoding_of(*decode)(ed.record@, Ok(ed.decoded_values@))
            },
            res matches Err(e) ==> runs_after_load_from(
                context_of(root, root.path@, decoders@, localized, *selector, *narrow, *pick, *finish, *interpret),
                record_invoking_of(*invoke),
                suffixing_of(*suffix_of),
                bindings@,
                0,
                record@,
                0,
                Err(e),
            ) || exists|r2: RecordView, c: usize|
                #[trigger] runs_after_load_from(
                    context_of(root, root.path@, decoders@, localized, *selector, *narrow, *pick, *finish, *interpret),
                    record_invoking_of(*invoke),
                    suffixing_of(*suffix_of),
                    bindings@,
                    0,
                    record@,
                    0,
                    Ok((r2, c)),
                ) && #[trigger] decoding_of(*decode)(r2, Err(e)),
    {
        let mut record = record;
        let migrated = apply_after_load_callbacks(
            &root,
            root.path.as_str(),
            &mut record,
            &bindings,
            localized,
            decoders,
            selector,
            narrow,
            pick,
            finish,
            interpret,
            suffix_of,
            invoke,
        );
        let after_load_migrations = match migrated {
            Ok(c) => c,
            Err(e) => {
                return Err(e);
            },
        };
        let decoded = decode(&record);
        proof {
            reveal(decoding_of);
        }
        match decoded {
            Ok(decoded_values) => Ok(RecordEditor { root, record, decoded_values, bindings, localized, after_load_migrations }),
            Err(e) => {
                proof {
                    assert(decoding_of(*decode)(record@, Err(e)));
                    assert(counted_of(Ok::<usize, SemanticError>(after_load_migrations), record@) == Ok::<(RecordView, usize), SemanticError>((record@, after_load_migrations)));
                }
                Err(e)
            },
        }
    }

    /// Sets occurrence `occurrence` of the top-level field at `path` to `value`, as one
    /// transaction (see [`crate::editing::set_value`]). The closures are those of
    /// [`crate::editing::set_value`].
    pub fn set<D, S, N, C, F, G, T, I, R>(
        &mut self,
        path: &str,
        occurrence: usize,
        value: &OwnedFieldValue,
        decoders: &DecoderRegistry<D>,
        selector: &S,
        narrow: &N,
        pick: &C,
        finish: &F,
        interpret: &G,
        normalize: &T,
        after_set: &I,
        after_set_record: &R,
    ) -> (res: Result<(), SemanticError>)
        where
            D: CustomDecoder,
            S: Fn(&SchemaNode, usize, &Vec<u8>) -> Result<Option<i64>, SemanticError>,
            N: Fn(u64) -> u32,
            C: Fn(&SchemaNode) -> Result<i64, SemanticError>,
            F: Fn(&SchemaNode, OwnedFieldValue, &Vec<usize>) -> Result<OwnedFieldValue, SemanticError>,
            G: Fn(&WritableRecord) -> Result<GrammarMatch, SemanticError>,
            T: Fn(&str, &OwnedFieldValue) -> Result<OwnedFieldValue, SemanticError>,
            I: Fn(&CallbackBinding, &FieldValue, Option<&FieldValue>) -> Result<HandlerOutput, SemanticError>,
            R: Fn(&CallbackBinding, &WritableRecord, Option<usize>, Option<&FieldValue>, Option<&FieldValue>) -> Result<HandlerOutput, SemanticError>,
        requires
            old(self).wf(),
            decoders.wf(),
            schema_reserved(old(self).root),
            grammar_fits(*interpret),
            forall|bits: u64| narrow.requires((bits,)),
            forall|n: &SchemaNode, i: usize, p: &Vec<u8>| selector.requires((n, i, p)),
            forall|n: &SchemaNode| pick.requires((n,)),
            forall|n: &SchemaNode, v: OwnedFieldValue, ix: &Vec<usize>| finish.requires((n, v, ix)),
            forall|p: &str, v: &OwnedFieldValue| normalize.requires((p, v)),
            forall|b: &CallbackBinding, c: &FieldValue, o: Option<&FieldValue>| after_set.requires((b, c, o)),
            forall|b: &CallbackBinding, r: &WritableRecord, i: Option<usize>, v: Option<&FieldValue>, o: Option<&FieldValue>|
                after_set_record.requires((b, r, i, v, o)),
        ensures
            final(self).wf(),
            final(self).root == old(self).root,
            final(self).bindings == old(self).bindings,
            final(self).localized == old(self).localized,
            final(self).after_load_migrations == old(self).after_load_migrations,
            sets_field(
                context_of(old(self).root, old(self).root.path@, decoders@, old(self).localized, *selector, *narrow, *pick, *finish, *interpret),
                after_set_context_of(old(self).bindings, decoders@, old(self).localized, *selector, *narrow, *pick, *finish, *after_set),
                normalizing_of(*normalize),
                record_invoking_of(*after_set_record),
                old(self).bindings@,
                crate::apply::EditState { record: old(self).record@, decoded: old(self).decoded_values@ },
                path@,
                occurrence,
                value@,
                reached(res, final(self).record@, final(self).decoded_values@),
            ),
            res is Err ==> final(self).record@ == old(self).record@ && final(self).decoded_values@
                == old(self).decoded_values@,
    {
        set_value(
            &self.root,
            self.root.path.as_str(),
            &mut self.record,
            &mut self.decoded_values,
            path,
            occurrence,
            value,
            &self.bindings,
            self.localized,
            decoders,
            selector,
            narrow,
            pick,
            finish,
            interpret,
            normalize,
            after_set,
            after_set_record,
        )
    }

    /// Inserts a new occurrence of the top-level field at `path` with `value`, after the
    /// existing ones, as one transaction (see [`crate::editing::insert_field`]). The
    /// closures are those of [`crate::editing::set_value`].
    pub fn insert<D, S, N, C, F, G, T, I, R>(
        &mut self,
        path: &str,
        value: &OwnedFieldValue,
        decoders: &DecoderRegistry<D>,
        selector: &S,
        narrow: &N,
        pick: &C,
        finish: &F,
        interpret: &G,
        normalize: &T,
        after_set: &I,
        after_set_record: &R,
    ) -> (res: Result<(), SemanticError>)
        where
            D: CustomDecoder,
            S: Fn(&SchemaNode, usize, &Vec<u8>) -> Result<Option<i64>, SemanticError>,
            N: Fn(u64) -> u32,
            C: Fn(&SchemaNode) -> Result<i64, SemanticError>,
            F: Fn(&SchemaNode, OwnedFieldValue, &Vec<usize>) -> Result<OwnedFieldValue, SemanticError>,
            G: Fn(&WritableRecord) -> Result<GrammarMatch, SemanticError>,
            T: Fn(&str, &OwnedFieldValue) -> Result<OwnedFieldValue, SemanticError>,
            I: Fn(&CallbackBinding, &FieldValue, Option<&FieldValue>) -> Result<HandlerOutput, SemanticError>,
            R: Fn(&CallbackBinding, &WritableRecord, Option<usize>, Option<&FieldValue>, Option<&FieldValue>) -> Result<HandlerOutput, SemanticError>,
        requires
            old(self).wf(),
            decoders.wf(),
            schema_reserved(old(self).root),
            grammar_fits(*interpret),
            forall|bits: u64| narrow.requires((bits,)),
            forall|n: &SchemaNode, i: usize, p: &Vec<u8>| selector.requires((n, i, p)),
            forall|n: &SchemaNode| pick.requires((n,)),
            forall|n: &SchemaNode, v: OwnedFieldValue, ix: &Vec<usize>| finish.requires((n, v, ix)),
            forall|p: &str, v: &OwnedFieldValue| normalize.requires((p, v)),
            forall|b: &CallbackBinding, c: &FieldValue, o: Option<&FieldValue>| after_set.requires((b, c, o)),
            forall|b: &CallbackBinding, r: &WritableRecord, i: Option<usize>, v: Option<&FieldValue>, o: Option<&FieldValue>|
                after_set_record.requires((b, r, i, v, o)),
        ensures
            final(self).wf(),
            final(self).root == old(self).root,
            final(self).bindings == old(self).bindings,
            final(self).localized == old(self).localized,
            final(self).after_load_migrations == old(self).after_load_migrations,
            inserts_field(
                context_of(old(self).root, old(self).root.path@, decoders@, old(self).localized, *selector, *narrow, *pick, *finish, *interpret),
                after_set_context_of(old(self).bindings, decoders@, old(self).localized, *selector, *narrow, *pick, *finish, *after_set),
                normalizing_of(*normalize),
                record_invoking_of(*after_set_record),
                old(self).bindings@,
                crate::apply::EditState { record: old(self).record@, decoded: old(self).decoded_values@ },
                path@,
                value@,
                reached(res, final(self).record@, final(self).decoded_values@),
            ),
            res is Err ==> final(self).record@ == old(self).record@ && final(self).decoded_values@
                == old(self).decoded_values@,
    {
        insert_field(
            &self.root,
            self.root.path.as_str(),
            &mut self.record,
            &mut self.decoded_values,
            path,
            value,
            &self.bindings,
            self.localized,
            decoders,
            selector,
            narrow,
            pick,
            finish,
            interpret,
            normalize,
            after_set,
            after_set_record,
        )
    }

    /// Removes occurrence `occurrence` of the top-level field at `path`, as one
    /// transaction (see [`crate::editing::remove_field`]). The closures are those of
    /// [`crate::editing::set_value`].
    pub fn remove<D, S, N, C, F, G, R>(
        &mut self,
        path: &str,
        occurrence: usize,
        decoders: &DecoderRegistry<D>,
        selector: &S,
        narrow: &N,
        pick: &C,
        finish: &F,
        interpret: &G,
        after_set_record: &R,
    ) -> (res: Result<(), SemanticError>)
        where
            D: CustomDecoder,
            S: Fn(&SchemaNode, usize, &Vec<u8>) -> Result<Option<i64>, SemanticError>,
            N: Fn(u64) -> u32,
            C: Fn(&SchemaNode) -> Result<i64, SemanticError>,
            F: Fn(&SchemaNode, OwnedFieldValue, &Vec<usize>) -> Result<OwnedFieldValue, SemanticError>,
            G: Fn(&WritableRecord) -> Result<GrammarMatch, SemanticError>,
            R: Fn(&CallbackBinding, &WritableRecord, Option<usize>, Option<&FieldValue>, Option<&FieldValue>) -> Result<HandlerOutput, SemanticError>,
        requires
            old(self).wf(),
            decoders.wf(),
            schema_reserved(old(self).root),
            grammar_fits(*interpret),
            forall|bits: u64| narrow.requires((bits,)),
            forall|n: &SchemaNode, i: usize, p: &Vec<u8>| selector.requires((n, i, p)),
            forall|n: &SchemaNode| pick.requires((n,)),
            forall|n: &SchemaNode, v: OwnedFieldValue, ix: &Vec<usize>| finish.requires((n, v, ix)),
            forall|b: &CallbackBinding, r: &WritableRecord, i: Option<usize>, v: Option<&FieldValue>, o: Option<&FieldValue>|
                after_set_record.requires((b, r, i, v, o)),
        ensures
            final(self).wf(),
            final(self).root == old(self).root,
            final(self).bindings == old(self).bindings,
            final(self).localized == old(self).localized,
            final(self).after_load_migrations == old(self).after_load_migrations,
            removes_field(
                context_of(old(self).root, old(self).root.path@, decoders@, old(self).localized, *selector, *narrow, *pick, *finish, *interpret),
                record_invoking_of(*after_set_record),
                old(self).bindings@,
                crate::apply::EditState { record: old(self).record@, decoded: old(self).decoded_values@ },
                path@,
                occurrence,
                reached(res, final(self).record@, final(self).decoded_values@),
            ),
            res is Err ==> final(self).record@ == old(self).record@ && final(self).decoded_values@
                == old(self).decoded_values@,
    {
        remove_field(
            &self.root,
            self.root.path.as_str(),
            &mut self.record,
            &mut self.decoded_values,
            path,
            occurrence,
            &self.bindings,
            self.localized,
            decoders,
            selector,
            narrow,
            pick,
            finish,
            interpret,
            after_set_record,
        )
    }

    /// Sets occurrence `occurrence` of `path`, which may lie inside a subrecord's payload,
    /// to a parsed value, with the mutations that parsing asked for, as one transaction
    /// (see [`crate::parsed_edit::set_parsed_value`]). The closures are those of
    /// [`crate::editing::set_value`].
    pub fn set_parsed_value<D, S, N, C, F, G, T, I, R>(
        &mut self,
        path: &str,
        occurrence: usize,
        value: &OwnedFieldValue,
        mutations: Vec<HandlerMutation>,
        decoders: &DecoderRegistry<D>,
        selector: &S,
        narrow: &N,
        pick: &C,
        finish: &F,
        interpret: &G,
        normalize: &T,
        after_set: &I,
        after_set_record: &R,
    ) -> (res: Result<(), SemanticError>)
        where
            D: CustomDecoder,
            S: Fn(&SchemaNode, usize, &Vec<u8>) -> Result<Option<i64>, SemanticError>,
            N: Fn(u64) -> u32,
            C: Fn(&SchemaNode) -> Result<i64, SemanticError>,
            F: Fn(&SchemaNode, OwnedFieldValue, &Vec<usize>) -> Result<OwnedFieldValue, SemanticError>,
            G: Fn(&WritableRecord) -> Result<GrammarMatch, SemanticError>,
            T: Fn(&str, &OwnedFieldValue) -> Result<OwnedFieldValue, SemanticError>,
            I: Fn(&CallbackBinding, &FieldValue, Option<&FieldValue>) -> Result<HandlerOutput, SemanticError>,
            R: Fn(&CallbackBinding, &WritableRecord, Option<usize>, Option<&FieldValue>, Option<&FieldValue>) -> Result<HandlerOutput, SemanticError>,
        requires
            old(self).wf(),
            decoders.wf(),
            schema_reserved(old(self).root),
            grammar_fits(*interpret),
            forall|bits: u64| narrow.requires((bits,)),
            forall|n: &SchemaNode, i: usize, p: &Vec<u8>| selector.requires((n, i, p)),
            forall|n: &SchemaNode| pick.requires((n,)),
            forall|n: &SchemaNode, v: OwnedFieldValue, ix: &Vec<usize>| finish.requires((n, v, ix)),
            forall|p: &str, v: &OwnedFieldValue| normalize.requires((p, v)),
            forall|b: &CallbackBinding, c: &FieldValue, o: Option<&FieldValue>| after_set.requires((b, c, o)),
            forall|b: &CallbackBinding, r: &WritableRecord, i: Option<usize>, v: Option<&FieldValue>, o: Option<&FieldValue>|
                after_set_record.requires((b, r, i, v, o)),
        ensures
            final(self).wf(),
            final(self).root == old(self).root,
            final(self).bindings == old(self).bindings,
            final(self).localized == old(self).localized,
            final(self).after_load_migrations == old(self).after_load_migrations,
            sets_parsed(
                context_of(old(self).root, old(self).root.path@, decoders@, old(self).localized, *selector, *narrow, *pick, *finish, *interpret),
                after_set_context_of(old(self).bindings, decoders@, old(self).localized, *selector, *narrow, *pick, *finish, *after_set),
                normalizing_of(*normalize),
                record_invoking_of(*after_set_record),
                old(self).bindings@,
                crate::apply::EditState { record: old(self).record@, decoded: old(self).decoded_values@ },
                path@,
                occurrence,
                value@,
                mutations@,
                reached(res, final(self).record@, final(self).decoded_values@),
            ),
            res is Err ==> final(self).record@ == old(self).record@ && final(self).decoded_values@
                == old(self).decoded_values@,
    {
        set_parsed_value(
            &self.root,
            self.root.path.as_str(),
            &mut self.record,
            &mut self.decoded_values,
            path,
            occurrence,
            value,
            mutations,
            &self.bindings,
            self.localized,
            decoders,
            selector,
            narrow,
            pick,
            finish,
            interpret,
            normalize,
            after_set,
            after_set_record,
        )
    }

    /// Sets the record's editor ID through its `record.set_editor_id` callback (see
    /// [`crate::metadata::set_record_editor_id`]); returns `false`, changing nothing,
    /// when the record has no such callback. On an error nothing changes.
    pub fn set_record_editor_id<D, S, N, G, R>(
        &mut self,
        editor_id: &str,
        decoders: &DecoderRegistry<D>,
        selector: &S,
        narrow: &N,
        interpret: &G,
        invoke: &R,
    ) -> (res: Result<bool, SemanticError>)
        where
            D: CustomDecoder,
            S: Fn(&SchemaNode, usize, &Vec<u8>) -> Result<Option<i64>, SemanticError>,
            N: Fn(u64) -> u32,
            G: Fn(&WritableRecord) -> Result<GrammarMatch, SemanticError>,
            R: Fn(&CallbackBinding, &WritableRecord, Option<usize>, Option<&FieldValue>, Option<&FieldValue>) -> Result<HandlerOutput, SemanticError>,
        requires
            old(self).wf(),
            decoders.wf(),
            schema_reserved(old(self).root),
            grammar_fits(*interpret),
            forall|bits: u64| narrow.requires((bits,)),
            forall|n: &SchemaNode, i: usize, p: &Vec<u8>| selector.requires((n, i, p)),
            forall|b: &CallbackBinding, r: &WritableRecord, i: Option<usize>, v: Option<&FieldValue>, o: Option<&FieldValue>|
                invoke.requires((b, r, i, v, o)),
        ensures
            final(self).wf(),
            final(self).root == old(self).root,
            final(self).bindings == old(self).bindings,
            final(self).localized == old(self).localized,
            final(self).after_load_migrations == old(self).after_load_migrations,
            sets_editor_id(
                nested_context_of(old(self).root, decoders@, old(self).localized, *selector, *narrow, *interpret),
                record_invoking_of(*invoke),
                old(self).bindings@,
                old(self).root.path@,
                crate::apply::EditState { record: old(self).record@, decoded: old(self).decoded_values@ },
                editor_id@,
                flagged(res, final(self).record@, final(self).decoded_values@),
            ),
            res is Err ==> final(self).record@ == old(self).record@ && final(self).decoded_values@
                == old(self).decoded_values@,
    {
        set_record_editor_id(
            &self.root,
            self.root.path.as_str(),
            &mut self.record,
            &mut self.decoded_values,
            &self.bindings,
            editor_id,
            self.localized,
            decoders,
            selector,
            narrow,
            interpret,
            invoke,
        )
    }

    /// The edited record, with the editor given up.
    pub fn into_writable_record(self) -> (res: WritableRecord)
        ensures
            res == self.record,
    {
        self.record
    }

    /// Whether the record's strings are localized.
    pub fn is_localized(&self) -> (res: bool)
        ensures
            res == self.localized,
    {
        self.localized
    }

    /// How many after-load outputs changed the record when it was opened.
    pub fn after_load_migration_count(&self) -> (res: usize)
        ensures
            res == self.after_load_migrations,
    {
        self.after_load_migrations
    }
}

} // verus!
