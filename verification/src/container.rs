//! Removal of one occurrence of a repeated container.
use vstd::prelude::*;
use vstd::string::*;

use crate::address::RepeatScope;
use crate::apply::{candidate_grammar, grammar_fits, interpreting_of, missing_path_is, outcome, scope_view, EditState};
use crate::assignment::{
    occurrence_present, occurrence_removals, remove_repeat_occurrence, without_indices,
    without_occurrences, GrammarMatch,
};
use crate::decoded::DecodedValues;
use crate::editor::{encode_error, encode_error_is};
use crate::model::{RecordView, WritableRecord};
use crate::mutation::{missing_occurrence, missing_occurrence_is};
use crate::schema::{SchemaNode, SchemaNodeKind};
use crate::tree::{find_node_by_path, node_by_path};
use crate::value::SemanticError;

verus! {

/// Whether `out` is a possible outcome of removing occurrence `occurrence` of the repeated
/// container at `path` from state `s`, within the repetition `scope` when one is given.
///
/// The path must name a sequence node of `root`, and the occurrence must fit in 32 bits.
/// The record's grammar (one of the matches that `interprets` allows) must place some
/// subrecord in that repetition; then every assigned subrecord in it goes, last first,
/// each with its decoded occurrence, and the later occurrences of its path move down.
pub open spec fn removes_occurrence(
    root: SchemaNode,
    interprets: spec_fn(RecordView, Result<GrammarMatch, SemanticError>) -> bool,
    s: EditState,
    scope: Option<RepeatScope>,
    path: Seq<char>,
    occurrence: usize,
    out: Result<EditState, SemanticError>,
) -> bool {
    match node_by_path(root, path) {
        None => out matches Err(e) && missing_path_is(e, path),
        Some(node) => if !(node.kind is Sequence) {
            out matches Err(e) && encode_error_is(e, path, "repeated container removal path is not a sequence"@)
        } else if occurrence > u32::MAX {
            out matches Err(e) && encode_error_is(e, path, "repeated container occurrence exceeds u32"@)
        } else {
            exists|g: Result<GrammarMatch, SemanticError>|
                #[trigger] candidate_grammar(g) && interprets(s.record, g) && match g {
                    Err(e) => out == Err::<EditState, SemanticError>(e),
                    Ok(gm) => if !occurrence_present(gm, path, occurrence as u32, scope) {
                        out matches Err(e) && missing_occurrence_is(e, path, occurrence as nat)
                    } else {
                        let removals = occurrence_removals(
                            gm,
                            path,
                            occurrence as u32,
                            scope,
                            gm.assignments@.len() as int,
                        );
                        out == Ok::<EditState, SemanticError>(
                            EditState {
                                record: RecordView {
                                    subrecords: without_indices(s.record.subrecords, removals),
                                    ..s.record
                                },
                                decoded: without_occurrences(s.decoded, removals),
                            },
                        )
                    },
                }
        },
    }
}

/// Removes occurrence `local_occurrence` of the repeated container at `path` (see
/// [`removes_occurrence`]), within `repeat_scope` when one is given. `root` is the record
/// schema and `interpret` matches a record against its grammar. On an error nothing
/// changes.
pub fn remove_container_occurrence<G>(
    root: &SchemaNode,
    record: &mut WritableRecord,
    decoded_values: &mut DecodedValues,
    repeat_scope: Option<&RepeatScope>,
    path: &str,
    local_occurrence: usize,
    interpret: &G,
) -> (res: Result<(), SemanticError>)
    where
        G: Fn(&WritableRecord) -> Result<GrammarMatch, SemanticError>,
    requires
        old(decoded_values).wf(),
        grammar_fits(*interpret),
    ensures
        final(decoded_values).wf(),
        removes_occurrence(
            *root,
            interpreting_of(*interpret),
            EditState { record: old(record)@, decoded: old(decoded_values)@ },
            scope_view(repeat_scope),
            path@,
            local_occurrence,
            outcome(res, final(record)@, final(decoded_values)@),
        ),
        res is Err ==> final(record)@ == old(record)@ && final(decoded_values)@ == old(
            decoded_values,
        )@,
{
    let node = match find_node_by_path(root, path) {
        Some(node) => node,
        None => {
            return Err(SemanticError::MissingPath(path.to_owned()));
        },
    };
    if !matches!(node.kind, SchemaNodeKind::Sequence { .. }) {
        return Err(encode_error(path, "repeated container removal path is not a sequence"));
    }
    if local_occurrence > 0xffff_ffffusize {
        return Err(encode_error(path, "repeated container occurrence exceeds u32"));
    }
    let g = interpret(record);
    proof {
        reveal(interpreting_of);
        assert(interpreting_of(*interpret)(record@, g));
        assert(candidate_grammar(g));
    }
    let grammar = match g {
        Ok(grammar) => grammar,
        Err(e) => {
            return Err(e);
        },
    };
    let target = RepeatScope { path: path.to_owned(), occurrence: local_occurrence as u32 };
    if remove_repeat_occurrence(record, decoded_values, &grammar, repeat_scope, &target) {
        Ok(())
    } else {
        Err(missing_occurrence(path, local_occurrence))
    }
}

} // verus!
