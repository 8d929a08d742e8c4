//! Positions of schema assignments among a record's subrecords.
use vstd::prelude::*;
use vstd::string::*;

use crate::address::RepeatScope;
use crate::bytes::{be_bytes, le_bytes, ordered_bytes, push_zeros, zeros};
use crate::decoded::{remove_decoded_occurrence, removed_occurrence, DecodedKey, DecodedValues};
use crate::editor::{localized_string, primitive_encoding};
use crate::model::{
    clone_record, clone_subrecord, FormId, RecordView, SchemaNodeId, SubRecordView, WritableRecord,
};
use crate::schema::{ByteOrder, PrimitiveType, SchemaNode};
use crate::text::{decimal, push_decimal, text_eq};
use crate::tree::{
    containing_subrecord, find_containing_subrecord, find_node_by_path, is_within, node_by_path,
    node_refs, path_is_within, subrecords_of, top_level_subrecords,
};
use crate::value::{OwnedFieldValue, SemanticError, SpecFieldValue, SpecOwnedValue};

verus! {

/// The schema node that the record grammar matched a subrecord to.
#[derive(Debug)]
pub struct Assignment {
    /// Identifier of the matched node.
    pub id: SchemaNodeId,
    /// Stable schema path of the matched node.
    pub path: String,
}

/// How a record's subrecords were matched by its schema grammar: per subrecord, in
/// record order, the node it was assigned to (if any) and its repeat stack.
#[derive(Debug)]
pub struct GrammarMatch {
    /// Assigned node of each subrecord.
    pub assignments: Vec<Option<Assignment>>,
    /// Grammar repeat stack of each subrecord.
    pub repeat_scopes: Vec<Vec<RepeatScope>>,
}

/// Whether a subrecord was assigned to the node at `path`.
pub open spec fn assigned_to(a: Option<Assignment>, path: Seq<char>) -> bool {
    a matches Some(x) && x.path@ == path
}

/// Number of subrecords assigned to the node at `path`.
pub open spec fn assigned_count(assignments: Seq<Option<Assignment>>, path: Seq<char>) -> nat
    decreases assignments.len(),
{
    if assignments.len() == 0 {
        0
    } else {
        assigned_count(assignments.drop_last(), path) + if assigned_to(assignments.last(), path) {
            1nat
        } else {
            0nat
        }
    }
}

/// Whether a repeat stack holds a repetition.
pub open spec fn has_scope(scopes: Seq<RepeatScope>, scope: RepeatScope) -> bool {
    exists|i: int|
        0 <= i < scopes.len() && (#[trigger] scopes[i]).path@ == scope.path@ && scopes[i].occurrence
            == scope.occurrence
}

pub(crate) proof fn lemma_count_step(assignments: Seq<Option<Assignment>>, path: Seq<char>, i: int)
    requires
        0 <= i < assignments.len(),
    ensures
        assigned_count(assignments.take(i + 1), path) == assigned_count(assignments.take(i), path)
            + if assigned_to(assignments[i], path) {
            1nat
        } else {
            0nat
        },
{
    assert(assignments.take(i + 1).drop_last() =~= assignments.take(i));
}

pub(crate) proof fn lemma_count_monotone(assignments: Seq<Option<Assignment>>, path: Seq<char>, j: int)
    requires
        0 <= j <= assignments.len(),
    ensures
        assigned_count(assignments.take(j), path) <= assigned_count(assignments, path),
    decreases assignments.len() - j,
{
    if j < assignments.len() {
        lemma_count_step(assignments, path, j);
        lemma_count_monotone(assignments, path, j + 1);
    } else {
        assert(assignments.take(j) =~= assignments);
    }
}

fn is_assigned_to(a: &Option<Assignment>, path: &str) -> (res: bool)
    ensures
        res == assigned_to(*a, path@),
{
    match a {
        Some(x) => text_eq(x.path.as_str(), path),
        None => false,
    }
}

/// Whether a repeat stack holds a repetition.
pub fn contains_scope(scopes: &Vec<RepeatScope>, scope: &RepeatScope) -> (res: bool)
    ensures
        res == has_scope(scopes@, *scope),
{
    let mut i: usize = 0;
    while i < scopes.len()
        invariant
            i <= scopes@.len(),
            forall|j: int|
                0 <= j < i ==> !((#[trigger] scopes@[j]).path@ == scope.path@ && scopes@[j].occurrence
                    == scope.occurrence),
        decreases scopes.len() - i,
    {
        if scopes[i].occurrence == scope.occurrence && text_eq(
            scopes[i].path.as_str(),
            scope.path.as_str(),
        ) {
            return true;
        }
        i += 1;
    }
    false
}

/// Counts the subrecords assigned to the node at `path`.
pub fn assigned_occurrence_count(grammar: &GrammarMatch, path: &str) -> (res: usize)
    ensures
        res == assigned_count(grammar.assignments@, path@),
{
    let mut count: usize = 0;
    let mut i: usize = 0;
    while i < grammar.assignments.len()
        invariant
            i <= grammar.assignments@.len(),
            count == assigned_count(grammar.assignments@.take(i as int), path@),
            count <= i,
        decreases grammar.assignments.len() - i,
    {
        proof {
            lemma_count_step(grammar.assignments@, path@, i as int);
        }
        if is_assigned_to(&grammar.assignments[i], path) {
            count += 1;
        }
        i += 1;
    }
    assert(grammar.assignments@.take(i as int) =~= grammar.assignments@);
    count
}

/// The index of the subrecord holding occurrence `occurrence` of the node at `path`.
pub fn assigned_subrecord_index(grammar: &GrammarMatch, path: &str, occurrence: usize) -> (res:
    Result<usize, SemanticError>)
    ensures
        res matches Ok(i) ==> i < grammar.assignments@.len() && assigned_to(
            grammar.assignments@[i as int],
            path@,
        ) && assigned_count(grammar.assignments@.take(i as int), path@) == occurrence,
        res is Ok <==> occurrence < assigned_count(grammar.assignments@, path@),
        res matches Err(e) ==> assigned_count(grammar.assignments@, path@) <= occurrence && (e matches
            SemanticError::MissingOccurrence { path: p, occurrence: o } && p@ == path@ && o
            == occurrence),
{
    let mut count: usize = 0;
    let mut i: usize = 0;
    while i < grammar.assignments.len()
        invariant
            i <= grammar.assignments@.len(),
            count == assigned_count(grammar.assignments@.take(i as int), path@),
            count <= occurrence,
            count <= i,
        decreases grammar.assignments.len() - i,
    {
        proof {
            lemma_count_step(grammar.assignments@, path@, i as int);
        }
        if is_assigned_to(&grammar.assignments[i], path) {
            if count == occurrence {
                proof {
                    lemma_count_monotone(grammar.assignments@, path@, i + 1);
                }
                return Ok(i);
            }
            count += 1;
        }
        i += 1;
    }
    assert(grammar.assignments@.take(i as int) =~= grammar.assignments@);
    Err(SemanticError::MissingOccurrence { path: path.to_owned(), occurrence })
}

impl GrammarMatch {
    /// Both lists describe the same subrecords.
    pub open spec fn wf(&self) -> bool {
        self.assignments@.len() == self.repeat_scopes@.len()
    }
}

/// Position of the first node with identifier `id`.
pub open spec fn position_of(nodes: Seq<SchemaNode>, id: SchemaNodeId) -> Option<nat>
    decreases nodes.len(),
{
    if nodes.len() == 0 {
        None
    } else if nodes[0].id == id {
        Some(0)
    } else {
        match position_of(nodes.drop_first(), id) {
            Some(p) => Some(p + 1),
            None => None,
        }
    }
}

/// Every subrecord index, in order.
pub open spec fn all_indices(n: nat) -> Seq<int> {
    Seq::new(n, |i: int| i)
}

/// The indices of the subrecords whose repeat stack holds `scope`, in order.
pub open spec fn scoped_indices(scopes: Seq<Vec<RepeatScope>>, scope: RepeatScope) -> Seq<int>
    decreases scopes.len(),
{
    if scopes.len() == 0 {
        Seq::empty()
    } else {
        let rest = scoped_indices(scopes.drop_last(), scope);
        if has_scope(scopes.last()@, scope) {
            rest.push(scopes.len() - 1)
        } else {
            rest
        }
    }
}

/// Where a subrecord of the target node goes, scanning the candidate subrecord indices
/// from position `k`: right after the last subrecord already assigned to the target,
/// or else before the first subrecord whose node comes later in `ordered`; `after`
/// holds the position after the last target subrecord seen so far and `fallback` is
/// the answer when neither exists.
pub open spec fn insertion_scan(
    assignments: Seq<Option<Assignment>>,
    ordered: Seq<SchemaNode>,
    target_path: Seq<char>,
    target_order: nat,
    indices: Seq<int>,
    k: nat,
    after: Option<int>,
    fallback: int,
) -> int
    decreases indices.len() - k,
{
    if k >= indices.len() {
        match after {
            Some(a) => a,
            None => fallback,
        }
    } else {
        let index = indices[k as int];
        match assignments[index] {
            None => insertion_scan(
                assignments,
                ordered,
                target_path,
                target_order,
                indices,
                k + 1,
                after,
                fallback,
            ),
            Some(a) => if a.path@ == target_path {
                insertion_scan(
                    assignments,
                    ordered,
                    target_path,
                    target_order,
                    indices,
                    k + 1,
                    Some(index + 1),
                    fallback,
                )
            } else {
                match position_of(ordered, a.id) {
                    Some(order) => if order > target_order {
                        match after {
                            Some(x) => x,
                            None => index,
                        }
                    } else {
                        insertion_scan(
                            assignments,
                            ordered,
                            target_path,
                            target_order,
                            indices,
                            k + 1,
                            after,
                            fallback,
                        )
                    },
                    None => insertion_scan(
                        assignments,
                        ordered,
                        target_path,
                        target_order,
                        indices,
                        k + 1,
                        after,
                        fallback,
                    ),
                }
            },
        }
    }
}

pub(crate) fn position_in(nodes: &Vec<&SchemaNode>, id: SchemaNodeId) -> (res: Option<usize>)
    ensures
        res matches Some(r) ==> position_of(node_refs(nodes@), id) == Some(r as nat),
        res is None ==> position_of(node_refs(nodes@), id) is None,
{
    let ghost all = node_refs(nodes@);
    let mut i: usize = 0;
    assert(all.skip(0) =~= all);
    while i < nodes.len()
        invariant
            all == node_refs(nodes@),
            i <= nodes@.len(),
            forall|j: int| 0 <= j < i ==> (#[trigger] nodes@[j]).id != id,
            position_of(all, id) == match position_of(all.skip(i as int), id) {
                Some(p) => Some((p + i) as nat),
                None => None::<nat>,
            },
        decreases nodes.len() - i,
    {
        let candidate: &SchemaNode = nodes[i];
        assert(all.skip(i as int)[0] == *candidate);
        assert(all.skip(i as int).drop_first() =~= all.skip(i + 1));
        if candidate.id.0 == id.0 {
            return Some(i);
        }
        i += 1;
    }
    assert(all.skip(i as int) =~= Seq::<SchemaNode>::empty());
    None
}

/// Where a new subrecord for `target` goes among a record's `subrecord_count` subrecords:
/// after the last subrecord already assigned to it, or before the first subrecord whose
/// node comes later in the schema's subrecord order, or at the end.
pub fn schema_insertion_index(
    root: &SchemaNode,
    grammar: &GrammarMatch,
    subrecord_count: usize,
    target: &SchemaNode,
) -> (res: Result<usize, SemanticError>)
    ensures
        match position_of(subrecords_of(*root), target.id) {
            None => res matches Err(SemanticError::MissingPath(p)) && p@ == target.path@,
            Some(t) => res matches Ok(r) && r == insertion_scan(
                grammar.assignments@,
                subrecords_of(*root),
                target.path@,
                t,
                all_indices(grammar.assignments@.len()),
                0,
                None,
                subrecord_count as int,
            ),
        },
{
    let ordered = top_level_subrecords(root);
    let target_order = match position_in(&ordered, target.id) {
        Some(t) => t,
        None => {
            return Err(SemanticError::MissingPath(target.path.clone()));
        },
    };
    let ghost all = all_indices(grammar.assignments@.len());
    let ghost result = insertion_scan(
        grammar.assignments@,
        subrecords_of(*root),
        target.path@,
        target_order as nat,
        all,
        0,
        None,
        subrecord_count as int,
    );
    let mut after: Option<usize> = None;
    let mut i: usize = 0;
    while i < grammar.assignments.len()
        invariant
            node_refs(ordered@) == subrecords_of(*root),
            position_of(subrecords_of(*root), target.id) == Some(target_order as nat),
            all == all_indices(grammar.assignments@.len()),
            result == insertion_scan(
                grammar.assignments@,
                subrecords_of(*root),
                target.path@,
                target_order as nat,
                all,
                0,
                None,
                subrecord_count as int,
            ),
            i <= grammar.assignments@.len(),
            after matches Some(a) ==> a <= i,
            result == insertion_scan(
                grammar.assignments@,
                subrecords_of(*root),
                target.path@,
                target_order as nat,
                all,
                i as nat,
                match after {
                    Some(a) => Some(a as int),
                    None => None,
                },
                subrecord_count as int,
            ),
        decreases grammar.assignments.len() - i,
    {
        assert(all[i as int] == i);
        match &grammar.assignments[i] {
            None => {},
            Some(assigned) => {
                if text_eq(assigned.path.as_str(), target.path.as_str()) {
                    after = Some(i + 1);
                } else {
                    match position_in(&ordered, assigned.id) {
                        Some(order) => {
                            if order > target_order {
                                return Ok(
                                    match after {
                                        Some(a) => a,
                                        None => i,
                                    },
                                );
                            }
                        },
                        None => {},
                    }
                }
            },
        }
        i += 1;
    }
    Ok(
        match after {
            Some(a) => a,
            None => subrecord_count,
        },
    )
}

/// The end of the run of consecutive subrecords, from index `j` on, whose repeat stack
/// holds `scope`.
pub open spec fn run_end(scopes: Seq<Vec<RepeatScope>>, scope: RepeatScope, j: int) -> int
    decreases scopes.len() - j,
{
    if 0 <= j < scopes.len() && has_scope(scopes[j]@, scope) {
        run_end(scopes, scope, j + 1)
    } else {
        j
    }
}

proof fn lemma_scoped_step(scopes: Seq<Vec<RepeatScope>>, scope: RepeatScope, i: int)
    requires
        0 <= i < scopes.len(),
    ensures
        scoped_indices(scopes.take(i + 1), scope) == if has_scope(scopes[i]@, scope) {
            scoped_indices(scopes.take(i), scope).push(i)
        } else {
            scoped_indices(scopes.take(i), scope)
        },
{
    assert(scopes.take(i + 1).drop_last() =~= scopes.take(i));
}

proof fn lemma_scoped_bounds(scopes: Seq<Vec<RepeatScope>>, scope: RepeatScope)
    ensures
        forall|k: int|
            0 <= k < scoped_indices(scopes, scope).len() ==> 0 <= #[trigger] scoped_indices(
                scopes,
                scope,
            )[k] < scopes.len(),
    decreases scopes.len(),
{
    if scopes.len() > 0 {
        lemma_scoped_bounds(scopes.drop_last(), scope);
        let rest = scoped_indices(scopes.drop_last(), scope);
        assert forall|k: int| 0 <= k < scoped_indices(scopes, scope).len() implies 0
            <= #[trigger] scoped_indices(scopes, scope)[k] < scopes.len() by {
            if k < rest.len() {
                assert(scoped_indices(scopes, scope)[k] == rest[k]);
            }
        }
    }
}

/// Where a new subrecord for `target` goes inside one repetition `repeat_scope` of a
/// record's grammar: after the last subrecord of that repetition already assigned to the
/// target, or before the first one whose node comes later in the repetition's subrecord
/// order, or after the repetition's first run of subrecords.
pub fn scoped_schema_insertion_index(
    root: &SchemaNode,
    grammar: &GrammarMatch,
    target: &SchemaNode,
    repeat_scope: &RepeatScope,
) -> (res: Result<usize, SemanticError>)
    requires
        grammar.wf(),
    ensures
        match node_by_path(*root, repeat_scope.path@) {
            None => res matches Err(SemanticError::MissingPath(p)) && p@ == repeat_scope.path@,
            Some(scope_node) => match position_of(subrecords_of(scope_node), target.id) {
                None => res matches Err(SemanticError::MissingPath(p)) && p@ == target.path@,
                Some(t) => {
                    let indices = scoped_indices(grammar.repeat_scopes@, *repeat_scope);
                    if indices.len() == 0 {
                        res matches Err(e) && crate::editor::encode_error_is(
                            e,
                            target.path@,
                            "repeat scope has no assigned subrecords"@,
                        )
                    } else {
                        res matches Ok(r) && r == insertion_scan(
                            grammar.assignments@,
                            subrecords_of(scope_node),
                            target.path@,
                            t,
                            indices,
                            0,
                            None,
                            run_end(grammar.repeat_scopes@, *repeat_scope, indices[0]),
                        )
                    }
                },
            },
        },
{
    let scope_node = match find_node_by_path(root, repeat_scope.path.as_str()) {
        Some(n) => n,
        None => {
            return Err(SemanticError::MissingPath(repeat_scope.path.clone()));
        },
    };
    let ordered = top_level_subrecords(scope_node);
    let target_order = match position_in(&ordered, target.id) {
        Some(t) => t,
        None => {
            return Err(SemanticError::MissingPath(target.path.clone()));
        },
    };
    let scopes = &grammar.repeat_scopes;
    let mut indices: Vec<usize> = Vec::new();
    let mut i: usize = 0;
    while i < grammar.repeat_scopes.len()
        invariant
            i <= grammar.repeat_scopes@.len(),
            indices@.map_values(|x: usize| x as int) == scoped_indices(
                grammar.repeat_scopes@.take(i as int),
                *repeat_scope,
            ),
        decreases grammar.repeat_scopes.len() - i,
    {
        proof {
            lemma_scoped_step(grammar.repeat_scopes@, *repeat_scope, i as int);
        }
        if contains_scope(&grammar.repeat_scopes[i], repeat_scope) {
            indices.push(i);
            proof {
                assert(indices@.map_values(|x: usize| x as int) =~= scoped_indices(
                    grammar.repeat_scopes@.take(i as int),
                    *repeat_scope,
                ).push(i as int));
            }
        }
        i += 1;
    }
    proof {
        assert(grammar.repeat_scopes@.take(i as int) =~= grammar.repeat_scopes@);
        lemma_scoped_bounds(grammar.repeat_scopes@, *repeat_scope);
    }
    let ghost seq_indices = scoped_indices(grammar.repeat_scopes@, *repeat_scope);
    assert(indices@.len() == seq_indices.len());
    if indices.len() == 0 {
        return Err(crate::editor::encode_error(target.path.as_str(), "repeat scope has no assigned subrecords"));
    }
    let first = indices[0];
    assert(first as int == seq_indices[0]);
    let mut end = first;
    while end < grammar.repeat_scopes.len() && contains_scope(&grammar.repeat_scopes[end], repeat_scope)
        invariant
            first <= end <= grammar.repeat_scopes@.len(),
            run_end(grammar.repeat_scopes@, *repeat_scope, first as int) == run_end(
                grammar.repeat_scopes@,
                *repeat_scope,
                end as int,
            ),
        decreases grammar.repeat_scopes.len() - end,
    {
        end += 1;
    }
    let ghost result = insertion_scan(
        grammar.assignments@,
        subrecords_of(*scope_node),
        target.path@,
        target_order as nat,
        seq_indices,
        0,
        None,
        end as int,
    );
    let mut after: Option<usize> = None;
    let mut k: usize = 0;
    while k < indices.len()
        invariant
            grammar.wf(),
            node_by_path(*root, repeat_scope.path@) == Some(*scope_node),
            position_of(subrecords_of(*scope_node), target.id) == Some(target_order as nat),
            seq_indices == scoped_indices(grammar.repeat_scopes@, *repeat_scope),
            seq_indices.len() > 0,
            run_end(grammar.repeat_scopes@, *repeat_scope, seq_indices[0]) == end as int,
            node_refs(ordered@) == subrecords_of(*scope_node),
            indices@.map_values(|x: usize| x as int) == seq_indices,
            forall|j: int| 0 <= j < seq_indices.len() ==> 0 <= #[trigger] seq_indices[j] < grammar.repeat_scopes@.len(),
            result == insertion_scan(
                grammar.assignments@,
                subrecords_of(*scope_node),
                target.path@,
                target_order as nat,
                seq_indices,
                0,
                None,
                end as int,
            ),
            k <= indices@.len(),
            result == insertion_scan(
                grammar.assignments@,
                subrecords_of(*scope_node),
                target.path@,
                target_order as nat,
                seq_indices,
                k as nat,
                match after {
                    Some(a) => Some(a as int),
                    None => None,
                },
                end as int,
            ),
        decreases indices.len() - k,
    {
        let index = indices[k];
        assert(seq_indices[k as int] == index as int);
        assert(index < grammar.repeat_scopes@.len());
        let count = grammar.repeat_scopes.len();
        assert(index < count);
        match &grammar.assignments[index] {
            None => {},
            Some(assigned) => {
                if text_eq(assigned.path.as_str(), target.path.as_str()) {
                    after = Some(index + 1);
                } else {
                    match position_in(&ordered, assigned.id) {
                        Some(order) => {
                            if order > target_order {
                                return Ok(
                                    match after {
                                        Some(a) => a,
                                        None => index,
                                    },
                                );
                            }
                        },
                        None => {},
                    }
                }
            },
        }
        k += 1;
    }
    Ok(
        match after {
            Some(a) => a,
            None => end,
        },
    )
}

/// Whether subrecord `i` is assigned to the node at `path` inside repetition `scope`.
pub open spec fn selected_in_scope(
    grammar: GrammarMatch,
    path: Seq<char>,
    scope: RepeatScope,
    i: int,
) -> bool {
    assigned_to(grammar.assignments@[i], path) && has_scope(grammar.repeat_scopes@[i]@, scope)
}

/// Number of subrecords below index `n` assigned to `path` inside repetition `scope`.
pub open spec fn selected_count(grammar: GrammarMatch, path: Seq<char>, scope: RepeatScope, n: int) -> nat
    decreases n,
{
    if n <= 0 {
        0
    } else {
        selected_count(grammar, path, scope, n - 1) + if selected_in_scope(grammar, path, scope, n - 1) {
            1nat
        } else {
            0nat
        }
    }
}

/// The subrecord holding occurrence `local_occurrence`, inside repetition `repeat_scope`,
/// of the subrecord node that contains the node at `path`, with that subrecord's
/// occurrence number in the whole record; `None` when the repetition has fewer.
pub fn scoped_assignment(
    root: &SchemaNode,
    grammar: &GrammarMatch,
    repeat_scope: &RepeatScope,
    path: &str,
    local_occurrence: usize,
) -> (res: Result<Option<(usize, usize)>, SemanticError>)
    requires
        grammar.wf(),
    ensures
        match containing_subrecord(*root, path@, None) {
            None => res matches Err(SemanticError::MissingPath(p)) && p@ == path@,
            Some(parent) => match res {
                Ok(Some((i, occurrence))) => i < grammar.assignments@.len() && selected_in_scope(
                    *grammar,
                    parent.path@,
                    *repeat_scope,
                    i as int,
                ) && selected_count(*grammar, parent.path@, *repeat_scope, i as int)
                    == local_occurrence && occurrence == assigned_count(
                    grammar.assignments@.take(i as int),
                    parent.path@,
                ),
                Ok(None) => selected_count(
                    *grammar,
                    parent.path@,
                    *repeat_scope,
                    grammar.assignments@.len() as int,
                ) <= local_occurrence,
                Err(_) => false,
            },
        },
{
    let parent = match find_containing_subrecord(root, path) {
        Some(p) => p,
        None => {
            return Err(SemanticError::MissingPath(path.to_owned()));
        },
    };
    let parent_path = parent.path.as_str();
    let mut seen: usize = 0;
    let mut occurrence: usize = 0;
    let mut i: usize = 0;
    while i < grammar.assignments.len()
        invariant
            grammar.wf(),
            containing_subrecord(*root, path@, None) == Some(*parent),
            parent_path@ == parent.path@,
            i <= grammar.assignments@.len(),
            seen == selected_count(*grammar, parent_path@, *repeat_scope, i as int),
            seen <= local_occurrence,
            occurrence == assigned_count(grammar.assignments@.take(i as int), parent_path@),
            occurrence <= i,
        decreases grammar.assignments.len() - i,
    {
        proof {
            lemma_count_step(grammar.assignments@, parent_path@, i as int);
        }
        let assigned = is_assigned_to(&grammar.assignments[i], parent_path);
        if assigned && contains_scope(&grammar.repeat_scopes[i], repeat_scope) {
            if seen == local_occurrence {
                return Ok(Some((i, occurrence)));
            }
            seen += 1;
        }
        if assigned {
            occurrence += 1;
        }
        i += 1;
    }
    Ok(None)
}

/// The field that an edited subrecord belongs to: its node's path, its occurrence
/// among the record's subrecords of that node, and its repeat stack.
#[derive(Debug)]
pub struct ChangedField {
    /// Stable schema path of the assigned node.
    pub path: String,
    /// Occurrence of the path among the record's subrecords.
    pub occurrence: usize,
    /// Grammar repeat stack of the subrecord.
    pub repeat_scopes: Vec<RepeatScope>,
}

fn clone_scopes(scopes: &Vec<RepeatScope>) -> (res: Vec<RepeatScope>)
    ensures
        res@ == scopes@,
{
    let mut out: Vec<RepeatScope> = Vec::new();
    let mut i: usize = 0;
    while i < scopes.len()
        invariant
            i <= scopes@.len(),
            out@ == scopes@.take(i as int),
        decreases scopes.len() - i,
    {
        out.push(RepeatScope { path: scopes[i].path.clone(), occurrence: scopes[i].occurrence });
        i += 1;
        assert(out@ =~= scopes@.take(i as int));
    }
    assert(scopes@.take(i as int) =~= scopes@);
    out
}

fn index_message(index: usize, tail: &str) -> (res: String)
    ensures
        res@ == "edited subrecord at index "@ + decimal(index as nat) + tail@,
{
    let mut message = String::from_str("edited subrecord at index ");
    push_decimal(&mut message, index as u64);
    message.append(tail);
    message
}

/// Identifies the field of the subrecord at `index`; errors name `record_path`, the
/// record's own path, when the subrecord has no assignment.
pub fn changed_field_at(record_path: &str, grammar: &GrammarMatch, index: usize) -> (res: Result<
    ChangedField,
    SemanticError,
>)
    ensures
        match (if index < grammar.assignments@.len() {
            grammar.assignments@[index as int]
        } else {
            None
        }) {
            None => res matches Err(e) && crate::editor::encode_error_is(
                e,
                record_path@,
                "edited subrecord at index "@ + decimal(index as nat) + " has no grammar assignment"@,
            ),
            Some(a) => if index < grammar.repeat_scopes@.len() {
                res matches Ok(c) && c.path@ == a.path@ && c.occurrence == assigned_count(
                    grammar.assignments@.take(index as int),
                    a.path@,
                ) && c.repeat_scopes@ == grammar.repeat_scopes@[index as int]@
            } else {
                res matches Err(e) && crate::editor::encode_error_is(
                    e,
                    a.path@,
                    "edited subrecord at index "@ + decimal(index as nat) + " has no repeat scope"@,
                )
            },
        },
{
    let path = if index < grammar.assignments.len() {
        match &grammar.assignments[index] {
            Some(a) => a.path.clone(),
            None => {
                let message = index_message(index, " has no grammar assignment");
                return Err(crate::editor::encode_error(record_path, message.as_str()));
            },
        }
    } else {
        let message = index_message(index, " has no grammar assignment");
        return Err(crate::editor::encode_error(record_path, message.as_str()));
    };
    if index >= grammar.repeat_scopes.len() {
        let message = index_message(index, " has no repeat scope");
        return Err(crate::editor::encode_error(path.as_str(), message.as_str()));
    }
    let repeat_scopes = clone_scopes(&grammar.repeat_scopes[index]);
    let occurrence = count_before(grammar, path.as_str(), index);
    Ok(ChangedField { path, occurrence, repeat_scopes })
}

pub(crate) fn count_before(grammar: &GrammarMatch, path: &str, end: usize) -> (res: usize)
    requires
        end <= grammar.assignments@.len(),
    ensures
        res == assigned_count(grammar.assignments@.take(end as int), path@),
{
    let mut count: usize = 0;
    let mut i: usize = 0;
    while i < end
        invariant
            end <= grammar.assignments@.len(),
            i <= end,
            count == assigned_count(grammar.assignments@.take(i as int), path@),
            count <= i,
        decreases end - i,
    {
        proof {
            lemma_count_step(grammar.assignments@, path@, i as int);
        }
        if is_assigned_to(&grammar.assignments[i], path) {
            count += 1;
        }
        i += 1;
    }
    count
}

/// The value a fresh primitive starts with.
pub open spec fn default_primitive(primitive: PrimitiveType, localized: bool) -> SpecOwnedValue {
    match primitive {
        PrimitiveType::Integer { integer } => if integer.signed {
            SpecOwnedValue::Int(0)
        } else {
            SpecOwnedValue::UInt(0)
        },
        PrimitiveType::PackedUnsigned => SpecOwnedValue::UInt(0),
        PrimitiveType::Float { .. } => SpecOwnedValue::Float(0),
        PrimitiveType::String { string } => if localized && localized_string(string) {
            SpecOwnedValue::UInt(0)
        } else {
            SpecOwnedValue::String(Seq::empty())
        },
        PrimitiveType::Bytes { length } => SpecOwnedValue::Bytes(
            zeros(
                match length {
                    Some(l) => l as nat,
                    None => 0,
                },
            ),
        ),
        PrimitiveType::FormId { .. } => SpecOwnedValue::FormId(FormId(0)),
        PrimitiveType::Enumeration { .. } => SpecOwnedValue::Int(0),
        PrimitiveType::Flags { .. } => SpecOwnedValue::UInt(0),
        PrimitiveType::Unused { length } => SpecOwnedValue::Bytes(zeros(length as nat)),
    }
}

/// The stored width of a primitive whose fresh value is stored as zero bytes: an
/// integer, enumeration or flags field of 1, 2, 4 or 8 bytes, a FormID, an eight-byte
/// float, a byte array, unused bytes, or a localized string in a localized plugin.
pub open spec fn zero_default_width(primitive: PrimitiveType, localized: bool) -> Option<nat> {
    let integer_width = |w: u8| if w == 1 || w == 2 || w == 4 || w == 8 {
        Some(w as nat)
    } else {
        None
    };
    match primitive {
        PrimitiveType::Integer { integer } => integer_width(integer.width),
        PrimitiveType::Enumeration { integer, .. } => integer_width(integer.width),
        PrimitiveType::Flags { integer, .. } => integer_width(integer.width),
        PrimitiveType::FormId { .. } => Some(4),
        PrimitiveType::Float { width, .. } => if width == 8 {
            Some(8)
        } else {
            None
        },
        PrimitiveType::Bytes { length } => Some(
            match length {
                Some(l) => l as nat,
                None => 0,
            },
        ),
        PrimitiveType::Unused { length } => Some(length as nat),
        PrimitiveType::String { string } => if localized && localized_string(string) {
            Some(4)
        } else {
            None
        },
        PrimitiveType::PackedUnsigned => None,
    }
}

/// The bytes of zero, in either byte order, are all zero.
proof fn lemma_zero_bytes(order: ByteOrder, n: nat)
    ensures
        le_bytes(0, n) == zeros(n),
        ordered_bytes(order, 0, n) == zeros(n),
{
    assert forall|s: u64| ((0u64 >> s) & 0xffu64) == 0u64 by {
        assert(((0u64 >> s) & 0xffu64) == 0u64) by (bit_vector);
    }
    assert(le_bytes(0, n) =~= zeros(n));
    assert(be_bytes(0, n) =~= zeros(n));
}

/// Zero encodes, in an integer field of 1, 2, 4 or 8 bytes, as zero bytes of that width.
proof fn lemma_zero_integer(integer: crate::schema::IntegerType)
    requires
        integer.width == 1 || integer.width == 2 || integer.width == 4 || integer.width == 8,
    ensures
        crate::editor::integer_encoding(integer, 0) == Some(zeros(integer.width as nat)),
{
    lemma_zero_bytes(integer.byte_order, integer.width as nat);
    assert(seq![0u8] =~= zeros(1));
}

/// A fresh primitive value is one that the primitive encoder accepts for the same type:
/// a fixed-width primitive starts as zero bytes of its width ([`zero_default_width`]),
/// and a packed integer or a four-byte float starts as an encodable value too.
pub proof fn lemma_default_primitive_encodes(primitive: PrimitiveType, localized: bool, narrowed: u32)
    ensures
        zero_default_width(primitive, localized) matches Some(w) ==> primitive_encoding(
            primitive,
            default_primitive(primitive, localized),
            localized,
            narrowed,
        ) == Ok::<Seq<u8>, Seq<char>>(zeros(w)),
        primitive is PackedUnsigned ==> primitive_encoding(
            primitive,
            default_primitive(primitive, localized),
            localized,
            narrowed,
        ) is Ok,
        primitive matches PrimitiveType::Float { width, .. } && width == 4 ==> primitive_encoding(
            primitive,
            default_primitive(primitive, localized),
            localized,
            narrowed,
        ) is Ok,
{
    match primitive {
        PrimitiveType::Integer { integer } => if integer.width == 1 || integer.width == 2 || integer.width == 4 || integer.width == 8 {
            lemma_zero_integer(integer);
        },
        PrimitiveType::Enumeration { integer, .. } => if integer.width == 1 || integer.width == 2 || integer.width == 4 || integer.width == 8 {
            lemma_zero_integer(integer);
        },
        PrimitiveType::Flags { integer, .. } => if integer.width == 1 || integer.width == 2 || integer.width == 4 || integer.width == 8 {
            lemma_zero_integer(integer);
        },
        PrimitiveType::Float { width, byte_order } => lemma_zero_bytes(byte_order, 8),
        PrimitiveType::FormId { .. } => lemma_zero_bytes(ByteOrder::LittleEndian, 4),
        PrimitiveType::String { .. } => lemma_zero_bytes(ByteOrder::LittleEndian, 4),
        _ => {},
    }
}

/// The value a fresh primitive starts with: zero, the empty string (string-table ID zero
/// in a localized plugin), zero bytes of the stored length, or the null FormID.
pub fn default_primitive_value(primitive: &PrimitiveType, localized: bool) -> (res: OwnedFieldValue)
    ensures
        res@ == default_primitive(*primitive, localized),
{
    match primitive {
        PrimitiveType::Integer { integer } => if integer.signed {
            OwnedFieldValue::Int(0)
        } else {
            OwnedFieldValue::UInt(0)
        },
        PrimitiveType::PackedUnsigned => OwnedFieldValue::UInt(0),
        PrimitiveType::Float { .. } => OwnedFieldValue::Float(0),
        PrimitiveType::String { string } => if localized && crate::editor::is_localized_string(
            string,
        ) {
            OwnedFieldValue::UInt(0)
        } else {
            OwnedFieldValue::String(String::new())
        },
        PrimitiveType::Bytes { length } => {
            let n: u32 = match length {
                Some(l) => *l,
                None => 0,
            };
            let mut bytes: Vec<u8> = Vec::new();
            push_zeros(&mut bytes, n as usize);
            assert(bytes@ =~= zeros(n as nat));
            OwnedFieldValue::Bytes(bytes)
        },
        PrimitiveType::FormId { .. } => OwnedFieldValue::FormId(FormId(0)),
        PrimitiveType::Enumeration { .. } => OwnedFieldValue::Int(0),
        PrimitiveType::Flags { .. } => OwnedFieldValue::UInt(0),
        PrimitiveType::Unused { length } => {
            let mut bytes: Vec<u8> = Vec::new();
            push_zeros(&mut bytes, *length as usize);
            assert(bytes@ =~= zeros(*length as nat));
            OwnedFieldValue::Bytes(bytes)
        },
    }
}

/// The subrecords among the first `n` whose repeat stack holds `scope`, in order.
pub open spec fn scoped_subrecords(
    subrecords: Seq<SubRecordView>,
    scopes: Seq<Vec<RepeatScope>>,
    scope: RepeatScope,
    n: int,
) -> Seq<SubRecordView>
    decreases n,
{
    if n <= 0 {
        Seq::empty()
    } else {
        let rest = scoped_subrecords(subrecords, scopes, scope, n - 1);
        if has_scope(scopes[n - 1]@, scope) {
            rest.push(subrecords[n - 1])
        } else {
            rest
        }
    }
}

/// The record restricted to one repetition of its grammar: the header is kept and only
/// the subrecords whose repeat stack holds `repeat_scope` remain; without a repetition
/// the whole record is copied.
pub fn scoped_record(
    record: &WritableRecord,
    grammar: &GrammarMatch,
    repeat_scope: Option<&RepeatScope>,
) -> (res: WritableRecord)
    ensures
        match repeat_scope {
            None => res@ == record@,
            Some(scope) => res@ == (RecordView {
                subrecords: scoped_subrecords(
                    record@.subrecords,
                    grammar.repeat_scopes@,
                    *scope,
                    if record@.subrecords.len() <= grammar.repeat_scopes@.len() {
                        record@.subrecords.len() as int
                    } else {
                        grammar.repeat_scopes@.len() as int
                    },
                ),
                ..record@
            }),
        },
{
    let scope = match repeat_scope {
        None => {
            return clone_record(record);
        },
        Some(scope) => scope,
    };
    let n = if record.subrecords.len() <= grammar.repeat_scopes.len() {
        record.subrecords.len()
    } else {
        grammar.repeat_scopes.len()
    };
    let mut subrecords: Vec<crate::model::WritableSubRecord> = Vec::new();
    let mut i: usize = 0;
    while i < n
        invariant
            n <= record.subrecords@.len(),
            n <= grammar.repeat_scopes@.len(),
            i <= n,
            subrecords@.map_values(|s: crate::model::WritableSubRecord| s@) == scoped_subrecords(
                record@.subrecords,
                grammar.repeat_scopes@,
                *scope,
                i as int,
            ),
        decreases n - i,
    {
        if contains_scope(&grammar.repeat_scopes[i], scope) {
            let copy = clone_subrecord(&record.subrecords[i]);
            subrecords.push(copy);
        }
        i += 1;
        proof {
            assert(subrecords@.map_values(|s: crate::model::WritableSubRecord| s@) =~= scoped_subrecords(
                record@.subrecords,
                grammar.repeat_scopes@,
                *scope,
                i as int,
            ));
        }
    }
    WritableRecord {
        signature: record.signature,
        flags: record.flags,
        form_id: record.form_id,
        form_version: record.form_version,
        subrecords,
    }
}

/// Whether subrecord `i` lies in the repetition, when one is given.
pub open spec fn in_repetition(scopes: Seq<Vec<RepeatScope>>, scope: Option<RepeatScope>, i: int) -> bool {
    match scope {
        None => true,
        Some(s) => has_scope(scopes[i]@, s),
    }
}

/// The subrecords, among the first `n`, that removing the container at `path` takes
/// away: those in the repetition whose node lies at or below `path`, each with its index,
/// its node's path and its occurrence of that path in the record.
pub open spec fn container_removals(
    grammar: GrammarMatch,
    scope: Option<RepeatScope>,
    path: Seq<char>,
    n: int,
) -> Seq<(int, Seq<char>, usize)>
    decreases n,
{
    if n <= 0 {
        Seq::empty()
    } else {
        let rest = container_removals(grammar, scope, path, n - 1);
        let i = n - 1;
        match grammar.assignments@[i] {
            Some(a) => if in_repetition(grammar.repeat_scopes@, scope, i) && is_within(a.path@, path) {
                rest.push((i, a.path@, assigned_count(grammar.assignments@.take(i), a.path@) as usize))
            } else {
                rest
            },
            None => rest,
        }
    }
}

/// The subrecords left after removing, last first, those at the removal indices.
pub open spec fn without_indices(
    subrecords: Seq<SubRecordView>,
    removals: Seq<(int, Seq<char>, usize)>,
) -> Seq<SubRecordView>
    decreases removals.len(),
{
    if removals.len() == 0 {
        subrecords
    } else {
        without_indices(subrecords.remove(removals.last().0), removals.drop_last())
    }
}

/// The decoded values left after removing, last first, the removed occurrences.
pub open spec fn without_occurrences(
    m: Map<DecodedKey, SpecFieldValue>,
    removals: Seq<(int, Seq<char>, usize)>,
) -> Map<DecodedKey, SpecFieldValue>
    decreases removals.len(),
{
    if removals.len() == 0 {
        m
    } else {
        without_occurrences(
            removed_occurrence(m, removals.last().1, removals.last().2),
            removals.drop_last(),
        )
    }
}

proof fn lemma_removals_ordered(grammar: GrammarMatch, scope: Option<RepeatScope>, path: Seq<char>, n: int)
    requires
        0 <= n,
    ensures
        forall|k: int|
            0 <= k < container_removals(grammar, scope, path, n).len() ==> 0 <= (#[trigger] container_removals(
                grammar,
                scope,
                path,
                n,
            )[k]).0 && container_removals(grammar, scope, path, n)[k].0 + (container_removals(
                grammar,
                scope,
                path,
                n,
            ).len() - 1 - k) < n,
    decreases n,
{
    if n > 0 {
        lemma_removals_ordered(grammar, scope, path, n - 1);
        let rest = container_removals(grammar, scope, path, n - 1);
        let all = container_removals(grammar, scope, path, n);
        assert forall|k: int| 0 <= k < all.len() implies 0 <= (#[trigger] all[k]).0 && all[k].0 + (
        all.len() - 1 - k) < n by {
            if k < rest.len() {
                assert(all[k] == rest[k]);
            }
        }
    }
}

fn scope_matches(scopes: &Vec<RepeatScope>, scope: Option<&RepeatScope>) -> (res: bool)
    ensures
        res == match scope {
            None => true,
            Some(s) => has_scope(scopes@, *s),
        },
{
    match scope {
        None => true,
        Some(s) => contains_scope(scopes, s),
    }
}

/// Removes every subrecord of the container at `path` (the node itself and all nodes
/// below it), within one repetition when `repeat_scope` is given, together with their
/// decoded values; `root` is the record schema and `grammar` the record's current match.
pub fn remove_container_assignments(
    root: &SchemaNode,
    record: &mut WritableRecord,
    decoded_values: &mut DecodedValues,
    grammar: &GrammarMatch,
    repeat_scope: Option<&RepeatScope>,
    path: &str,
) -> (res: Result<(), SemanticError>)
    requires
        old(decoded_values).wf(),
        grammar.wf(),
        grammar.assignments@.len() == old(record).subrecords@.len(),
    ensures
        final(decoded_values).wf(),
        node_by_path(*root, path@) is None ==> (res matches Err(SemanticError::MissingPath(p)) && p@
            == path@) && final(record)@ == old(record)@ && final(decoded_values)@ == old(
            decoded_values,
        )@,
        node_by_path(*root, path@) is Some ==> ({
            let removals = container_removals(
                *grammar,
                match repeat_scope {
                    Some(s) => Some(*s),
                    None => None,
                },
                path@,
                grammar.assignments@.len() as int,
            );
            &&& res is Ok
            &&& final(record)@ == (RecordView {
                subrecords: without_indices(old(record)@.subrecords, removals),
                ..old(record)@
            })
            &&& final(decoded_values)@ == without_occurrences(old(decoded_values)@, removals)
        }),
{
    if find_node_by_path(root, path).is_none() {
        return Err(SemanticError::MissingPath(path.to_owned()));
    }
    let ghost scope_view = match repeat_scope {
        Some(s) => Some(*s),
        None => None,
    };
    let ghost n = grammar.assignments@.len() as int;
    let mut removals: Vec<(usize, String, usize)> = Vec::new();
    let mut i: usize = 0;
    while i < grammar.assignments.len()
        invariant
            grammar.wf(),
            i <= grammar.assignments@.len(),
            scope_view == match repeat_scope {
                Some(s) => Some(*s),
                None => None::<RepeatScope>,
            },
            removals@.len() == container_removals(*grammar, scope_view, path@, i as int).len(),
            forall|k: int|
                0 <= k < removals@.len() ==> {
                    let r = #[trigger] container_removals(*grammar, scope_view, path@, i as int)[k];
                    removals@[k].0 as int == r.0 && removals@[k].1@ == r.1 && removals@[k].2 == r.2
                },
        decreases grammar.assignments.len() - i,
    {
        let ghost before = container_removals(*grammar, scope_view, path@, i as int);
        match &grammar.assignments[i] {
            Some(assigned) => {
                if scope_matches(&grammar.repeat_scopes[i], repeat_scope) && path_is_within(
                    assigned.path.as_str(),
                    path,
                ) {
                    let occurrence = count_before(grammar, assigned.path.as_str(), i);
                    removals.push((i, assigned.path.clone(), occurrence));
                }
            },
            None => {},
        }
        i += 1;
        proof {
            let after = container_removals(*grammar, scope_view, path@, i as int);
            assert forall|k: int| 0 <= k < removals@.len() implies {
                let r = #[trigger] container_removals(*grammar, scope_view, path@, i as int)[k];
                removals@[k].0 as int == r.0 && removals@[k].1@ == r.1 && removals@[k].2 == r.2
            } by {
                if k < before.len() {
                    assert(after[k] == before[k]);
                }
            }
        }
    }
    let ghost all = container_removals(*grammar, scope_view, path@, n);
    proof {
        lemma_removals_ordered(*grammar, scope_view, path@, n);
    }
    drop_removals(record, decoded_values, &removals, Ghost(all));
    Ok(())
}

/// Removes, last first, the subrecords at the listed indices, each with its decoded
/// occurrence, renumbering the later occurrences of its path.
fn drop_removals(
    record: &mut WritableRecord,
    decoded_values: &mut DecodedValues,
    removals: &Vec<(usize, String, usize)>,
    Ghost(all): Ghost<Seq<(int, Seq<char>, usize)>>,
)
    requires
        old(decoded_values).wf(),
        removals@.len() == all.len(),
        forall|k: int|
            0 <= k < removals@.len() ==> {
                let r = #[trigger] all[k];
                removals@[k].0 as int == r.0 && removals@[k].1@ == r.1 && removals@[k].2 == r.2
            },
        forall|k: int|
            0 <= k < all.len() ==> 0 <= (#[trigger] all[k]).0 && all[k].0 + (all.len() - 1 - k)
                < old(record).subrecords@.len(),
    ensures
        final(decoded_values).wf(),
        final(record)@ == (RecordView {
            subrecords: without_indices(old(record)@.subrecords, all),
            ..old(record)@
        }),
        final(decoded_values)@ == without_occurrences(old(decoded_values)@, all),
{
    let ghost n = record.subrecords@.len() as int;
    let ghost start_record = *record;
    let ghost start_values = decoded_values@;
    assert(all.take(all.len() as int) =~= all);
    let mut j: usize = removals.len();
    while j > 0
        invariant
            removals@.len() == all.len(),
            forall|k: int|
                0 <= k < removals@.len() ==> {
                    let r = #[trigger] all[k];
                    removals@[k].0 as int == r.0 && removals@[k].1@ == r.1 && removals@[k].2 == r.2
                },
            forall|k: int| 0 <= k < all.len() ==> 0 <= (#[trigger] all[k]).0 && all[k].0 + (all.len() - 1 - k) < n,
            n == start_record.subrecords@.len(),
            j <= removals@.len(),
            record@.subrecords.len() == n - (removals@.len() - j),
            record@.signature == start_record@.signature,
            record@.flags == start_record@.flags,
            record@.form_id == start_record@.form_id,
            record@.form_version == start_record@.form_version,
            without_indices(record@.subrecords, all.take(j as int)) == without_indices(
                start_record@.subrecords,
                all,
            ),
            decoded_values.wf(),
            without_occurrences(decoded_values@, all.take(j as int)) == without_occurrences(
                start_values,
                all,
            ),
        decreases j,
    {
        let k = j - 1;
        let index = removals[k].0;
        assert(all[k as int].0 == index as int);
        proof {
            assert(all.take(j as int).drop_last() =~= all.take(k as int));
            assert(all.take(j as int).last() == all[k as int]);
        }
        let ghost old_subrecords = record@.subrecords;
        record.subrecords.remove(index);
        proof {
            assert(record@.subrecords =~= old_subrecords.remove(index as int));
        }
        remove_decoded_occurrence(decoded_values, removals[k].1.as_str(), removals[k].2);
        j = k;
    }
    proof {
        assert(all.take(0) =~= Seq::<(int, Seq<char>, usize)>::empty());
        assert(record@ =~= (RecordView {
            subrecords: without_indices(start_record@.subrecords, all),
            ..start_record@
        }));
    }
}

/// Whether a repeat stack holds the repetition at `path` numbered `occurrence`.
pub open spec fn holds_scope(scopes: Seq<RepeatScope>, path: Seq<char>, occurrence: u32) -> bool {
    exists|i: int|
        0 <= i < scopes.len() && (#[trigger] scopes[i]).path@ == path && scopes[i].occurrence
            == occurrence
}

/// Whether some subrecord lies in the repetition at `path` numbered `occurrence`, and in
/// the enclosing repetition `scope` when one is given.
pub open spec fn occurrence_present(
    grammar: GrammarMatch,
    path: Seq<char>,
    occurrence: u32,
    scope: Option<RepeatScope>,
) -> bool {
    exists|i: int|
        0 <= i < grammar.repeat_scopes@.len() && #[trigger] holds_scope(
            grammar.repeat_scopes@[i]@,
            path,
            occurrence,
        ) && in_repetition(grammar.repeat_scopes@, scope, i)
}

/// The subrecords, among the first `n`, that removing the repetition at `path` numbered
/// `occurrence` takes away: the assigned ones in that repetition (and in `scope`, when
/// one is given), each with its index, its node's path and its occurrence of that path.
pub open spec fn occurrence_removals(
    grammar: GrammarMatch,
    path: Seq<char>,
    occurrence: u32,
    scope: Option<RepeatScope>,
    n: int,
) -> Seq<(int, Seq<char>, usize)>
    decreases n,
{
    if n <= 0 {
        Seq::empty()
    } else {
        let rest = occurrence_removals(grammar, path, occurrence, scope, n - 1);
        let i = n - 1;
        match grammar.assignments@[i] {
            Some(a) => if holds_scope(grammar.repeat_scopes@[i]@, path, occurrence) && in_repetition(
                grammar.repeat_scopes@,
                scope,
                i,
            ) {
                rest.push((i, a.path@, assigned_count(grammar.assignments@.take(i), a.path@) as usize))
            } else {
                rest
            },
            None => rest,
        }
    }
}

proof fn lemma_occurrence_removals_ordered(
    grammar: GrammarMatch,
    path: Seq<char>,
    occurrence: u32,
    scope: Option<RepeatScope>,
    n: int,
)
    requires
        0 <= n,
    ensures
        ({
            let all = occurrence_removals(grammar, path, occurrence, scope, n);
            forall|k: int| 0 <= k < all.len() ==> 0 <= (#[trigger] all[k]).0 && all[k].0 + (all.len() - 1 - k) < n
        }),
    decreases n,
{
    if n > 0 {
        lemma_occurrence_removals_ordered(grammar, path, occurrence, scope, n - 1);
        let rest = occurrence_removals(grammar, path, occurrence, scope, n - 1);
        let all = occurrence_removals(grammar, path, occurrence, scope, n);
        assert forall|k: int| 0 <= k < all.len() implies 0 <= (#[trigger] all[k]).0 && all[k].0 + (
        all.len() - 1 - k) < n by {
            if k < rest.len() {
                assert(all[k] == rest[k]);
            }
        }
    }
}

proof fn lemma_holds_scope(scopes: Seq<RepeatScope>, scope: RepeatScope)
    ensures
        has_scope(scopes, scope) == holds_scope(scopes, scope.path@, scope.occurrence),
{
    if has_scope(scopes, scope) {
        let i = choose|i: int|
            0 <= i < scopes.len() && (#[trigger] scopes[i]).path@ == scope.path@ && scopes[i].occurrence
                == scope.occurrence;
        assert(scopes[i].path@ == scope.path@);
    }
    if holds_scope(scopes, scope.path@, scope.occurrence) {
        let i = choose|i: int|
            0 <= i < scopes.len() && (#[trigger] scopes[i]).path@ == scope.path@ && scopes[i].occurrence
                == scope.occurrence;
        assert(scopes[i].path@ == scope.path@);
    }
}

/// Whether some subrecord lies in the repetition `target`, and in `repeat_scope` when
/// one is given.
fn repeat_present(grammar: &GrammarMatch, repeat_scope: Option<&RepeatScope>, target: &RepeatScope) -> (res: bool)
    ensures
        res == occurrence_present(
            *grammar,
            target.path@,
            target.occurrence,
            match repeat_scope {
                Some(s) => Some(*s),
                None => None,
            },
        ),
{
    let ghost scope_view = match repeat_scope {
        Some(s) => Some(*s),
        None => None,
    };
    let mut i: usize = 0;
    while i < grammar.repeat_scopes.len()
        invariant
            i <= grammar.repeat_scopes@.len(),
            scope_view == match repeat_scope {
                Some(s) => Some(*s),
                None => None::<RepeatScope>,
            },
            forall|j: int|
                0 <= j < i ==> !(#[trigger] holds_scope(
                    grammar.repeat_scopes@[j]@,
                    target.path@,
                    target.occurrence,
                ) && in_repetition(grammar.repeat_scopes@, scope_view, j)),
        decreases grammar.repeat_scopes.len() - i,
    {
        let scopes = &grammar.repeat_scopes[i];
        let inside = contains_scope(scopes, target);
        proof {
            lemma_holds_scope(scopes@, *target);
        }
        if inside && scope_matches(scopes, repeat_scope) {
            assert(holds_scope(grammar.repeat_scopes@[i as int]@, target.path@, target.occurrence));
            return true;
        }
        i += 1;
    }
    false
}

/// Removes the repetition `target`, within the enclosing repetition `repeat_scope` when
/// one is given: when some subrecord lies in it, every assigned subrecord in it goes,
/// each with its decoded occurrence, and the result is `true`; otherwise nothing changes
/// and the result is `false`. `grammar` is the record's current match.
pub fn remove_repeat_occurrence(
    record: &mut WritableRecord,
    decoded_values: &mut DecodedValues,
    grammar: &GrammarMatch,
    repeat_scope: Option<&RepeatScope>,
    target: &RepeatScope,
) -> (found: bool)
    requires
        old(decoded_values).wf(),
        grammar.wf(),
        grammar.assignments@.len() == old(record).subrecords@.len(),
    ensures
        final(decoded_values).wf(),
        ({
            let scope = match repeat_scope {
                Some(s) => Some(*s),
                None => None,
            };
            &&& found == occurrence_present(*grammar, target.path@, target.occurrence, scope)
            &&& found ==> {
                let removals = occurrence_removals(
                    *grammar,
                    target.path@,
                    target.occurrence,
                    scope,
                    grammar.assignments@.len() as int,
                );
                &&& final(record)@ == (RecordView {
                    subrecords: without_indices(old(record)@.subrecords, removals),
                    ..old(record)@
                })
                &&& final(decoded_values)@ == without_occurrences(old(decoded_values)@, removals)
            }
            &&& !found ==> final(record)@ == old(record)@ && final(decoded_values)@ == old(decoded_values)@
        }),
{
    let ghost scope_view = match repeat_scope {
        Some(s) => Some(*s),
        None => None,
    };
    let ghost n = grammar.assignments@.len() as int;
    if !repeat_present(grammar, repeat_scope, target) {
        return false;
    }
    let mut removals: Vec<(usize, String, usize)> = Vec::new();
    let mut i: usize = 0;
    while i < grammar.assignments.len()
        invariant
            grammar.wf(),
            i <= grammar.assignments@.len(),
            scope_view == match repeat_scope {
                Some(s) => Some(*s),
                None => None::<RepeatScope>,
            },
            removals@.len() == occurrence_removals(
                *grammar,
                target.path@,
                target.occurrence,
                scope_view,
                i as int,
            ).len(),
            forall|k: int|
                0 <= k < removals@.len() ==> {
                    let r = #[trigger] occurrence_removals(
                        *grammar,
                        target.path@,
                        target.occurrence,
                        scope_view,
                        i as int,
                    )[k];
                    removals@[k].0 as int == r.0 && removals@[k].1@ == r.1 && removals@[k].2 == r.2
                },
        decreases grammar.assignments.len() - i,
    {
        let ghost before = occurrence_removals(*grammar, target.path@, target.occurrence, scope_view, i as int);
        match &grammar.assignments[i] {
            Some(assigned) => {
                let scopes = &grammar.repeat_scopes[i];
                let inside = contains_scope(scopes, target);
                proof {
                    lemma_holds_scope(scopes@, *target);
                }
                if inside && scope_matches(scopes, repeat_scope) {
                    let occurrence = count_before(grammar, assigned.path.as_str(), i);
                    removals.push((i, assigned.path.clone(), occurrence));
                }
            },
            None => {},
        }
        i += 1;
        proof {
            let after = occurrence_removals(*grammar, target.path@, target.occurrence, scope_view, i as int);
            assert forall|k: int| 0 <= k < removals@.len() implies {
                let r = #[trigger] occurrence_removals(
                    *grammar,
                    target.path@,
                    target.occurrence,
                    scope_view,
                    i as int,
                )[k];
                removals@[k].0 as int == r.0 && removals@[k].1@ == r.1 && removals@[k].2 == r.2
            } by {
                if k < before.len() {
                    assert(after[k] == before[k]);
                }
            }
        }
    }
    let ghost all = occurrence_removals(*grammar, target.path@, target.occurrence, scope_view, n);
    proof {
        lemma_occurrence_removals_ordered(*grammar, target.path@, target.occurrence, scope_view, n);
    }
    drop_removals(record, decoded_values, &removals, Ghost(all));
    true
}

} // verus!
