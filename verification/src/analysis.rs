//! Conflict and reference analysis result models.
use vstd::prelude::*;

use crate::model::{FormId, GlobalFormId, Signature};

verus! {

/// One directed FormID reference discovered through schema decoding.
#[derive(Debug, Clone, PartialEq, Eq)]
pub struct ReferenceEdge {
    /// Referencing record.
    pub source: GlobalFormId,
    /// Referenced record.
    pub target: GlobalFormId,
    /// Stable schema path of the FormID field.
    pub path: String,
}

/// Directed graph of semantic FormID references.
#[derive(Debug, Clone)]
pub struct ReferenceGraph {
    edges: Vec<ReferenceEdge>,
}

impl View for ReferenceGraph {
    type V = Seq<ReferenceEdge>;

    /// The edges in the order they were discovered.
    closed spec fn view(&self) -> Seq<ReferenceEdge> {
        self.edges@
    }
}

impl ReferenceGraph {
    /// Creates an empty graph.
    pub fn new() -> (res: Self)
        ensures
            res@ == Seq::<ReferenceEdge>::empty(),
    {
        ReferenceGraph { edges: Vec::new() }
    }

    /// Adds a directed reference edge.
    pub fn add(&mut self, edge: ReferenceEdge)
        ensures
            final(self)@ == old(self)@.push(edge),
    {
        self.edges.push(edge);
    }

    /// Returns all edges in deterministic discovery order.
    pub fn edges(&self) -> (res: &[ReferenceEdge])
        ensures
            res@ == self@,
    {
        self.edges.as_slice()
    }
}

impl Default for ReferenceGraph {
    fn default() -> (res: Self)
        ensures
            res@ == Seq::<ReferenceEdge>::empty(),
    {
        Self::new()
    }
}

/// Classification of a load-order conflict.
#[derive(Debug, Clone, Copy, PartialEq, Eq)]
pub enum ConflictClass {
    /// All compared records have identical bytes.
    Identical,
    /// Later override changes data without conflicting sibling changes.
    Override,
    /// Multiple plugins change the same semantic field differently.
    Conflict,
}

/// One set of records sharing a global identity.
#[derive(Debug, Clone)]
pub struct Conflict {
    /// File-local object identifier.
    pub object_id: FormId,
    /// Record signature.
    pub signature: Signature,
    /// Plugins contributing records in load-order order.
    pub plugins: Vec<String>,
    /// Winning plugin.
    pub winner: String,
    /// Conflict classification.
    pub class: ConflictClass,
    /// Stable schema paths with conflicting values.
    pub paths: Vec<String>,
}

/// Conflict-analysis result.
#[derive(Debug, Clone)]
pub struct ConflictReport {
    conflicts: Vec<Conflict>,
}

impl View for ConflictReport {
    type V = Seq<Conflict>;

    /// The conflict sets in the order they were added.
    closed spec fn view(&self) -> Seq<Conflict> {
        self.conflicts@
    }
}

impl ConflictReport {
    /// Creates an empty report.
    pub fn new() -> (res: Self)
        ensures
            res@ == Seq::<Conflict>::empty(),
    {
        ConflictReport { conflicts: Vec::new() }
    }

    /// Adds a conflict set.
    pub fn push(&mut self, conflict: Conflict)
        ensures
            final(self)@ == old(self)@.push(conflict),
    {
        self.conflicts.push(conflict);
    }

    /// Returns all conflict sets.
    pub fn conflicts(&self) -> (res: &[Conflict])
        ensures
            res@ == self@,
    {
        self.conflicts.as_slice()
    }
}

impl Default for ConflictReport {
    fn default() -> (res: Self)
        ensures
            res@ == Seq::<Conflict>::empty(),
    {
        Self::new()
    }
}

} // verus!
