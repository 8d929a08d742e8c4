//! Transactional cleaning and normalization plans.
use vstd::prelude::*;

use crate::model::{FormId, Signature};

verus! {

/// Supported dry-run cleaning action.
#[derive(Debug, Clone, Copy, PartialEq, Eq)]
pub enum CleaningActionKind {
    /// Remove an identical-to-master override.
    RemoveIdenticalToMaster,
    /// Undelete and disable a deleted reference.
    UndeleteAndDisableReference,
    /// Repair a deleted navigation mesh through a validated game rule.
    RepairDeletedNavigationMesh,
    /// Normalize schema-defined ordering or representation.
    Normalize,
}

/// One proposed transactional cleaning action.
#[derive(Debug, Clone)]
pub struct CleaningAction {
    /// Action kind.
    pub kind: CleaningActionKind,
    /// Record signature.
    pub signature: Signature,
    /// Record FormID.
    pub form_id: FormId,
    /// Human-readable rationale.
    pub reason: String,
    /// Whether differential validation has approved this action.
    pub differential_validated: bool,
}

/// Dry-run plan produced before any cleaning changes are applied.
#[derive(Debug, Clone)]
pub struct CleaningPlan {
    actions: Vec<CleaningAction>,
}

impl View for CleaningPlan {
    type V = Seq<CleaningAction>;

    /// The proposed actions in the order they were added.
    closed spec fn view(&self) -> Seq<CleaningAction> {
        self.actions@
    }
}

/// Whether every action passed differential validation.
pub open spec fn all_validated(actions: Seq<CleaningAction>) -> bool {
    forall|i: int| 0 <= i < actions.len() ==> (#[trigger] actions[i]).differential_validated
}

impl CleaningPlan {
    /// Creates an empty cleaning plan.
    pub fn new() -> (res: Self)
        ensures
            res@ == Seq::<CleaningAction>::empty(),
    {
        CleaningPlan { actions: Vec::new() }
    }

    /// Adds a cleaning action.
    pub fn push(&mut self, action: CleaningAction)
        ensures
            final(self)@ == old(self)@.push(action),
    {
        self.actions.push(action);
    }

    /// Returns all proposed actions.
    pub fn actions(&self) -> (res: &[CleaningAction])
        ensures
            res@ == self@,
    {
        self.actions.as_slice()
    }

    /// Returns whether every action passed differential validation.
    pub fn is_applicable(&self) -> (res: bool)
        ensures
            res == all_validated(self@),
    {
        let mut i: usize = 0;
        while i < self.actions.len()
            invariant
                i <= self.actions@.len(),
                forall|j: int| 0 <= j < i ==> (#[trigger] self.actions@[j]).differential_validated,
            decreases self.actions.len() - i,
        {
            if !self.actions[i].differential_validated {
                return false;
            }
            i += 1;
        }
        true
    }
}

impl Default for CleaningPlan {
    fn default() -> (res: Self)
        ensures
            res@ == Seq::<CleaningAction>::empty(),
    {
        Self::new()
    }
}

/// A plan stays applicable exactly while every action added to it was validated:
/// adding an action keeps an applicable plan applicable if and only if that action passed
/// differential validation.
pub proof fn push_keeps_applicability(actions: Seq<CleaningAction>, action: CleaningAction)
    ensures
        all_validated(actions.push(action)) <==> all_validated(actions) && action.differential_validated,
{
    if all_validated(actions.push(action)) {
        assert forall|i: int| 0 <= i < actions.len() implies (#[trigger] actions[i]).differential_validated by {
            assert(actions.push(action)[i] == actions[i]);
        }
        assert(actions.push(action)[actions.len() as int] == action);
    }
    if all_validated(actions) && action.differential_validated {
        assert forall|i: int| 0 <= i < actions.push(action).len() implies (#[trigger] actions.push(
            action,
        )[i]).differential_validated by {
            if i < actions.len() {
                assert(actions.push(action)[i] == actions[i]);
            }
        }
    }
}

} // verus!
