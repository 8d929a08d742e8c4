//! Record mutations that semantic handlers request, and the error reported when one
//! names an occurrence that does not exist.
use vstd::prelude::*;

use crate::model::Signature;
use crate::value::{OwnedFieldValue, SemanticError};

verus! {

/// A change to a record that a semantic handler asks for, addressed by schema path.
#[derive(Debug)]
pub enum HandlerMutation {
    /// Replaces the record header flags; the path names the record itself.
    SetRecordFlags { path: String, flags: u32 },
    /// Sets the value at an occurrence of a path.
    SetValue { path: String, occurrence: usize, value: OwnedFieldValue },
    /// Sets the value at an occurrence of a path when it currently equals `expected`.
    SetIfEqual { path: String, occurrence: usize, expected: OwnedFieldValue, value: OwnedFieldValue },
    /// Replaces the raw payload of a subrecord occurrence.
    ReplacePayload { path: String, occurrence: usize, data: Vec<u8> },
    /// Inserts a raw subrecord payload before the record is decoded.
    InsertPayload { path: String, data: Vec<u8> },
    /// Resets an occurrence of a path to its schema default.
    ResetToDefault { path: String, occurrence: usize },
    /// Inserts a default-valued field.
    InsertDefault { path: String },
    /// Removes every subrecord of a container.
    RemoveContainer { path: String },
    /// Removes the subrecords of one occurrence of a container.
    RemoveContainerOccurrence { path: String, occurrence: usize },
    /// Inserts a subrecord with a value.
    Insert { path: String, value: OwnedFieldValue },
    /// Removes an occurrence of a subrecord.
    Remove { path: String, occurrence: usize },
    /// Removes every occurrence of a subrecord.
    RemoveAll { path: String },
    /// Removes every raw subrecord with a signature.
    RemoveAllBySignature { path: String, signature: Signature },
    /// Removes the first raw subrecord with a signature.
    RemoveFirstBySignature { path: String, signature: Signature },
    /// Keeps a counter subrecord equal to a count, removing it at zero when asked.
    SynchronizeCount { path: String, occurrence: usize, value: u64, remove_when_zero: bool },
    /// Keeps a subrecord present or absent.
    SynchronizePresence { path: String, occurrence: usize, present: bool, value: OwnedFieldValue },
}

/// The schema path that a mutation names.
pub open spec fn path_of(mutation: HandlerMutation) -> Seq<char> {
    match mutation {
        HandlerMutation::SetRecordFlags { path, .. } => path@,
        HandlerMutation::SetValue { path, .. } => path@,
        HandlerMutation::SetIfEqual { path, .. } => path@,
        HandlerMutation::ReplacePayload { path, .. } => path@,
        HandlerMutation::InsertPayload { path, .. } => path@,
        HandlerMutation::ResetToDefault { path, .. } => path@,
        HandlerMutation::InsertDefault { path } => path@,
        HandlerMutation::RemoveContainer { path } => path@,
        HandlerMutation::RemoveContainerOccurrence { path, .. } => path@,
        HandlerMutation::Insert { path, .. } => path@,
        HandlerMutation::Remove { path, .. } => path@,
        HandlerMutation::RemoveAll { path } => path@,
        HandlerMutation::RemoveAllBySignature { path, .. } => path@,
        HandlerMutation::RemoveFirstBySignature { path, .. } => path@,
        HandlerMutation::SynchronizeCount { path, .. } => path@,
        HandlerMutation::SynchronizePresence { path, .. } => path@,
    }
}

/// The schema path that a mutation names.
pub fn mutation_path(mutation: &HandlerMutation) -> (res: &str)
    ensures
        res@ == path_of(*mutation),
{
    match mutation {
        HandlerMutation::SetRecordFlags { path, .. } => path.as_str(),
        HandlerMutation::SetValue { path, .. } => path.as_str(),
        HandlerMutation::SetIfEqual { path, .. } => path.as_str(),
        HandlerMutation::ReplacePayload { path, .. } => path.as_str(),
        HandlerMutation::InsertPayload { path, .. } => path.as_str(),
        HandlerMutation::ResetToDefault { path, .. } => path.as_str(),
        HandlerMutation::InsertDefault { path } => path.as_str(),
        HandlerMutation::RemoveContainer { path } => path.as_str(),
        HandlerMutation::RemoveContainerOccurrence { path, .. } => path.as_str(),
        HandlerMutation::Insert { path, .. } => path.as_str(),
        HandlerMutation::Remove { path, .. } => path.as_str(),
        HandlerMutation::RemoveAll { path } => path.as_str(),
        HandlerMutation::RemoveAllBySignature { path, .. } => path.as_str(),
        HandlerMutation::RemoveFirstBySignature { path, .. } => path.as_str(),
        HandlerMutation::SynchronizeCount { path, .. } => path.as_str(),
        HandlerMutation::SynchronizePresence { path, .. } => path.as_str(),
    }
}

/// Whether `e` reports that occurrence `occurrence` of `path` does not exist.
pub open spec fn missing_occurrence_is(e: SemanticError, path: Seq<char>, occurrence: nat) -> bool {
    e matches SemanticError::MissingOccurrence { path: p, occurrence: o } && p@ == path && o
        == occurrence
}

/// The error reporting that occurrence `occurrence` of `path` does not exist.
pub fn missing_occurrence(path: &str, occurrence: usize) -> (res: SemanticError)
    ensures
        missing_occurrence_is(res, path@, occurrence as nat),
{
    SemanticError::MissingOccurrence { path: path.to_owned(), occurrence }
}

} // verus!
