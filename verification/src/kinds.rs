//! The kinds of drives and of actions.

use vstd::prelude::*;

verus! {

/// The four homeostatic drives.
#[derive(Debug, Clone, Copy, PartialEq, Eq, Structural)]
pub enum DriveType {
    Curiosity,
    Mastery,
    Coherence,
    Novelty,
}

/// What kind of action an entry of the learning history records.
#[derive(Debug, Clone, Copy, PartialEq, Eq, Structural)]
pub enum ActionType {
    Improvement,
    Reflection,
    Exploration,
    Failure,
    Dormancy,
}

} // verus!
