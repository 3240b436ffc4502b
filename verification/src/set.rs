//! The two phases of a tick, for hosts that schedule them.

use vstd::prelude::*;

verus! {

/// A phase of a tick.
#[derive(Clone, Copy, Debug, PartialEq, Eq, Hash, Structural)]
pub enum StateSet {
    /// The transition pass over all entities.
    Transition,
    /// The removal of done markers.
    RemoveDoneMarkers,
}

impl StateSet {
    /// The phase that must be over, for all entities, before this one
    /// starts: done markers are removed only after the transition pass.
    pub open spec fn predecessor(self) -> Option<StateSet> {
        match self {
            StateSet::Transition => None,
            StateSet::RemoveDoneMarkers => Some(StateSet::Transition),
        }
    }

    /// The phase that the host must schedule before this one.
    pub fn runs_after(&self) -> (before: Option<StateSet>)
        ensures
            before == self.predecessor(),
    {
        match self {
            StateSet::Transition => None,
            StateSet::RemoveDoneMarkers => Some(StateSet::Transition),
        }
    }
}

} // verus!
