//! State identities, the markers entities carry, and source-state matchers.

use vstd::prelude::*;

verus! {

/// The identity of a state: an opaque tag that the host assigns to each kind
/// of state.
#[derive(Clone, Copy, Debug, PartialEq, Eq, Hash, Structural)]
pub struct StateId(pub u64);

/// The component an entity carries while it occupies a state: the identity of
/// the state and one word of data that parameterizes it.
#[derive(Clone, Copy, Debug, PartialEq, Eq, Hash, Structural)]
pub struct StateMarker {
    pub state: StateId,
    pub data: u64,
}

/// Says which current states an edge leaves from.
#[derive(Clone, Copy, Debug, PartialEq, Eq, Hash, Structural)]
pub enum StateMatcher {
    /// Matches whatever state the entity is in.
    AnyState,
    /// Matches this state only.
    Exact(StateId),
}

impl StateMatcher {
    /// Whether an edge with this matcher leaves from `state`.
    pub open spec fn accepts(self, state: StateId) -> bool {
        match self {
            StateMatcher::AnyState => true,
            StateMatcher::Exact(source) => source == state,
        }
    }

    /// Tests whether an edge with this matcher leaves from `state`.
    pub fn is_match(&self, state: StateId) -> (hit: bool)
        ensures
            hit == self.accepts(state),
    {
        match self {
            StateMatcher::AnyState => true,
            StateMatcher::Exact(source) => source.0 == state.0,
        }
    }
}

} // verus!
