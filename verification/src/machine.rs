//! The transition table: edges, the factories that make target states, and
//! the builder that checks a table while it is set up.

use crate::context::{HostRegistry, Outcome, RegistryView, Resource, Scene};
use crate::reach::{find_unreachable, first_unreachable};
use crate::state::{StateId, StateMarker, StateMatcher};
use crate::trigger::Trigger;
use vstd::prelude::*;

verus! {

/// Makes the marker of the state that an edge leads to.
#[derive(Clone, Copy, Debug, PartialEq, Eq)]
pub enum TargetFactory {
    /// Always this marker.
    Fixed(StateMarker),
    /// A marker of `state` whose data is the value of the trigger's payload,
    /// which must be of kind `kind`.
    FromPayload { state: StateId, kind: u64 },
}

impl TargetFactory {
    /// The state that the factory's markers denote.
    pub open spec fn state(self) -> StateId {
        match self {
            TargetFactory::Fixed(marker) => marker.state,
            TargetFactory::FromPayload { state, .. } => state,
        }
    }

    /// Whether the factory can make its marker from every outcome of a
    /// satisfied trigger with this payload kind.
    pub open spec fn fits(self, kind: Option<u64>) -> bool {
        match self {
            TargetFactory::Fixed(_) => true,
            TargetFactory::FromPayload { kind: wanted, .. } => kind == Some(wanted),
        }
    }

    /// The marker made from `out`, if the factory can make one from it.
    pub open spec fn produced(self, out: Outcome) -> Option<StateMarker> {
        match self {
            TargetFactory::Fixed(marker) => Some(marker),
            TargetFactory::FromPayload { state, kind } => match out.payload() {
                Some(p) => if p.kind == kind {
                    Some(StateMarker { state, data: p.value })
                } else {
                    None
                },
                None => None,
            },
        }
    }

    /// The state that the factory's markers denote.
    pub fn target_state(&self) -> (state: StateId)
        ensures
            state == self.state(),
    {
        match self {
            TargetFactory::Fixed(marker) => marker.state,
            TargetFactory::FromPayload { state, .. } => *state,
        }
    }

    /// Tests whether the factory fits a trigger with this payload kind.
    pub fn accepts_kind(&self, kind: Option<u64>) -> (yes: bool)
        ensures
            yes == self.fits(kind),
    {
        match self {
            TargetFactory::Fixed(_) => true,
            TargetFactory::FromPayload { kind: wanted, .. } => match kind {
                Some(k) => k == *wanted,
                None => false,
            },
        }
    }

    /// Makes the target marker from the outcome of the edge's trigger.
    pub fn produce(&self, out: &Outcome) -> (made: Option<StateMarker>)
        ensures
            made == self.produced(*out),
    {
        match self {
            TargetFactory::Fixed(marker) => Some(*marker),
            TargetFactory::FromPayload { state, kind } => match out.carried() {
                Some(p) => if p.kind == *kind {
                    Some(StateMarker { state: *state, data: p.value })
                } else {
                    None
                },
                None => None,
            },
        }
    }
}

/// One transition of a table.
#[derive(Debug, PartialEq, Eq)]
pub struct Edge {
    pub source: StateMatcher,
    pub trigger: Trigger,
    pub target: TargetFactory,
}

impl Edge {
    /// Whether the target factory fits what the trigger hands on.
    pub open spec fn wf(self) -> bool {
        self.target.fits(self.trigger.payload_kind())
    }

    /// In a well-formed edge the factory makes a marker of its state from
    /// every satisfied outcome of the trigger.
    pub proof fn lemma_target_made(self, scene: Scene, latches: Seq<bool>)
        requires
            self.wf(),
            self.trigger.outcome(scene, latches).is_satisfied(),
        ensures
            self.target.produced(self.trigger.outcome(scene, latches)) matches Some(marker)
                && marker.state == self.target.state(),
    {
        self.trigger.lemma_payload_kind(scene, latches);
    }
}

/// Why a table could not be set up.
#[derive(Clone, Copy, Debug, PartialEq, Eq)]
pub enum ConfigError {
    /// A trigger reads events of a kind that the host never registered.
    UnregisteredEvent(u64),
    /// A trigger reads an input action that the host never registered.
    UnregisteredInput(u64),
    /// The target factory needs a payload that the trigger does not always
    /// hand on, or one of another kind.
    PayloadMismatch,
    /// The table was built without an initial state.
    MissingInitialState,
    /// The edge at this index leaves from a state that the entity can never
    /// be in.
    UnreachableSource(usize),
}

/// The error, if any, for which an edge with this trigger and target is
/// refused: a missing resource first, then a payload that does not fit.
pub open spec fn edge_fault(
    registry: RegistryView,
    trigger: Trigger,
    target: TargetFactory,
) -> Option<ConfigError> {
    match trigger.first_unregistered(registry) {
        Some(Resource::Event(kind)) => Some(ConfigError::UnregisteredEvent(kind)),
        Some(Resource::Input(action)) => Some(ConfigError::UnregisteredInput(action)),
        None => if target.fits(trigger.payload_kind()) {
            None
        } else {
            Some(ConfigError::PayloadMismatch)
        },
    }
}

/// The offset of the latches of edge `i` among the latches of a table: the
/// number of latches of the edges before it.
pub open spec fn latch_base(edges: Seq<Edge>, i: int) -> nat
    decreases i,
{
    if i <= 0 {
        0
    } else {
        latch_base(edges, i - 1) + edges[i - 1].trigger.latches()
    }
}

/// The number of latches that a table with these edges needs.
pub open spec fn latch_total(edges: Seq<Edge>) -> nat {
    latch_base(edges, edges.len() as int)
}

/// The latches of an edge lie before those of every later edge.
pub proof fn lemma_latch_base_ordered(edges: Seq<Edge>, i: int, j: int)
    requires
        0 <= i <= j,
    ensures
        latch_base(edges, i) <= latch_base(edges, j),
        i < j ==> latch_base(edges, i) + edges[i].trigger.latches() <= latch_base(edges, j),
    decreases j,
{
    if i < j {
        lemma_latch_base_ordered(edges, i, j - 1);
    }
}

/// The mathematical content of a table under construction.
pub struct BuilderView {
    /// The resources that the triggers of the table may read.
    pub registry: RegistryView,
    pub initial: Option<StateMarker>,
    pub edges: Seq<Edge>,
}

impl BuilderView {
    /// Every edge's factory fits its trigger.
    pub open spec fn wf(self) -> bool {
        forall|i: int| 0 <= i < self.edges.len() ==> (#[trigger] self.edges[i]).wf()
    }
}

/// The mathematical content of a [`StateMachine`].
pub struct MachineView {
    /// The marker of the state that the entity is in.
    pub current: StateMarker,
    pub edges: Seq<Edge>,
}

impl MachineView {
    /// Every edge's factory fits its trigger.
    pub open spec fn wf(self) -> bool {
        forall|i: int| 0 <= i < self.edges.len() ==> (#[trigger] self.edges[i]).wf()
    }
}

/// Sets up a transition table for a host with a given registry of resources,
/// checking each edge as it is added.
pub struct StateMachineBuilder {
    registry: HostRegistry,
    initial: Option<StateMarker>,
    edges: Vec<Edge>,
}

impl View for StateMachineBuilder {
    type V = BuilderView;

    closed spec fn view(&self) -> BuilderView {
        BuilderView { registry: self.registry@, initial: self.initial, edges: self.edges@ }
    }
}

/// The transition table of one entity: the state it is in and its edges in
/// the order that they were declared, which is their order of precedence.
#[derive(Debug, PartialEq, Eq)]
pub struct StateMachine {
    current: StateMarker,
    edges: Vec<Edge>,
}

impl View for StateMachine {
    type V = MachineView;

    closed spec fn view(&self) -> MachineView {
        MachineView { current: self.current, edges: self.edges@ }
    }
}

impl StateMachineBuilder {
    /// Every edge added so far is well-formed.
    #[verifier::type_invariant]
    pub open spec fn wf(self) -> bool {
        self@.wf()
    }

    /// A table with no initial state and no edges, for a host that
    /// registered the resources in `registry`.
    pub fn new(registry: HostRegistry) -> (builder: Self)
        ensures
            builder@.registry == registry@,
            builder@.initial is None,
            builder@.edges.len() == 0,
    {
        StateMachineBuilder { registry, initial: None, edges: Vec::new() }
    }

    /// Sets the marker that the entity starts with.
    pub fn set_initial_state(self, marker: StateMarker) -> (builder: Self)
        ensures
            builder@.registry == self@.registry,
            builder@.initial == Some(marker),
            builder@.edges == self@.edges,
    {
        proof {
            use_type_invariant(&self);
            assert(self@.edges == self.edges@);
        }
        StateMachineBuilder {
            registry: self.registry,
            initial: Some(marker),
            edges: self.edges,
        }
    }

    /// Appends an edge, after all edges added before. The edge is refused,
    /// and the table with it, if its trigger reads a resource that the host
    /// never registered or if its target cannot be made from what the trigger
    /// hands on.
    pub fn add_transition(
        self,
        source: StateMatcher,
        trigger: Trigger,
        target: TargetFactory,
    ) -> (added: Result<Self, ConfigError>)
        ensures
            match edge_fault(self@.registry, trigger, target) {
                Some(fault) => added == Err::<Self, ConfigError>(fault),
                None => added matches Ok(builder) && builder@.registry == self@.registry
                    && builder@.initial == self@.initial && builder@.edges
                    == self@.edges.push(Edge { source, trigger, target }),
            },
    {
        proof {
            use_type_invariant(&self);
        }
        match trigger.find_unregistered(&self.registry) {
            Some(Resource::Event(kind)) => return Err(ConfigError::UnregisteredEvent(kind)),
            Some(Resource::Input(action)) => return Err(ConfigError::UnregisteredInput(action)),
            None => {},
        }
        if !target.accepts_kind(trigger.yields()) {
            return Err(ConfigError::PayloadMismatch);
        }
        let ghost before = self@.edges;
        let mut edges = self.edges;
        edges.push(Edge { source, trigger, target });
        assert forall|i: int| 0 <= i < edges@.len() implies (#[trigger] edges@[i]).wf() by {
            if i < before.len() {
                assert(before[i].wf());
            }
        }
        Ok(StateMachineBuilder { registry: self.registry, initial: self.initial, edges })
    }
}

impl StateMachineBuilder {
    /// Finishes the table. It is refused if no initial state was set, or if
    /// an edge leaves from a state that an entity starting in the initial
    /// state can never be in; the first such edge is named.
    pub fn build(self) -> (built: Result<StateMachine, ConfigError>)
        ensures
            match self@.initial {
                None => built == Err::<StateMachine, ConfigError>(ConfigError::MissingInitialState),
                Some(marker) => match first_unreachable(marker.state, self@.edges) {
                    Some(i) => built == Err::<StateMachine, ConfigError>(
                        ConfigError::UnreachableSource(i as usize),
                    ),
                    None => built matches Ok(machine) && machine@.wf() && machine@ == (MachineView {
                        current: marker,
                        edges: self@.edges,
                    }),
                },
            },
    {
        proof {
            use_type_invariant(&self);
        }
        let marker = match self.initial {
            None => return Err(ConfigError::MissingInitialState),
            Some(marker) => marker,
        };
        match find_unreachable(marker.state, &self.edges) {
            Some(i) => return Err(ConfigError::UnreachableSource(i)),
            None => {},
        }
        Ok(StateMachine { current: marker, edges: self.edges })
    }
}

impl StateMachine {
    /// Every edge is well-formed.
    #[verifier::type_invariant]
    pub open spec fn wf(self) -> bool {
        self@.wf()
    }

    /// The state that the entity is in.
    pub fn current_state(&self) -> (state: StateId)
        ensures
            state == self@.current.state,
    {
        self.current.state
    }

    /// The marker of the state that the entity is in.
    pub fn current_marker(&self) -> (marker: StateMarker)
        ensures
            marker == self@.current,
    {
        self.current
    }

    /// The edges, in their order of precedence.
    pub fn edges(&self) -> (edges: &Vec<Edge>)
        ensures
            edges@ == self@.edges,
    {
        &self.edges
    }

    /// Records that the entity entered the state of `marker`.
    pub(crate) fn enter(&mut self, marker: StateMarker)
        ensures
            final(self)@.current == marker,
            final(self)@.edges == old(self)@.edges,
        no_unwind
    {
        proof {
            use_type_invariant(&*self);
            assert(self@.edges == self.edges@);
        }
        self.current = marker;
    }
}

} // verus!
