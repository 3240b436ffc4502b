//! What a trigger reads and yields: the tick's context, the done marker, the
//! host's registry of resources, and outcomes with their payloads.

use vstd::prelude::*;

verus! {

/// A typed value that a satisfied trigger hands to the target-state factory.
#[derive(Clone, Copy, Debug, PartialEq, Eq)]
pub struct Payload {
    /// Identifies the type of the value.
    pub kind: u64,
    pub value: u64,
}

/// What evaluating a trigger yields.
#[derive(Clone, Copy, Debug, PartialEq, Eq)]
pub enum Outcome {
    NotSatisfied,
    /// Satisfied, with nothing to hand on.
    Satisfied,
    /// Satisfied, with a payload.
    SatisfiedWith(Payload),
}

impl Outcome {
    /// Whether the trigger was satisfied, with or without a payload.
    pub open spec fn is_satisfied(self) -> bool {
        !(self is NotSatisfied)
    }

    /// The payload of a satisfied outcome, if it has one.
    pub open spec fn payload(self) -> Option<Payload> {
        match self {
            Outcome::SatisfiedWith(p) => Some(p),
            _ => None,
        }
    }

    /// Tests whether the trigger was satisfied.
    pub fn satisfied(&self) -> (yes: bool)
        ensures
            yes == self.is_satisfied(),
        no_unwind
    {
        match self {
            Outcome::NotSatisfied => false,
            _ => true,
        }
    }

    /// The payload that the outcome carries, if any.
    pub fn carried(&self) -> (p: Option<Payload>)
        ensures
            p == self.payload(),
    {
        match self {
            Outcome::SatisfiedWith(p) => Some(*p),
            _ => None,
        }
    }
}

/// The done marker: a component that says the entity's current state has
/// finished its work. It may carry a value for the triggers that observe it.
#[derive(Clone, Copy, Debug, PartialEq, Eq)]
pub struct Done {
    pub payload: Option<Payload>,
}

/// An event the host raised this tick. The host decides who may see it: one
/// entity or all of them. An event lives for one tick, in which an entity
/// applies at most one edge, so no entity acts on the same event twice.
#[derive(Clone, Copy, Debug, PartialEq, Eq)]
pub struct Event {
    pub kind: u64,
    pub value: u64,
    /// The one entity that may see the event; `None` if every entity may.
    pub recipient: Option<u64>,
}

impl Event {
    /// Whether this event is of `kind` and visible to `entity`.
    pub open spec fn reaches(self, kind: u64, entity: u64) -> bool {
        self.kind == kind && (self.recipient is None || self.recipient == Some(entity))
    }

    /// Tests whether this event is of `kind` and visible to `entity`.
    pub fn is_for(&self, kind: u64, entity: u64) -> (yes: bool)
        ensures
            yes == self.reaches(kind, entity),
        no_unwind
    {
        if self.kind != kind {
            return false;
        }
        match self.recipient {
            None => true,
            Some(r) => r == entity,
        }
    }
}

/// What the host lets triggers read during one tick. The input snapshot and
/// the event queue are optional: a leaf that needs a missing one is not
/// satisfied.
#[derive(Debug, PartialEq, Eq)]
pub struct TickContext {
    /// Time elapsed since the simulation started, in the host's unit.
    pub elapsed: u64,
    /// The input actions that are active this tick.
    pub input: Option<Vec<u64>>,
    /// The events raised this tick, oldest first.
    pub events: Option<Vec<Event>>,
}

/// The mathematical content of a [`TickContext`].
pub struct TickView {
    pub elapsed: u64,
    pub input: Option<Seq<u64>>,
    pub events: Option<Seq<Event>>,
}

impl View for TickContext {
    type V = TickView;

    open spec fn view(&self) -> TickView {
        TickView {
            elapsed: self.elapsed,
            input: match self.input {
                Some(v) => Some(v@),
                None => None,
            },
            events: match self.events {
                Some(q) => Some(q@),
                None => None,
            },
        }
    }
}

/// The resources that the host registered: the kinds of event it may raise
/// and the input actions it may report.
#[derive(Debug, PartialEq, Eq)]
pub struct HostRegistry {
    pub events: Vec<u64>,
    pub inputs: Vec<u64>,
}

/// The mathematical content of a [`HostRegistry`].
pub struct RegistryView {
    pub events: Seq<u64>,
    pub inputs: Seq<u64>,
}

impl View for HostRegistry {
    type V = RegistryView;

    open spec fn view(&self) -> RegistryView {
        RegistryView { events: self.events@, inputs: self.inputs@ }
    }
}

/// A resource of the host that a trigger leaf reads.
#[derive(Clone, Copy, Debug, PartialEq, Eq)]
pub enum Resource {
    Event(u64),
    Input(u64),
}

/// All that a trigger may read: the owning entity, its done marker and the tick.
pub struct Scene {
    pub entity: u64,
    pub done: Option<Done>,
    pub tick: TickView,
}

/// The scene in which the triggers of `entity` are evaluated.
pub open spec fn scene_of(entity: u64, done: Option<Done>, tick: TickView) -> Scene {
    Scene { entity, done, tick }
}

/// The index of the oldest event in `queue` that is of `kind` and visible to
/// `entity`.
pub open spec fn first_event(queue: Seq<Event>, kind: u64, entity: u64) -> Option<int>
    decreases queue.len(),
{
    if queue.len() == 0 {
        None
    } else {
        match first_event(queue.drop_last(), kind, entity) {
            Some(i) => Some(i),
            None => if queue.last().reaches(kind, entity) {
                Some(queue.len() - 1)
            } else {
                None
            },
        }
    }
}

/// `first_event` finds the least index of a matching event, and finds none
/// exactly when no event matches.
pub proof fn lemma_first_event(queue: Seq<Event>, kind: u64, entity: u64)
    ensures
        match first_event(queue, kind, entity) {
            Some(i) => {
                &&& 0 <= i < queue.len()
                &&& queue[i].reaches(kind, entity)
                &&& forall|j: int| 0 <= j < i ==> !(#[trigger] queue[j]).reaches(kind, entity)
            },
            None => forall|j: int|
                0 <= j < queue.len() ==> !(#[trigger] queue[j]).reaches(kind, entity),
        },
    decreases queue.len(),
{
    if queue.len() > 0 {
        let front = queue.drop_last();
        lemma_first_event(front, kind, entity);
        assert(forall|j: int| 0 <= j < front.len() ==> front[j] == queue[j]);
    }
}

/// Finds the oldest event of `kind` that `entity` may see.
pub fn find_event(queue: &Vec<Event>, kind: u64, entity: u64) -> (found: Option<usize>)
    ensures
        match found {
            Some(i) => i < queue@.len() && first_event(queue@, kind, entity) == Some(i as int),
            None => first_event(queue@, kind, entity) is None,
        },
    no_unwind
{
    let mut i: usize = 0;
    while i < queue.len()
        invariant
            i <= queue.len(),
            forall|j: int| 0 <= j < i ==> !(#[trigger] queue@[j]).reaches(kind, entity),
        decreases queue.len() - i,
    {
        if queue[i].is_for(kind, entity) {
            proof {
                lemma_first_event(queue@, kind, entity);
            }
            return Some(i);
        }
        i += 1;
    }
    proof {
        lemma_first_event(queue@, kind, entity);
    }
    None
}

/// Tests whether `id` occurs in `ids`.
pub fn contains_id(ids: &Vec<u64>, id: u64) -> (found: bool)
    ensures
        found == ids@.contains(id),
    no_unwind
{
    let mut i: usize = 0;
    while i < ids.len()
        invariant
            i <= ids.len(),
            forall|j: int| 0 <= j < i ==> ids@[j] != id,
        decreases ids.len() - i,
    {
        if ids[i] == id {
            return true;
        }
        i += 1;
    }
    false
}

} // verus!
