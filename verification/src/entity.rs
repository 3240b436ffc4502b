//! One entity of the host: the components that the evaluator reads and
//! writes, and the evaluation of one tick for that entity.

use crate::context::{scene_of, Done, Outcome, Scene, TickContext, TickView};
use crate::latch::{splice, unset};
use crate::machine::{latch_base, latch_total, lemma_latch_base_ordered, MachineView, StateMachine};
use crate::state::{StateId, StateMarker};
use vstd::pervasive::unreached;
use vstd::prelude::*;

verus! {

/// An entity that reached the evaluator without exactly one state marker.
#[derive(Clone, Copy, Debug, PartialEq, Eq)]
pub struct Anomaly {
    pub entity: u64,
    /// How many state markers the entity carried.
    pub markers: usize,
}

/// What one tick did to an entity.
#[derive(Clone, Copy, Debug, PartialEq, Eq)]
pub enum StepOutcome {
    /// No edge fired; the state and the table are as they were.
    Idle,
    /// The edge at index `edge` fired: the marker `from` was removed and the
    /// marker `to` inserted.
    Transitioned { edge: usize, from: StateMarker, to: StateMarker },
    /// The entity was not evaluated.
    Skipped(Anomaly),
}

/// The components of one entity: its state markers, its done marker, its
/// transition table and the latches of the table's triggers.
#[derive(Debug, PartialEq, Eq)]
pub struct EntityRecord {
    id: u64,
    markers: Vec<StateMarker>,
    done: Option<Done>,
    machine: StateMachine,
    latches: Vec<bool>,
}

/// The mathematical content of an [`EntityRecord`].
pub struct EntityView {
    pub id: u64,
    /// The state markers on the entity; exactly one, unless the host broke
    /// the invariant.
    pub markers: Seq<StateMarker>,
    pub done: Option<Done>,
    pub machine: MachineView,
    /// The latches of the triggers of all edges, edge after edge.
    pub latches: Seq<bool>,
}

impl View for EntityRecord {
    type V = EntityView;

    closed spec fn view(&self) -> EntityView {
        EntityView {
            id: self.id,
            markers: self.markers@,
            done: self.done,
            machine: self.machine@,
            latches: self.latches@,
        }
    }
}

impl EntityView {
    /// The table is well-formed and there is one latch for each that its
    /// triggers need.
    pub open spec fn wf(self) -> bool {
        &&& self.machine.wf()
        &&& self.latches.len() == latch_total(self.machine.edges)
    }

    /// The entity carries exactly one state marker, and it is the one that
    /// the table records as the current state.
    pub open spec fn coherent(self) -> bool {
        self.markers == seq![self.machine.current]
    }

    /// What the entity's triggers read in the tick `tick`.
    pub open spec fn scene(self, tick: TickView) -> Scene {
        scene_of(self.id, self.done, tick)
    }

    /// The latches of the trigger of edge `i`.
    pub open spec fn latches_of(self, i: int) -> Seq<bool> {
        self.latches.subrange(
            latch_base(self.machine.edges, i) as int,
            latch_base(self.machine.edges, i + 1) as int,
        )
    }

    /// The outcome of the trigger of edge `i` in the tick `tick`.
    pub open spec fn outcome_of(self, tick: TickView, i: int) -> Outcome {
        self.machine.edges[i].trigger.outcome(self.scene(tick), self.latches_of(i))
    }

    /// Whether edge `i` leaves from the entity's state.
    pub open spec fn matches_edge(self, i: int) -> bool {
        self.markers.len() == 1 && self.machine.edges[i].source.accepts(self.markers[0].state)
    }

    /// Whether edge `i` matches the entity's state and its trigger is
    /// satisfied in the tick `tick`.
    pub open spec fn fires(self, tick: TickView, i: int) -> bool {
        self.matches_edge(i) && self.outcome_of(tick, i).is_satisfied()
    }

    /// The first edge from index `from` on that fires.
    pub open spec fn first_firing_from(self, tick: TickView, from: int) -> Option<int>
        decreases self.machine.edges.len() - from,
    {
        if from >= self.machine.edges.len() {
            None
        } else if self.fires(tick, from) {
            Some(from)
        } else {
            self.first_firing_from(tick, from + 1)
        }
    }

    /// The edge that is applied in the tick `tick`: the first that fires.
    pub open spec fn first_firing(self, tick: TickView) -> Option<int> {
        self.first_firing_from(tick, 0)
    }

    /// The latches after the triggers of the matching edges before index `k`
    /// were evaluated, none of them satisfied.
    pub open spec fn settled_latches(self, tick: TickView, k: int) -> Seq<bool>
        decreases k,
    {
        if k <= 0 {
            self.latches
        } else {
            let settled = self.settled_latches(tick, k - 1);
            if self.matches_edge(k - 1) {
                splice(
                    settled,
                    latch_base(self.machine.edges, k - 1) as int,
                    self.machine.edges[k - 1].trigger.latches_after(
                        self.scene(tick),
                        self.latches_of(k - 1),
                    ),
                )
            } else {
                settled
            }
        }
    }

    /// The marker that the target factory of edge `k` makes in the tick `tick`.
    pub open spec fn target_of(self, tick: TickView, k: int) -> Option<StateMarker> {
        self.machine.edges[k].target.produced(self.outcome_of(tick, k))
    }

    /// The entity after the evaluation of the tick `tick`.
    ///
    /// An entity without exactly one state marker is left as it is. If no
    /// edge fires, the markers and the table stay as they are, and the
    /// latches of the matching edges advance. If an edge fires, the first
    /// such edge is applied: the marker that its target factory makes
    /// replaces the state marker, the table records it as the current state,
    /// and all latches are reset. The done marker is never touched.
    pub open spec fn stepped(self, tick: TickView) -> EntityView {
        if self.markers.len() != 1 {
            self
        } else {
            match self.first_firing(tick) {
                None => EntityView {
                    latches: self.settled_latches(tick, self.machine.edges.len() as int),
                    ..self
                },
                Some(k) => match self.target_of(tick, k) {
                    Some(made) => EntityView {
                        markers: seq![made],
                        machine: MachineView { current: made, edges: self.machine.edges },
                        latches: unset(self.latches.len()),
                        ..self
                    },
                    None => self,
                },
            }
        }
    }

    /// What the evaluation of the tick `tick` reports for the entity.
    pub open spec fn step_report(self, tick: TickView) -> StepOutcome {
        if self.markers.len() != 1 {
            StepOutcome::Skipped(Anomaly { entity: self.id, markers: self.markers.len() as usize })
        } else {
            match self.first_firing(tick) {
                None => StepOutcome::Idle,
                Some(k) => match self.target_of(tick, k) {
                    Some(made) => StepOutcome::Transitioned {
                        edge: k as usize,
                        from: self.markers[0],
                        to: made,
                    },
                    None => StepOutcome::Idle,
                },
            }
        }
    }

    /// `first_firing_from` finds the least index from `from` on of an edge
    /// that fires, and none exactly when no such edge fires.
    pub proof fn lemma_first_firing_from(self, tick: TickView, from: int)
        requires
            0 <= from,
        ensures
            match self.first_firing_from(tick, from) {
                Some(k) => {
                    &&& from <= k < self.machine.edges.len()
                    &&& self.fires(tick, k)
                    &&& forall|j: int| from <= j < k ==> !self.fires(tick, j)
                },
                None => forall|j: int|
                    from <= j < self.machine.edges.len() ==> !self.fires(tick, j),
            },
        decreases self.machine.edges.len() - from,
    {
        if from < self.machine.edges.len() && !self.fires(tick, from) {
            self.lemma_first_firing_from(tick, from + 1);
        }
    }

    /// The latches of the edges from index `k` on are untouched while the
    /// edges before `k` are evaluated, and the number of latches stays.
    pub proof fn lemma_settled_latches(self, tick: TickView, k: int)
        requires
            self.wf(),
            0 <= k <= self.machine.edges.len(),
        ensures
            self.settled_latches(tick, k).len() == self.latches.len(),
            forall|p: int|
                latch_base(self.machine.edges, k) <= p < self.latches.len()
                    ==> self.settled_latches(tick, k)[p] == self.latches[p],
        decreases k,
    {
        if k > 0 {
            self.lemma_settled_latches(tick, k - 1);
            let edges = self.machine.edges;
            lemma_latch_base_ordered(edges, k - 1, edges.len() as int);
            self.machine.edges[k - 1].trigger.lemma_latches_after_len(
                self.scene(tick),
                self.latches_of(k - 1),
            );
        }
    }
}

/// Resets every latch.
fn clear_latches(latches: &mut Vec<bool>)
    ensures
        final(latches)@ == unset(old(latches)@.len()),
    no_unwind
{
    let n = latches.len();
    let mut i: usize = 0;
    while i < n
        invariant
            i <= n,
            latches.len() == n,
            forall|j: int| 0 <= j < i ==> !latches@[j],
        decreases n - i,
    {
        latches[i] = false;
        i += 1;
    }
    assert(latches@ =~= unset(n as nat));
}

impl EntityRecord {
    /// The table is well-formed and every latch that it needs is there.
    #[verifier::type_invariant]
    pub open spec fn wf(self) -> bool {
        self@.wf()
    }

    /// Makes an entity that starts in the table's current state, with no done
    /// marker and no latch set.
    pub fn spawn(id: u64, machine: StateMachine) -> (entity: EntityRecord)
        ensures
            entity@.id == id,
            entity@.markers == seq![machine@.current],
            entity@.done is None,
            entity@.machine == machine@,
            entity@.latches == unset(latch_total(machine@.edges)),
            entity@.coherent(),
    {
        proof {
            use_type_invariant(&machine);
        }
        let mut latches: Vec<bool> = Vec::new();
        let n = machine.edges().len();
        let mut i: usize = 0;
        while i < n
            invariant
                i <= n,
                n == machine@.edges.len(),
                latches@ == unset(latch_base(machine@.edges, i as int)),
            decreases n - i,
        {
            machine.edges()[i].trigger.reserve(&mut latches);
            i += 1;
            assert(latches@ =~= unset(latch_base(machine@.edges, i as int)));
        }
        let mut markers: Vec<StateMarker> = Vec::new();
        markers.push(machine.current_marker());
        assert(markers@ =~= seq![machine@.current]);
        EntityRecord { id, markers, done: None, machine, latches }
    }

    /// The entity's identifier in the host.
    pub fn id(&self) -> (id: u64)
        ensures
            id == self@.id,
    {
        self.id
    }

    /// The state markers on the entity.
    pub fn state_markers(&self) -> (markers: &Vec<StateMarker>)
        ensures
            markers@ == self@.markers,
    {
        &self.markers
    }

    /// The state that the entity is in, if it carries exactly one state
    /// marker.
    pub fn current_state(&self) -> (state: Option<StateId>)
        ensures
            state == if self@.markers.len() == 1 {
                Some(self@.markers[0].state)
            } else {
                None
            },
    {
        if self.markers.len() == 1 {
            Some(self.markers[0].state)
        } else {
            None
        }
    }

    /// The done marker, if the entity carries one.
    pub fn done(&self) -> (done: Option<Done>)
        ensures
            done == self@.done,
    {
        self.done
    }

    /// The entity's transition table.
    pub fn machine(&self) -> (machine: &StateMachine)
        ensures
            machine@ == self@.machine,
    {
        &self.machine
    }

    /// The latches of the table's triggers.
    pub fn latches(&self) -> (latches: &Vec<bool>)
        ensures
            latches@ == self@.latches,
    {
        &self.latches
    }

    /// Puts a done marker on the entity, in place of the one it may carry.
    pub fn insert_done(&mut self, marker: Done)
        ensures
            final(self)@ == (EntityView { done: Some(marker), ..old(self)@ }),
    {
        proof {
            use_type_invariant(&*self);
        }
        self.done = Some(marker);
    }

    /// Takes the done marker off the entity.
    pub fn remove_done(&mut self)
        ensures
            final(self)@ == (EntityView { done: None, ..old(self)@ }),
    {
        proof {
            use_type_invariant(&*self);
        }
        self.done = None;
    }

    /// Puts one more state marker on the entity. The host's storage allows
    /// it; the evaluator skips an entity that carries more than one.
    pub fn insert_state_marker(&mut self, marker: StateMarker)
        ensures
            final(self)@ == (EntityView {
                markers: old(self)@.markers.push(marker),
                ..old(self)@
            }),
    {
        proof {
            use_type_invariant(&*self);
        }
        // The markers are built anew: a field of a type with an invariant
        // cannot be lent to `push`.
        let mut markers: Vec<StateMarker> = Vec::new();
        let mut i: usize = 0;
        while i < self.markers.len()
            invariant
                i <= self.markers.len(),
                markers@ == self.markers@.subrange(0, i as int),
            decreases self.markers.len() - i,
        {
            markers.push(self.markers[i]);
            i += 1;
            assert(markers@ =~= self.markers@.subrange(0, i as int));
        }
        markers.push(marker);
        assert(markers@ =~= self.markers@.push(marker));
        self.markers = markers;
    }

    /// Takes every state marker off the entity. The host's storage allows
    /// it; the evaluator skips an entity that carries none.
    pub fn remove_state_markers(&mut self)
        ensures
            final(self)@ == (EntityView { markers: Seq::empty(), ..old(self)@ }),
    {
        proof {
            use_type_invariant(&*self);
        }
        self.markers = Vec::new();
        assert(self.markers@ =~= Seq::empty());
    }

    /// Evaluates one tick for the entity: walks the edges in their order,
    /// evaluates the trigger of each edge that matches the current state, and
    /// applies the first edge whose trigger is satisfied. Edges behind it are
    /// not evaluated. An entity without exactly one state marker is skipped
    /// and reported.
    pub fn step(&mut self, tick: &TickContext) -> (report: StepOutcome)
        ensures
            final(self)@ == old(self)@.stepped(tick@),
            report == old(self)@.step_report(tick@),
    {
        proof {
            use_type_invariant(&*self);
        }
        if self.markers.len() != 1 {
            return StepOutcome::Skipped(Anomaly { entity: self.id, markers: self.markers.len() });
        }
        let ghost before = self@;
        let from = self.markers[0];
        let n = self.machine.edges().len();
        let mut base: usize = 0;
        let mut i: usize = 0;
        while i < n
            invariant
                before == old(self)@,
                before.wf(),
                before.markers.len() == 1,
                from == before.markers[0],
                n == before.machine.edges.len(),
                i <= n,
                base == latch_base(before.machine.edges, i as int),
                self@.id == before.id,
                self@.markers == before.markers,
                self@.done == before.done,
                self@.machine == before.machine,
                self@.latches == before.settled_latches(tick@, i as int),
                forall|j: int| 0 <= j < i ==> !before.fires(tick@, j),
            decreases n - i,
        {
            proof {
                before.lemma_settled_latches(tick@, i as int);
                lemma_latch_base_ordered(before.machine.edges, i as int, n as int);
                assert(self.latches.len() == before.latches.len());
            }
            let edge = &self.machine.edges()[i];
            let count = edge.trigger.count_latches();
            if edge.source.is_match(from.state) {
                assert(self@.latches.subrange(base as int, base + count) =~= before.latches_of(
                    i as int,
                ));
                let out = edge.trigger.evaluate_at(
                    self.id,
                    &self.done,
                    tick,
                    &mut self.latches,
                    base,
                );
                if out.satisfied() {
                    let made = edge.target.produce(&out);
                    proof {
                        before.lemma_first_firing_from(tick@, 0);
                        assert(before.fires(tick@, i as int));
                        assert(before.machine.edges[i as int].wf());
                        before.machine.edges[i as int].lemma_target_made(
                            before.scene(tick@),
                            before.latches_of(i as int),
                        );
                    }
                    match made {
                        Some(to) => {
                            self.markers[0] = to;
                            self.machine.enter(to);
                            clear_latches(&mut self.latches);
                            assert(self@.markers =~= seq![to]);
                            return StepOutcome::Transitioned { edge: i, from, to };
                        },
                        // A well-formed edge makes a marker from every
                        // satisfied outcome of its trigger.
                        None => {
                            return unreached();
                        },
                    }
                }
            }
            base = base + count;
            i = i + 1;
        }
        proof {
            before.lemma_first_firing_from(tick@, 0);
            before.lemma_settled_latches(tick@, n as int);
        }
        StepOutcome::Idle
    }
}

} // verus!
