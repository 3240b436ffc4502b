//! The entities that own a transition table, and the two phases of a tick:
//! the transition pass over all of them, then the removal of done markers.

use crate::context::{TickContext, TickView};
use crate::entity::{Anomaly, EntityRecord, EntityView, StepOutcome};
use vstd::prelude::*;

verus! {

/// The entities of the host that own a transition table.
#[derive(Debug, PartialEq, Eq)]
pub struct World {
    pub entities: Vec<EntityRecord>,
}

impl View for World {
    type V = Seq<EntityView>;

    open spec fn view(&self) -> Seq<EntityView> {
        Seq::new(self.entities@.len(), |i: int| self.entities@[i]@)
    }
}

/// Every entity is well-formed.
pub open spec fn all_wf(world: Seq<EntityView>) -> bool {
    forall|i: int| 0 <= i < world.len() ==> (#[trigger] world[i]).wf()
}

/// The entities after the transition pass of the tick `tick`: each one
/// evaluated by itself.
pub open spec fn passed(world: Seq<EntityView>, tick: TickView) -> Seq<EntityView> {
    Seq::new(world.len(), |i: int| world[i].stepped(tick))
}

/// The entities after the removal of done markers: none carries one, and
/// nothing else changed.
pub open spec fn cleaned(world: Seq<EntityView>) -> Seq<EntityView> {
    Seq::new(world.len(), |i: int| EntityView { done: None, ..world[i] })
}

/// The anomalies among the first `k` entities, in the order of the entities:
/// one for each entity without exactly one state marker.
pub open spec fn anomalies_upto(world: Seq<EntityView>, k: int) -> Seq<Anomaly>
    decreases k,
{
    if k <= 0 {
        Seq::empty()
    } else {
        let before = anomalies_upto(world, k - 1);
        if world[k - 1].markers.len() != 1 {
            before.push(
                Anomaly { entity: world[k - 1].id, markers: world[k - 1].markers.len() as usize },
            )
        } else {
            before
        }
    }
}

/// The anomalies that a transition pass over `world` reports.
pub open spec fn anomalies(world: Seq<EntityView>) -> Seq<Anomaly> {
    anomalies_upto(world, world.len() as int)
}

impl World {
    /// A world without entities.
    pub fn new() -> (world: World)
        ensures
            world@.len() == 0,
    {
        let world = World { entities: Vec::new() };
        assert(world@ =~= Seq::empty());
        world
    }

    /// Evaluates one tick for every entity, each by itself, and reports the
    /// entities that were skipped because they did not carry exactly one
    /// state marker.
    pub fn run_transition_pass(&mut self, tick: &TickContext) -> (report: Vec<Anomaly>)
        ensures
            final(self)@ == passed(old(self)@, tick@),
            report@ == anomalies(old(self)@),
    {
        let ghost before = self@;
        let mut report: Vec<Anomaly> = Vec::new();
        let n = self.entities.len();
        let mut i: usize = 0;
        while i < n
            invariant
                i <= n,
                n == before.len(),
                self@.len() == n,
                forall|j: int| 0 <= j < i ==> self@[j] == (#[trigger] before[j]).stepped(tick@),
                forall|j: int| i <= j < n ==> self@[j] == #[trigger] before[j],
                report@ == anomalies_upto(before, i as int),
            decreases n - i,
        {
            assert(self@[i as int] == before[i as int]);
            let ghost during = self@;
            let outcome = self.entities[i].step(tick);
            match outcome {
                StepOutcome::Skipped(anomaly) => {
                    report.push(anomaly);
                },
                _ => {},
            }
            proof {
                assert forall|j: int| 0 <= j < n && j != i implies self@[j] == during[j] by {}
            }
            i += 1;
        }
        assert(self@ =~= passed(before, tick@));
        report
    }

    /// Removes the done marker from every entity. This is the second phase
    /// of a tick: it runs when the transition pass is over for all entities.
    pub fn remove_done_markers(&mut self)
        ensures
            final(self)@ == cleaned(old(self)@),
    {
        let ghost before = self@;
        let n = self.entities.len();
        let mut i: usize = 0;
        while i < n
            invariant
                i <= n,
                n == before.len(),
                self@.len() == n,
                forall|j: int|
                    0 <= j < i ==> self@[j] == (EntityView { done: None, ..#[trigger] before[j] }),
                forall|j: int| i <= j < n ==> self@[j] == #[trigger] before[j],
            decreases n - i,
        {
            let ghost during = self@;
            self.entities[i].remove_done();
            proof {
                assert forall|j: int| 0 <= j < n && j != i implies self@[j] == during[j] by {}
            }
            i += 1;
        }
        assert(self@ =~= cleaned(before));
    }

    /// Runs one tick: the transition pass over all entities, then the
    /// removal of done markers.
    pub fn run_tick(&mut self, tick: &TickContext) -> (report: Vec<Anomaly>)
        ensures
            final(self)@ == cleaned(passed(old(self)@, tick@)),
            report@ == anomalies(old(self)@),
    {
        let report = self.run_transition_pass(tick);
        self.remove_done_markers();
        report
    }
}

} // verus!
