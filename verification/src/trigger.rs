//! The trigger algebra: leaves that read the entity and the tick, combinators
//! over them, and the one operation that evaluates a trigger.

use crate::context::{
    contains_id, find_event, first_event, scene_of, Done, HostRegistry, Outcome, Payload,
    RegistryView, Resource, Scene, TickContext,
};
use crate::latch::{
    lemma_splice_arm, lemma_splice_chain, lemma_splice_same, lemma_subrange_twice, splice, unset,
};
use vstd::prelude::*;

verus! {

/// A composable predicate over a [`Scene`].
#[derive(Debug, PartialEq, Eq)]
pub enum Trigger {
    /// Satisfied on every evaluation.
    Always,
    /// Never satisfied.
    Never,
    /// Satisfied while the entity carries a done marker; hands on the
    /// marker's payload if it has one.
    Done,
    /// Satisfied if an event of this kind, visible to the entity, was raised
    /// this tick; hands on the oldest such event's value.
    OnEvent(u64),
    /// Satisfied if the input snapshot reports this action as active.
    Input(u64),
    /// Satisfied once the elapsed time has reached this bound.
    Elapsed(u64),
    /// Satisfied if the child is not.
    Not(Box<Trigger>),
    /// Satisfied if both children are; the second is evaluated only if the
    /// first is satisfied. Hands on what the second child hands on.
    And(Box<Trigger>, Box<Trigger>),
    /// Satisfied if either child is; the second is evaluated only if the
    /// first is not satisfied. Hands on what the satisfied child hands on.
    Or(Box<Trigger>, Box<Trigger>),
    /// Sequencing: the second child is considered only on ticks after one on
    /// which the first was satisfied. One latch remembers that it was.
    Sequence(Box<Trigger>, Box<Trigger>),
}

impl Trigger {
    /// The number of latches the trigger needs: one for each `Sequence` in it.
    pub open spec fn latches(self) -> nat
        decreases self,
    {
        match self {
            Trigger::Not(t) => t.latches(),
            Trigger::And(a, b) => a.latches() + b.latches(),
            Trigger::Or(a, b) => a.latches() + b.latches(),
            Trigger::Sequence(a, b) => 1 + a.latches() + b.latches(),
            _ => 0,
        }
    }

    /// The outcome of evaluating the trigger in `scene`, given its latches.
    ///
    /// A trigger owns `self.latches()` latches. A binary combinator lays out
    /// those of its first child before those of its second; a `Sequence` puts
    /// its own latch in front of both.
    pub open spec fn outcome(self, scene: Scene, latches: Seq<bool>) -> Outcome
        decreases self,
    {
        match self {
            Trigger::Always => Outcome::Satisfied,
            Trigger::Never => Outcome::NotSatisfied,
            Trigger::Done => match scene.done {
                Some(marker) => match marker.payload {
                    Some(p) => Outcome::SatisfiedWith(p),
                    None => Outcome::Satisfied,
                },
                None => Outcome::NotSatisfied,
            },
            Trigger::OnEvent(kind) => match scene.tick.events {
                Some(queue) => match first_event(queue, kind, scene.entity) {
                    Some(i) => Outcome::SatisfiedWith(Payload { kind, value: queue[i].value }),
                    None => Outcome::NotSatisfied,
                },
                None => Outcome::NotSatisfied,
            },
            Trigger::Input(action) => match scene.tick.input {
                Some(active) => if active.contains(action) {
                    Outcome::Satisfied
                } else {
                    Outcome::NotSatisfied
                },
                None => Outcome::NotSatisfied,
            },
            Trigger::Elapsed(bound) => if scene.tick.elapsed >= bound {
                Outcome::Satisfied
            } else {
                Outcome::NotSatisfied
            },
            Trigger::Not(t) => if t.outcome(scene, latches).is_satisfied() {
                Outcome::NotSatisfied
            } else {
                Outcome::Satisfied
            },
            Trigger::And(a, b) => {
                let na = a.latches() as int;
                if a.outcome(scene, latches.subrange(0, na)).is_satisfied() {
                    b.outcome(scene, latches.subrange(na, na + b.latches()))
                } else {
                    Outcome::NotSatisfied
                }
            },
            Trigger::Or(a, b) => {
                let na = a.latches() as int;
                let first = a.outcome(scene, latches.subrange(0, na));
                if first.is_satisfied() {
                    first
                } else {
                    b.outcome(scene, latches.subrange(na, na + b.latches()))
                }
            },
            Trigger::Sequence(a, b) => {
                let na = a.latches() as int;
                if latches[0] {
                    b.outcome(scene, latches.subrange(1 + na, 1 + na + b.latches()))
                } else {
                    Outcome::NotSatisfied
                }
            },
        }
    }

    /// The trigger's latches after it was evaluated in `scene`. Only the
    /// children that were evaluated change theirs; a `Sequence` that was not
    /// armed becomes armed if its first child was satisfied.
    pub open spec fn latches_after(self, scene: Scene, latches: Seq<bool>) -> Seq<bool>
        decreases self,
    {
        match self {
            Trigger::Not(t) => t.latches_after(scene, latches),
            Trigger::And(a, b) => {
                let na = a.latches() as int;
                let la = latches.subrange(0, na);
                let lb = latches.subrange(na, na + b.latches());
                a.latches_after(scene, la) + if a.outcome(scene, la).is_satisfied() {
                    b.latches_after(scene, lb)
                } else {
                    lb
                }
            },
            Trigger::Or(a, b) => {
                let na = a.latches() as int;
                let la = latches.subrange(0, na);
                let lb = latches.subrange(na, na + b.latches());
                a.latches_after(scene, la) + if a.outcome(scene, la).is_satisfied() {
                    lb
                } else {
                    b.latches_after(scene, lb)
                }
            },
            Trigger::Sequence(a, b) => {
                let na = a.latches() as int;
                let la = latches.subrange(1, 1 + na);
                let lb = latches.subrange(1 + na, 1 + na + b.latches());
                if latches[0] {
                    seq![true] + la + b.latches_after(scene, lb)
                } else {
                    seq![a.outcome(scene, la).is_satisfied()] + a.latches_after(scene, la) + lb
                }
            },
            _ => latches,
        }
    }

    /// Evaluation never changes how many latches there are.
    pub proof fn lemma_latches_after_len(self, scene: Scene, latches: Seq<bool>)
        requires
            latches.len() == self.latches(),
        ensures
            self.latches_after(scene, latches).len() == latches.len(),
        decreases self,
    {
        match self {
            Trigger::Not(t) => {
                t.lemma_latches_after_len(scene, latches);
            },
            Trigger::And(a, b) => {
                let na = a.latches() as int;
                a.lemma_latches_after_len(scene, latches.subrange(0, na));
                b.lemma_latches_after_len(scene, latches.subrange(na, na + b.latches()));
            },
            Trigger::Or(a, b) => {
                let na = a.latches() as int;
                a.lemma_latches_after_len(scene, latches.subrange(0, na));
                b.lemma_latches_after_len(scene, latches.subrange(na, na + b.latches()));
            },
            Trigger::Sequence(a, b) => {
                let na = a.latches() as int;
                a.lemma_latches_after_len(scene, latches.subrange(1, 1 + na));
                b.lemma_latches_after_len(scene, latches.subrange(1 + na, 1 + na + b.latches()));
            },
            _ => {},
        }
    }

    /// Whether `out` and `after` are what evaluating the trigger yields and
    /// leaves behind, when its latches are the entries of `before` from `at` on.
    pub open spec fn evaluated(
        self,
        scene: Scene,
        before: Seq<bool>,
        at: int,
        out: Outcome,
        after: Seq<bool>,
    ) -> bool {
        let own = before.subrange(at, at + self.latches());
        &&& out == self.outcome(scene, own)
        &&& after == splice(before, at, self.latches_after(scene, own))
        &&& after.len() == before.len()
    }

    /// Whether `latches` holds the trigger's latches from index `at` on.
    pub open spec fn has_room(self, latches: Seq<bool>, at: int) -> bool {
        at + self.latches() <= latches.len()
    }

    /// Evaluates the trigger for `entity`, which carries the done marker
    /// `done`, in the tick `tick`. The trigger's latches are the entries of
    /// `latches` from index `at` on; no other entry changes. If `latches` is
    /// too short to hold them, the trigger is not satisfied and nothing
    /// changes.
    pub fn evaluate(
        &self,
        entity: u64,
        done: &Option<Done>,
        tick: &TickContext,
        latches: &mut Vec<bool>,
        at: usize,
    ) -> (out: Outcome)
        ensures
            self.has_room(old(latches)@, at as int) ==> self.evaluated(
                scene_of(entity, *done, tick@),
                old(latches)@,
                at as int,
                out,
                final(latches)@,
            ),
            !self.has_room(old(latches)@, at as int) ==> out == Outcome::NotSatisfied
                && final(latches)@ == old(latches)@,
    {
        if at <= latches.len() {
            match self.latches_within(latches.len() - at) {
                Some(_) => {
                    return self.evaluate_at(entity, done, tick, latches, at);
                },
                None => {},
            }
        }
        Outcome::NotSatisfied
    }

    /// Counts the latches that the trigger needs, as long as they are at most
    /// `limit`.
    pub fn latches_within(&self, limit: usize) -> (count: Option<usize>)
        ensures
            match count {
                Some(n) => n == self.latches() && n <= limit,
                None => self.latches() > limit,
            },
        decreases self,
    {
        match self {
            Trigger::Not(t) => t.latches_within(limit),
            Trigger::And(a, b) | Trigger::Or(a, b) => match a.latches_within(limit) {
                Some(na) => match b.latches_within(limit - na) {
                    Some(nb) => Some(na + nb),
                    None => None,
                },
                None => None,
            },
            Trigger::Sequence(a, b) => {
                if limit == 0 {
                    return None;
                }
                match a.latches_within(limit - 1) {
                    Some(na) => match b.latches_within(limit - 1 - na) {
                        Some(nb) => Some(1 + na + nb),
                        None => None,
                    },
                    None => None,
                }
            },
            _ => Some(0),
        }
    }

    /// Evaluates the trigger, whose latches are the entries of `latches` from
    /// index `at` on.
    pub(crate) fn evaluate_at(
        &self,
        entity: u64,
        done: &Option<Done>,
        tick: &TickContext,
        latches: &mut Vec<bool>,
        at: usize,
    ) -> (out: Outcome)
        requires
            at + self.latches() <= old(latches).len(),
        ensures
            self.evaluated(
                scene_of(entity, *done, tick@),
                old(latches)@,
                at as int,
                out,
                final(latches)@,
            ),
        decreases self, 1nat,
        no_unwind
    {
        match self {
            Trigger::Not(t) => {
                if t.evaluate_at(entity, done, tick, latches, at).satisfied() {
                    Outcome::NotSatisfied
                } else {
                    Outcome::Satisfied
                }
            },
            Trigger::And(_, _) => self.evaluate_and(entity, done, tick, latches, at),
            Trigger::Or(_, _) => self.evaluate_or(entity, done, tick, latches, at),
            Trigger::Sequence(_, _) => self.evaluate_sequence(entity, done, tick, latches, at),
            _ => {
                proof {
                    lemma_splice_same(latches@, at as int);
                }
                self.evaluate_leaf(entity, done, tick)
            },
        }
    }

    /// Evaluates a trigger that has no children.
    fn evaluate_leaf(&self, entity: u64, done: &Option<Done>, tick: &TickContext) -> (out: Outcome)
        requires
            !(self is Not),
            !(self is And),
            !(self is Or),
            !(self is Sequence),
        ensures
            forall|own: Seq<bool>|
                out == #[trigger] self.outcome(scene_of(entity, *done, tick@), own),
        no_unwind
    {
        match self {
            Trigger::Always => Outcome::Satisfied,
            Trigger::Done => match done {
                Some(marker) => match marker.payload {
                    Some(p) => Outcome::SatisfiedWith(p),
                    None => Outcome::Satisfied,
                },
                None => Outcome::NotSatisfied,
            },
            Trigger::OnEvent(kind) => match &tick.events {
                Some(queue) => match find_event(queue, *kind, entity) {
                    Some(i) => Outcome::SatisfiedWith(
                        Payload { kind: *kind, value: queue[i].value },
                    ),
                    None => Outcome::NotSatisfied,
                },
                None => Outcome::NotSatisfied,
            },
            Trigger::Input(action) => match &tick.input {
                Some(active) => if contains_id(active, *action) {
                    Outcome::Satisfied
                } else {
                    Outcome::NotSatisfied
                },
                None => Outcome::NotSatisfied,
            },
            Trigger::Elapsed(bound) => if tick.elapsed >= *bound {
                Outcome::Satisfied
            } else {
                Outcome::NotSatisfied
            },
            _ => Outcome::NotSatisfied,
        }
    }

    /// Evaluates a conjunction: the second child only if the first is satisfied.
    fn evaluate_and(
        &self,
        entity: u64,
        done: &Option<Done>,
        tick: &TickContext,
        latches: &mut Vec<bool>,
        at: usize,
    ) -> (out: Outcome)
        requires
            self is And,
            at + self.latches() <= old(latches).len(),
        ensures
            self.evaluated(
                scene_of(entity, *done, tick@),
                old(latches)@,
                at as int,
                out,
                final(latches)@,
            ),
        decreases self, 0nat,
        no_unwind
    {
        let ghost scene = scene_of(entity, *done, tick@);
        let ghost before = latches@;
        match self {
            Trigger::And(a, b) => {
                let na = a.count_latches();
                proof {
                    let own = before.subrange(at as int, at + self.latches());
                    let la = own.subrange(0, na as int);
                    let lb = own.subrange(na as int, na + b.latches());
                    lemma_subrange_twice(before, at as int, self.latches() as int, 0, na as int);
                    lemma_subrange_twice(
                        before,
                        at as int,
                        self.latches() as int,
                        na as int,
                        b.latches() as int,
                    );
                    a.lemma_latches_after_len(scene, la);
                    b.lemma_latches_after_len(scene, lb);
                    lemma_splice_chain(before, at as int, a.latches_after(scene, la), lb);
                    lemma_splice_chain(
                        before,
                        at as int,
                        a.latches_after(scene, la),
                        b.latches_after(scene, lb),
                    );
                }
                let first = a.evaluate_at(entity, done, tick, latches, at);
                if first.satisfied() {
                    b.evaluate_at(entity, done, tick, latches, at + na)
                } else {
                    Outcome::NotSatisfied
                }
            },
            _ => Outcome::NotSatisfied,
        }
    }

    /// Evaluates a disjunction: the second child only if the first is not
    /// satisfied.
    fn evaluate_or(
        &self,
        entity: u64,
        done: &Option<Done>,
        tick: &TickContext,
        latches: &mut Vec<bool>,
        at: usize,
    ) -> (out: Outcome)
        requires
            self is Or,
            at + self.latches() <= old(latches).len(),
        ensures
            self.evaluated(
                scene_of(entity, *done, tick@),
                old(latches)@,
                at as int,
                out,
                final(latches)@,
            ),
        decreases self, 0nat,
        no_unwind
    {
        let ghost scene = scene_of(entity, *done, tick@);
        let ghost before = latches@;
        match self {
            Trigger::Or(a, b) => {
                let na = a.count_latches();
                proof {
                    let own = before.subrange(at as int, at + self.latches());
                    let la = own.subrange(0, na as int);
                    let lb = own.subrange(na as int, na + b.latches());
                    lemma_subrange_twice(before, at as int, self.latches() as int, 0, na as int);
                    lemma_subrange_twice(
                        before,
                        at as int,
                        self.latches() as int,
                        na as int,
                        b.latches() as int,
                    );
                    a.lemma_latches_after_len(scene, la);
                    b.lemma_latches_after_len(scene, lb);
                    lemma_splice_chain(before, at as int, a.latches_after(scene, la), lb);
                    lemma_splice_chain(
                        before,
                        at as int,
                        a.latches_after(scene, la),
                        b.latches_after(scene, lb),
                    );
                }
                let first = a.evaluate_at(entity, done, tick, latches, at);
                if first.satisfied() {
                    first
                } else {
                    b.evaluate_at(entity, done, tick, latches, at + na)
                }
            },
            _ => Outcome::NotSatisfied,
        }
    }

    /// Evaluates a sequence: the second child if the latch is set, else the
    /// first child, whose outcome sets the latch.
    fn evaluate_sequence(
        &self,
        entity: u64,
        done: &Option<Done>,
        tick: &TickContext,
        latches: &mut Vec<bool>,
        at: usize,
    ) -> (out: Outcome)
        requires
            self is Sequence,
            at + self.latches() <= old(latches).len(),
        ensures
            self.evaluated(
                scene_of(entity, *done, tick@),
                old(latches)@,
                at as int,
                out,
                final(latches)@,
            ),
        decreases self, 0nat,
        no_unwind
    {
        let ghost scene = scene_of(entity, *done, tick@);
        let ghost before = latches@;
        match self {
            Trigger::Sequence(a, b) => {
                let na = a.count_latches();
                let ghost own = before.subrange(at as int, at + self.latches());
                let ghost la = own.subrange(1, 1 + na);
                let ghost lb = own.subrange(1 + na, 1 + na + b.latches());
                proof {
                    lemma_subrange_twice(before, at as int, self.latches() as int, 1, na as int);
                    lemma_subrange_twice(
                        before,
                        at as int,
                        self.latches() as int,
                        1 + na,
                        b.latches() as int,
                    );
                    a.lemma_latches_after_len(scene, la);
                    b.lemma_latches_after_len(scene, lb);
                }
                if latches[at] {
                    proof {
                        assert(before.subrange(at as int, at + 1 + na) =~= seq![true] + la);
                        lemma_splice_same(before, at as int);
                        lemma_splice_chain(
                            before,
                            at as int,
                            seq![true] + la,
                            b.latches_after(scene, lb),
                        );
                    }
                    b.evaluate_at(entity, done, tick, latches, at + 1 + na)
                } else {
                    let armed = a.evaluate_at(entity, done, tick, latches, at + 1).satisfied();
                    latches[at] = armed;
                    proof {
                        lemma_splice_arm(before, at as int, armed, a.latches_after(scene, la), lb);
                    }
                    Outcome::NotSatisfied
                }
            },
            _ => Outcome::NotSatisfied,
        }
    }

    /// The kind of the payload that the trigger hands on whenever it is
    /// satisfied, where the trigger alone settles that it hands one on.
    pub open spec fn payload_kind(self) -> Option<u64>
        decreases self,
    {
        match self {
            Trigger::OnEvent(kind) => Some(kind),
            Trigger::And(_a, b) => b.payload_kind(),
            Trigger::Or(a, b) => if a.payload_kind() == b.payload_kind() {
                a.payload_kind()
            } else {
                None
            },
            Trigger::Sequence(_a, b) => b.payload_kind(),
            _ => None,
        }
    }

    /// A trigger with a payload kind hands on a payload of that kind whenever
    /// it is satisfied.
    pub proof fn lemma_payload_kind(self, scene: Scene, latches: Seq<bool>)
        ensures
            self.payload_kind() matches Some(kind) ==> (self.outcome(
                scene,
                latches,
            ).is_satisfied() ==> (self.outcome(scene, latches).payload() matches Some(p)
                && p.kind == kind)),
        decreases self,
    {
        match self {
            Trigger::And(a, b) => {
                let na = a.latches() as int;
                b.lemma_payload_kind(scene, latches.subrange(na, na + b.latches()));
            },
            Trigger::Or(a, b) => {
                let na = a.latches() as int;
                a.lemma_payload_kind(scene, latches.subrange(0, na));
                b.lemma_payload_kind(scene, latches.subrange(na, na + b.latches()));
            },
            Trigger::Sequence(a, b) => {
                let na = a.latches() as int;
                b.lemma_payload_kind(scene, latches.subrange(1 + na, 1 + na + b.latches()));
            },
            _ => {},
        }
    }

    /// Computes the payload kind of the trigger.
    pub fn yields(&self) -> (kind: Option<u64>)
        ensures
            kind == self.payload_kind(),
        decreases self,
    {
        match self {
            Trigger::OnEvent(kind) => Some(*kind),
            Trigger::And(_a, b) => b.yields(),
            Trigger::Or(a, b) => {
                match (a.yields(), b.yields()) {
                    (Some(x), Some(y)) => if x == y {
                        Some(x)
                    } else {
                        None
                    },
                    _ => None,
                }
            },
            Trigger::Sequence(_a, b) => b.yields(),
            _ => None,
        }
    }

    /// The first leaf, from left to right, that reads a resource missing from
    /// the registry.
    pub open spec fn first_unregistered(self, registry: RegistryView) -> Option<Resource>
        decreases self,
    {
        match self {
            Trigger::OnEvent(kind) => if registry.events.contains(kind) {
                None
            } else {
                Some(Resource::Event(kind))
            },
            Trigger::Input(action) => if registry.inputs.contains(action) {
                None
            } else {
                Some(Resource::Input(action))
            },
            Trigger::Not(t) => t.first_unregistered(registry),
            Trigger::And(a, b) | Trigger::Or(a, b) | Trigger::Sequence(a, b) => {
                match a.first_unregistered(registry) {
                    Some(r) => Some(r),
                    None => b.first_unregistered(registry),
                }
            },
            _ => None,
        }
    }

    /// Finds the first leaf that reads a resource the host never registered.
    pub fn find_unregistered(&self, registry: &HostRegistry) -> (missing: Option<Resource>)
        ensures
            missing == self.first_unregistered(registry@),
        decreases self,
    {
        match self {
            Trigger::OnEvent(kind) => if contains_id(&registry.events, *kind) {
                None
            } else {
                Some(Resource::Event(*kind))
            },
            Trigger::Input(action) => if contains_id(&registry.inputs, *action) {
                None
            } else {
                Some(Resource::Input(*action))
            },
            Trigger::Not(t) => t.find_unregistered(registry),
            Trigger::And(a, b) | Trigger::Or(a, b) | Trigger::Sequence(a, b) => {
                match a.find_unregistered(registry) {
                    Some(r) => Some(r),
                    None => b.find_unregistered(registry),
                }
            },
            _ => None,
        }
    }

    /// Appends the trigger's latches, none of them set, to `latches`.
    pub fn reserve(&self, latches: &mut Vec<bool>)
        ensures
            final(latches)@ == old(latches)@ + unset(self.latches()),
        decreases self,
    {
        let ghost before = latches@;
        match self {
            Trigger::Not(t) => {
                t.reserve(latches);
            },
            Trigger::And(a, b) | Trigger::Or(a, b) => {
                a.reserve(latches);
                b.reserve(latches);
            },
            Trigger::Sequence(a, b) => {
                latches.push(false);
                a.reserve(latches);
                b.reserve(latches);
            },
            _ => {},
        }
        assert(latches@ =~= before + unset(self.latches()));
    }

    /// Makes a copy of the trigger.
    pub fn duplicate(&self) -> (copy: Trigger)
        ensures
            copy == *self,
        decreases self,
    {
        match self {
            Trigger::Always => Trigger::Always,
            Trigger::Never => Trigger::Never,
            Trigger::Done => Trigger::Done,
            Trigger::OnEvent(kind) => Trigger::OnEvent(*kind),
            Trigger::Input(action) => Trigger::Input(*action),
            Trigger::Elapsed(bound) => Trigger::Elapsed(*bound),
            Trigger::Not(t) => Trigger::Not(Box::new(t.duplicate())),
            Trigger::And(a, b) => Trigger::And(Box::new(a.duplicate()), Box::new(b.duplicate())),
            Trigger::Or(a, b) => Trigger::Or(Box::new(a.duplicate()), Box::new(b.duplicate())),
            Trigger::Sequence(a, b) => Trigger::Sequence(
                Box::new(a.duplicate()),
                Box::new(b.duplicate()),
            ),
        }
    }

    /// Counts the latches the trigger needs.
    pub fn count_latches(&self) -> (n: usize)
        requires
            self.latches() <= usize::MAX,
        ensures
            n == self.latches(),
        decreases self,
        no_unwind
    {
        match self {
            Trigger::Not(t) => t.count_latches(),
            Trigger::And(a, b) => a.count_latches() + b.count_latches(),
            Trigger::Or(a, b) => a.count_latches() + b.count_latches(),
            Trigger::Sequence(a, b) => 1 + a.count_latches() + b.count_latches(),
            _ => 0,
        }
    }
}

/// The trigger that is satisfied on every evaluation.
pub fn always() -> (trigger: Trigger)
    ensures
        trigger == Trigger::Always,
{
    Trigger::Always
}

/// The trigger that is never satisfied.
pub fn never() -> (trigger: Trigger)
    ensures
        trigger == Trigger::Never,
{
    Trigger::Never
}

/// The trigger that is satisfied while the entity carries a done marker.
pub fn done() -> (trigger: Trigger)
    ensures
        trigger == Trigger::Done,
{
    Trigger::Done
}

/// The trigger that is satisfied if an event of `kind` was raised this tick.
pub fn on_event(kind: u64) -> (trigger: Trigger)
    ensures
        trigger == Trigger::OnEvent(kind),
{
    Trigger::OnEvent(kind)
}

/// The trigger that is satisfied while the input action `action` is active.
pub fn input(action: u64) -> (trigger: Trigger)
    ensures
        trigger == Trigger::Input(action),
{
    Trigger::Input(action)
}

/// The trigger that is satisfied once the elapsed time has reached `bound`.
pub fn elapsed(bound: u64) -> (trigger: Trigger)
    ensures
        trigger == Trigger::Elapsed(bound),
{
    Trigger::Elapsed(bound)
}

impl Trigger {
    /// The negation of this trigger.
    pub fn not(self) -> (trigger: Trigger)
        ensures
            trigger == Trigger::Not(Box::new(self)),
    {
        Trigger::Not(Box::new(self))
    }

    /// The conjunction of this trigger and `other`, in this order.
    pub fn and(self, other: Trigger) -> (trigger: Trigger)
        ensures
            trigger == Trigger::And(Box::new(self), Box::new(other)),
    {
        Trigger::And(Box::new(self), Box::new(other))
    }

    /// The disjunction of this trigger and `other`, in this order.
    pub fn or(self, other: Trigger) -> (trigger: Trigger)
        ensures
            trigger == Trigger::Or(Box::new(self), Box::new(other)),
    {
        Trigger::Or(Box::new(self), Box::new(other))
    }

    /// The sequence of this trigger and `other`: `other` counts only on
    /// ticks after one on which this trigger was satisfied.
    pub fn followed_by(self, other: Trigger) -> (trigger: Trigger)
        ensures
            trigger == Trigger::Sequence(Box::new(self), Box::new(other)),
    {
        Trigger::Sequence(Box::new(self), Box::new(other))
    }
}

impl Clone for Trigger {
    fn clone(&self) -> (copy: Self)
        ensures
            copy == *self,
    {
        self.duplicate()
    }
}

} // verus!
