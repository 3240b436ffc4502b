//! What holds of every tick, stated over the models of the entities and
//! proved from the definitions of the transition pass and the cleanup.

use crate::context::{Done, Event, Outcome, Scene, TickView};
use crate::entity::{EntityView, StepOutcome};
use crate::latch::unset;
use crate::state::{StateId, StateMatcher};
use crate::trigger::Trigger;
use crate::world::{all_wf, cleaned, passed};
use vstd::prelude::*;

verus! {

/// Neither phase of a tick changes how many state markers an entity
/// carries. An entity that enters the transition pass with exactly one state
/// marker leaves it with exactly one: never none, never more.
pub proof fn lemma_pass_keeps_marker_count(world: Seq<EntityView>, tick: TickView, i: int)
    requires
        0 <= i < world.len(),
    ensures
        passed(world, tick)[i].markers.len() == world[i].markers.len(),
        cleaned(passed(world, tick))[i].markers.len() == world[i].markers.len(),
        world[i].markers.len() == 1 ==> passed(world, tick)[i].markers.len() == 1,
{
}

/// When a tick applies an edge, the entity's one state marker is the one
/// that the edge's target factory made, and the table records its state as
/// the current one.
pub proof fn lemma_applied_edge_sets_state(entity: EntityView, tick: TickView, k: int)
    requires
        entity.wf(),
        entity.first_firing(tick) == Some(k),
    ensures
        entity.target_of(tick, k) matches Some(made) && made.state
            == entity.machine.edges[k].target.state() && entity.stepped(tick).markers
            == seq![made] && entity.stepped(tick).machine.current == made
            && entity.stepped(tick).machine.edges == entity.machine.edges
            && entity.stepped(tick).latches == unset(entity.latches.len())
            && entity.step_report(tick) == (StepOutcome::Transitioned {
            edge: k as usize,
            from: entity.markers[0],
            to: made,
        }),
{
    entity.lemma_first_firing_from(tick, 0);
    assert(entity.machine.edges[k].wf());
    entity.machine.edges[k].lemma_target_made(entity.scene(tick), entity.latches_of(k));
}

/// A tick keeps the table in step with the entity: if the entity's one state
/// marker is the one that the table records as current, the same holds after
/// the tick.
pub proof fn lemma_tick_keeps_coherence(entity: EntityView, tick: TickView)
    requires
        entity.wf(),
        entity.coherent(),
    ensures
        entity.stepped(tick).coherent(),
{
    match entity.first_firing(tick) {
        Some(k) => {
            lemma_applied_edge_sets_state(entity, tick, k);
        },
        None => {},
    }
}

/// The order of the edges is their precedence: of two edges that both match
/// the entity's state and whose triggers are both satisfied in a tick, the
/// later one is not applied. The edge that is applied is the earlier one, or
/// one declared before it that fires too; it is the earlier one if no edge
/// before it fires.
pub proof fn lemma_earlier_edge_wins(entity: EntityView, tick: TickView, i: int, j: int)
    requires
        entity.wf(),
        0 <= i < j < entity.machine.edges.len(),
        entity.fires(tick, i),
        entity.fires(tick, j),
    ensures
        entity.first_firing(tick) matches Some(k) && k <= i && entity.stepped(tick).markers
            == seq![entity.target_of(tick, k).unwrap()],
        entity.first_firing(tick) != Some(j),
        (forall|h: int| 0 <= h < i ==> !entity.fires(tick, h)) ==> entity.first_firing(tick)
            == Some(i),
{
    entity.lemma_first_firing_from(tick, 0);
    lemma_applied_edge_sets_state(entity, tick, entity.first_firing(tick).unwrap());
}

/// The matcher for any state matches every state.
pub proof fn lemma_any_state_matches(state: StateId)
    ensures
        StateMatcher::AnyState.accepts(state),
{
}

/// An edge that leaves from any state matches an entity with one state
/// marker, whatever its state is.
pub proof fn lemma_any_state_edge_matches(entity: EntityView, i: int)
    requires
        0 <= i < entity.machine.edges.len(),
        entity.machine.edges[i].source == StateMatcher::AnyState,
        entity.markers.len() == 1,
    ensures
        entity.matches_edge(i),
{
}

/// The trigger `Always` is satisfied in every scene; the trigger `Never` in
/// none.
pub proof fn lemma_always_and_never(scene: Scene, latches: Seq<bool>)
    ensures
        Trigger::Always.outcome(scene, latches) == Outcome::Satisfied,
        Trigger::Never.outcome(scene, latches) == Outcome::NotSatisfied,
{
}

/// A conjunction whose first child is not satisfied is not satisfied, and a
/// disjunction whose first child is satisfied yields what that child
/// yields; in both cases the second child is not evaluated, so its latches
/// stay as they were.
pub proof fn lemma_combinators_stop_early(
    first: Trigger,
    second: Trigger,
    scene: Scene,
    latches: Seq<bool>,
)
    ensures
        ({
            let both = Trigger::And(Box::new(first), Box::new(second));
            let either = Trigger::Or(Box::new(first), Box::new(second));
            let split = first.latches() as int;
            let mine = latches.subrange(0, split);
            let rest = latches.subrange(split, split + second.latches());
            let out = first.outcome(scene, mine);
            &&& !out.is_satisfied() ==> both.outcome(scene, latches) == Outcome::NotSatisfied
                && both.latches_after(scene, latches) == first.latches_after(scene, mine) + rest
            &&& out.is_satisfied() ==> either.outcome(scene, latches) == out
                && either.latches_after(scene, latches) == first.latches_after(scene, mine) + rest
        }),
{
}

/// A sequence that is not armed is not satisfied, whatever its children
/// yield, and is armed afterwards exactly if its first child was satisfied.
/// An armed sequence yields what its second child yields, and stays armed.
pub proof fn lemma_sequence_spans_ticks(
    first: Trigger,
    second: Trigger,
    scene: Scene,
    latches: Seq<bool>,
)
    ensures
        ({
            let sequence = Trigger::Sequence(Box::new(first), Box::new(second));
            let split = 1 + first.latches() as int;
            let early = latches.subrange(1, split);
            let late = latches.subrange(split, split + second.latches());
            &&& !latches[0] ==> sequence.outcome(scene, latches) == Outcome::NotSatisfied
                && sequence.latches_after(scene, latches)[0] == first.outcome(
                scene,
                early,
            ).is_satisfied()
            &&& latches[0] ==> sequence.outcome(scene, latches) == second.outcome(scene, late)
                && sequence.latches_after(scene, latches)[0]
        }),
{
}

/// An event that is addressed to one entity reaches no other entity.
pub proof fn lemma_addressed_event_has_one_consumer(
    event: Event,
    kind: u64,
    entity: u64,
    other: u64,
)
    requires
        event.recipient == Some(entity),
        other != entity,
    ensures
        !event.reaches(kind, other),
{
}

/// A leaf that reads the event queue or the input snapshot is not satisfied
/// in a tick that has none.
pub proof fn lemma_missing_context_degrades(scene: Scene, latches: Seq<bool>, id: u64)
    ensures
        scene.tick.events is None ==> Trigger::OnEvent(id).outcome(scene, latches)
            == Outcome::NotSatisfied,
        scene.tick.input is None ==> Trigger::Input(id).outcome(scene, latches)
            == Outcome::NotSatisfied,
{
}

/// An edge with the trigger `Always` is applied in every tick in which the
/// evaluation reaches it: it matches the entity's state and no edge before
/// it fires.
pub proof fn lemma_always_edge_fires(entity: EntityView, tick: TickView, i: int)
    requires
        entity.wf(),
        0 <= i < entity.machine.edges.len(),
        entity.machine.edges[i].trigger == Trigger::Always,
        entity.matches_edge(i),
        forall|h: int| 0 <= h < i ==> !entity.fires(tick, h),
    ensures
        entity.first_firing(tick) == Some(i),
        entity.step_report(tick) is Transitioned,
{
    entity.lemma_first_firing_from(tick, 0);
    assert(entity.fires(tick, i));
    lemma_applied_edge_sets_state(entity, tick, i);
}

/// An edge with the trigger `Never` is applied in no tick.
pub proof fn lemma_never_edge_does_not_fire(entity: EntityView, tick: TickView, i: int)
    requires
        0 <= i < entity.machine.edges.len(),
        entity.machine.edges[i].trigger == Trigger::Never,
    ensures
        !entity.fires(tick, i),
        entity.first_firing(tick) != Some(i),
{
    entity.lemma_first_firing_from(tick, 0);
}

/// A done marker that is on an entity when a tick begins is seen by the
/// trigger `Done` during the transition pass, which hands on the marker's
/// payload, and is gone when the tick is over, whether or not an edge fired.
pub proof fn lemma_done_round_trip(
    world: Seq<EntityView>,
    tick: TickView,
    i: int,
    marker: Done,
    latches: Seq<bool>,
)
    requires
        0 <= i < world.len(),
        world[i].done == Some(marker),
    ensures
        Trigger::Done.outcome(world[i].scene(tick), latches).is_satisfied(),
        Trigger::Done.outcome(world[i].scene(tick), latches).payload() == marker.payload,
        passed(world, tick)[i].done == Some(marker),
        cleaned(passed(world, tick))[i].done is None,
{
}

/// After the cleanup no entity carries a done marker, and nothing else has
/// changed.
pub proof fn lemma_cleanup_clears_all(world: Seq<EntityView>)
    ensures
        cleaned(world).len() == world.len(),
        forall|i: int|
            0 <= i < world.len() ==> {
                let after = #[trigger] cleaned(world)[i];
                &&& after.done is None
                &&& after.id == world[i].id
                &&& after.markers == world[i].markers
                &&& after.machine == world[i].machine
                &&& after.latches == world[i].latches
            },
{
}

/// If no edge fires for an entity in a tick, the tick leaves its state
/// markers, its transition table and its done marker as they were. Only the
/// latches of its triggers may advance.
pub proof fn lemma_idle_tick_changes_nothing(entity: EntityView, tick: TickView)
    requires
        forall|i: int| 0 <= i < entity.machine.edges.len() ==> !entity.fires(tick, i),
    ensures
        entity.stepped(tick).id == entity.id,
        entity.stepped(tick).markers == entity.markers,
        entity.stepped(tick).machine == entity.machine,
        entity.stepped(tick).done == entity.done,
        entity.markers.len() == 1 ==> entity.step_report(tick) == StepOutcome::Idle,
{
    entity.lemma_first_firing_from(tick, 0);
}

/// A transition pass in which no edge of an entity fires leaves that
/// entity's state markers, table and done marker as they were.
pub proof fn lemma_idle_pass_changes_nothing(world: Seq<EntityView>, tick: TickView, i: int)
    requires
        0 <= i < world.len(),
        forall|k: int| 0 <= k < world[i].machine.edges.len() ==> !world[i].fires(tick, k),
    ensures
        passed(world, tick)[i].markers == world[i].markers,
        passed(world, tick)[i].machine == world[i].machine,
        passed(world, tick)[i].done == world[i].done,
{
    lemma_idle_tick_changes_nothing(world[i], tick);
}

/// The transition pass treats each entity by itself: what becomes of an
/// entity depends on that entity and the tick alone.
pub proof fn lemma_entities_are_independent(
    world: Seq<EntityView>,
    other: Seq<EntityView>,
    tick: TickView,
    i: int,
    j: int,
)
    requires
        0 <= i < world.len(),
        0 <= j < other.len(),
        world[i] == other[j],
    ensures
        passed(world, tick)[i] == passed(other, tick)[j],
{
}

/// A transition pass keeps every entity well-formed.
pub proof fn lemma_pass_keeps_wf(world: Seq<EntityView>, tick: TickView)
    requires
        all_wf(world),
    ensures
        all_wf(passed(world, tick)),
{
    assert forall|i: int| 0 <= i < world.len() implies (#[trigger] passed(world, tick)[i]).wf() by {
        let entity = world[i];
        assert(entity.wf());
        if entity.markers.len() == 1 {
            match entity.first_firing(tick) {
                None => {
                    entity.lemma_settled_latches(tick, entity.machine.edges.len() as int);
                },
                Some(k) => {},
            }
        }
    }
}

} // verus!
