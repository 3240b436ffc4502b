use seldom_state::context::{Event, HostRegistry, Outcome, Payload, TickContext};
use seldom_state::entity::{EntityRecord, StepOutcome};
use seldom_state::machine::{ConfigError, Edge, StateMachine, StateMachineBuilder, TargetFactory};
use seldom_state::reach::find_unreachable;
use seldom_state::set::StateSet;
use seldom_state::state::{StateId, StateMarker, StateMatcher};
use seldom_state::trigger::{always, done, input, never, on_event, Trigger};

const A: StateId = StateId(1);
const B: StateId = StateId(2);
const C: StateId = StateId(3);
const D: StateId = StateId(4);

fn marker(state: StateId) -> StateMarker {
    StateMarker { state, data: 0 }
}

fn to(state: StateId) -> TargetFactory {
    TargetFactory::Fixed(marker(state))
}

fn registry() -> HostRegistry {
    HostRegistry { events: vec![1, 2], inputs: vec![7] }
}

/// Builds a table that starts in `A` from edges whose triggers always fire.
fn table(edges: Vec<(StateMatcher, StateId)>) -> Result<StateMachine, ConfigError> {
    let mut builder = StateMachineBuilder::new(registry()).set_initial_state(marker(A));
    for (source, target) in edges {
        builder = builder.add_transition(source, always(), to(target))?;
    }
    builder.build()
}

#[test]
fn unregistered_event_is_refused() {
    let added = StateMachineBuilder::new(registry()).add_transition(
        StateMatcher::AnyState,
        on_event(3),
        to(A),
    );
    assert_eq!(added.err(), Some(ConfigError::UnregisteredEvent(3)));
}

#[test]
fn unregistered_input_is_refused() {
    let added = StateMachineBuilder::new(registry()).add_transition(
        StateMatcher::AnyState,
        on_event(1).and(input(1).not()),
        to(A),
    );
    assert_eq!(added.err(), Some(ConfigError::UnregisteredInput(1)));
}

#[test]
fn missing_resource_is_reported_before_a_payload_mismatch() {
    let added = StateMachineBuilder::new(registry()).add_transition(
        StateMatcher::AnyState,
        input(8),
        TargetFactory::FromPayload { state: A, kind: 1 },
    );
    assert_eq!(added.err(), Some(ConfigError::UnregisteredInput(8)));
}

#[test]
fn payload_mismatch_is_refused() {
    let wants = |kind: u64| TargetFactory::FromPayload { state: B, kind };
    let refused = |trigger: Trigger, target: TargetFactory| {
        StateMachineBuilder::new(registry())
            .add_transition(StateMatcher::AnyState, trigger, target)
            .err()
    };
    // No payload at all, or not on every satisfied outcome.
    assert_eq!(refused(always(), wants(1)), Some(ConfigError::PayloadMismatch));
    assert_eq!(refused(done(), wants(1)), Some(ConfigError::PayloadMismatch));
    assert_eq!(refused(on_event(1).or(done()), wants(1)), Some(ConfigError::PayloadMismatch));
    assert_eq!(refused(on_event(1).and(input(7)), wants(1)), Some(ConfigError::PayloadMismatch));
    // A payload of another kind.
    assert_eq!(refused(on_event(2), wants(1)), Some(ConfigError::PayloadMismatch));
    assert_eq!(refused(on_event(1).or(on_event(2)), wants(1)), Some(ConfigError::PayloadMismatch));
    // A payload of the right kind.
    assert_eq!(refused(on_event(1), wants(1)), None);
    assert_eq!(refused(input(7).and(on_event(2)), wants(2)), None);
    assert_eq!(refused(on_event(2).or(on_event(2)), wants(2)), None);
    assert_eq!(refused(done().followed_by(on_event(1)), wants(1)), None);
    // A fixed target takes any trigger.
    assert_eq!(refused(done(), to(B)), None);
    assert_eq!(refused(on_event(1), to(B)), None);
}

#[test]
fn table_without_initial_state_is_refused() {
    assert_eq!(
        StateMachineBuilder::new(registry()).build().err(),
        Some(ConfigError::MissingInitialState)
    );
    let with_edge = StateMachineBuilder::new(registry())
        .add_transition(StateMatcher::AnyState, always(), to(A))
        .unwrap();
    assert_eq!(with_edge.build().err(), Some(ConfigError::MissingInitialState));
}

#[test]
fn edge_from_a_state_that_is_never_entered_is_refused() {
    let built = table(vec![(StateMatcher::Exact(A), B), (StateMatcher::Exact(C), A)]);
    assert_eq!(built.err(), Some(ConfigError::UnreachableSource(1)));
}

#[test]
fn first_unreachable_edge_is_named() {
    let built = table(vec![
        (StateMatcher::Exact(A), B),
        (StateMatcher::Exact(C), A),
        (StateMatcher::Exact(D), A),
    ]);
    assert_eq!(built.err(), Some(ConfigError::UnreachableSource(1)));
}

#[test]
fn states_that_only_lead_to_each_other_are_unreachable() {
    // B and C lead to each other, but nothing leads from A to either.
    let built = table(vec![(StateMatcher::Exact(B), C), (StateMatcher::Exact(C), B)]);
    assert_eq!(built.err(), Some(ConfigError::UnreachableSource(0)));
    let built = table(vec![
        (StateMatcher::Exact(A), D),
        (StateMatcher::Exact(B), C),
        (StateMatcher::Exact(C), B),
    ]);
    assert_eq!(built.err(), Some(ConfigError::UnreachableSource(1)));
}

#[test]
fn reachability_does_not_depend_on_the_order_of_the_edges() {
    let built = table(vec![
        (StateMatcher::Exact(D), A),
        (StateMatcher::Exact(C), D),
        (StateMatcher::Exact(B), C),
        (StateMatcher::Exact(A), B),
    ]);
    assert!(built.is_ok());
}

#[test]
fn wildcard_edge_makes_its_target_reachable() {
    let built = table(vec![(StateMatcher::Exact(B), C), (StateMatcher::AnyState, B)]);
    assert!(built.is_ok());
    let built = table(vec![(StateMatcher::Exact(C), A), (StateMatcher::AnyState, B)]);
    assert_eq!(built.err(), Some(ConfigError::UnreachableSource(0)));
}

#[test]
fn table_without_edges_is_accepted() {
    let machine =
        StateMachineBuilder::new(registry()).set_initial_state(marker(A)).build().unwrap();
    assert_eq!(machine.current_state(), A);
    assert!(machine.edges().is_empty());
    let mut entity = EntityRecord::spawn(1, machine);
    let tick = TickContext { elapsed: 0, input: None, events: None };
    assert_eq!(entity.step(&tick), StepOutcome::Idle);
    assert_eq!(entity.current_state(), Some(A));
}

#[test]
fn last_initial_state_counts() {
    let machine = StateMachineBuilder::new(registry())
        .set_initial_state(marker(A))
        .set_initial_state(StateMarker { state: B, data: 5 })
        .add_transition(StateMatcher::Exact(B), always(), to(A))
        .unwrap()
        .build()
        .unwrap();
    assert_eq!(machine.current_state(), B);
    assert_eq!(machine.current_marker(), StateMarker { state: B, data: 5 });
}

#[test]
fn edges_keep_their_order() {
    let machine = StateMachineBuilder::new(registry())
        .set_initial_state(marker(A))
        .add_transition(StateMatcher::Exact(A), on_event(1), to(B))
        .unwrap()
        .add_transition(StateMatcher::AnyState, done(), to(A))
        .unwrap()
        .build()
        .unwrap();
    assert_eq!(
        machine.edges(),
        &vec![
            Edge { source: StateMatcher::Exact(A), trigger: on_event(1), target: to(B) },
            Edge { source: StateMatcher::AnyState, trigger: done(), target: to(A) },
        ]
    );
}

#[test]
fn spawned_entity_starts_in_the_initial_state() {
    let machine = StateMachineBuilder::new(registry())
        .set_initial_state(StateMarker { state: A, data: 9 })
        .add_transition(
            StateMatcher::Exact(A),
            input(7).followed_by(on_event(1)).and(done().followed_by(always())),
            to(B),
        )
        .unwrap()
        .add_transition(StateMatcher::AnyState, never().followed_by(always()), to(A))
        .unwrap()
        .build()
        .unwrap();
    let entity = EntityRecord::spawn(77, machine);
    assert_eq!(entity.id(), 77);
    assert_eq!(entity.state_markers(), &vec![StateMarker { state: A, data: 9 }]);
    assert_eq!(entity.current_state(), Some(A));
    assert_eq!(entity.done(), None);
    assert_eq!(entity.latches(), &vec![false, false, false]);
}

#[test]
fn latches_advance_per_edge_and_reset_on_a_transition() {
    let machine = StateMachineBuilder::new(registry())
        .set_initial_state(marker(A))
        // Does not match in state A: its latch stays.
        .add_transition(StateMatcher::Exact(B), always().followed_by(always()), to(A))
        .unwrap()
        .add_transition(StateMatcher::Exact(A), input(7).followed_by(on_event(1)), to(B))
        .unwrap()
        .add_transition(StateMatcher::AnyState, always().followed_by(done()), to(C))
        .unwrap()
        .add_transition(StateMatcher::Exact(C), never(), to(A))
        .unwrap()
        .build()
        .unwrap();
    let mut entity = EntityRecord::spawn(1, machine);
    assert_eq!(entity.latches(), &vec![false, false, false]);

    let pressed = TickContext { elapsed: 0, input: Some(vec![7]), events: Some(Vec::new()) };
    assert_eq!(entity.step(&pressed), StepOutcome::Idle);
    assert_eq!(entity.latches(), &vec![false, true, true]);

    let raised = TickContext {
        elapsed: 0,
        input: None,
        events: Some(vec![Event { kind: 1, value: 3, recipient: None }]),
    };
    assert_eq!(
        entity.step(&raised),
        StepOutcome::Transitioned { edge: 1, from: marker(A), to: marker(B) }
    );
    assert_eq!(entity.latches(), &vec![false, false, false]);

    // In state B the first edge arms and then fires.
    assert_eq!(entity.step(&pressed), StepOutcome::Idle);
    assert_eq!(entity.latches(), &vec![true, false, true]);
    assert_eq!(
        entity.step(&pressed),
        StepOutcome::Transitioned { edge: 0, from: marker(B), to: marker(A) }
    );
    assert_eq!(entity.latches(), &vec![false, false, false]);
}

#[test]
fn edges_behind_the_applied_one_are_not_evaluated() {
    let machine = StateMachineBuilder::new(registry())
        .set_initial_state(marker(A))
        .add_transition(StateMatcher::Exact(A), input(7), to(B))
        .unwrap()
        .add_transition(StateMatcher::AnyState, always().followed_by(never()), to(C))
        .unwrap()
        .build()
        .unwrap();
    let mut entity = EntityRecord::spawn(1, machine);
    let pressed = TickContext { elapsed: 0, input: Some(vec![7]), events: None };
    assert_eq!(
        entity.step(&pressed),
        StepOutcome::Transitioned { edge: 0, from: marker(A), to: marker(B) }
    );
    // Had the second edge been evaluated, its latch would be set now. A
    // transition resets the latches, so look at the next tick: the latch is
    // set by that tick's evaluation only.
    assert_eq!(entity.latches(), &vec![false]);
    assert_eq!(entity.step(&pressed), StepOutcome::Idle);
    assert_eq!(entity.latches(), &vec![true]);
}

#[test]
fn factories_make_their_markers() {
    let fixed = to(B);
    let payload = Payload { kind: 1, value: 30 };
    assert_eq!(fixed.target_state(), B);
    assert_eq!(fixed.produce(&Outcome::Satisfied), Some(marker(B)));
    assert_eq!(fixed.produce(&Outcome::SatisfiedWith(payload)), Some(marker(B)));
    assert!(fixed.accepts_kind(None));
    assert!(fixed.accepts_kind(Some(1)));

    let from_payload = TargetFactory::FromPayload { state: C, kind: 1 };
    assert_eq!(from_payload.target_state(), C);
    assert_eq!(
        from_payload.produce(&Outcome::SatisfiedWith(payload)),
        Some(StateMarker { state: C, data: 30 })
    );
    assert_eq!(from_payload.produce(&Outcome::Satisfied), None);
    assert_eq!(
        from_payload.produce(&Outcome::SatisfiedWith(Payload { kind: 2, value: 30 })),
        None
    );
    assert!(from_payload.accepts_kind(Some(1)));
    assert!(!from_payload.accepts_kind(Some(2)));
    assert!(!from_payload.accepts_kind(None));
}

#[test]
fn cleanup_runs_after_the_transition_pass() {
    assert_eq!(StateSet::Transition.runs_after(), None);
    assert_eq!(StateSet::RemoveDoneMarkers.runs_after(), Some(StateSet::Transition));
}

#[test]
fn unreachable_edges_are_found_in_a_list_of_edges() {
    let edge = |source: StateMatcher, target: StateId| Edge {
        source,
        trigger: never(),
        target: to(target),
    };
    let edges = vec![
        edge(StateMatcher::Exact(B), C),
        edge(StateMatcher::Exact(A), B),
        edge(StateMatcher::Exact(D), A),
        edge(StateMatcher::AnyState, A),
    ];
    assert_eq!(find_unreachable(A, &edges), Some(2));
    assert_eq!(find_unreachable(D, &edges), None);
    assert_eq!(find_unreachable(C, &edges), Some(2));
    assert_eq!(find_unreachable(A, &Vec::new()), None);
    // A state is reachable from itself.
    let own = vec![edge(StateMatcher::Exact(A), A)];
    assert_eq!(find_unreachable(A, &own), None);
    assert_eq!(find_unreachable(B, &own), Some(0));
}
