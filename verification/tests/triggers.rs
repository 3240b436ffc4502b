use seldom_state::context::{
    contains_id, find_event, Done, Event, HostRegistry, Outcome, Payload, Resource, TickContext,
};
use seldom_state::trigger::{always, done, elapsed, input, never, on_event, Trigger};

fn tick(events: Option<Vec<Event>>, input: Option<Vec<u64>>, elapsed: u64) -> TickContext {
    TickContext { elapsed, input, events }
}

fn bare() -> TickContext {
    tick(None, None, 0)
}

fn event(kind: u64, value: u64) -> Event {
    Event { kind, value, recipient: None }
}

/// Evaluates a trigger that has no latches.
fn eval(trigger: &Trigger, entity: u64, done: Option<Done>, tick: &TickContext) -> Outcome {
    let mut latches = Vec::new();
    trigger.reserve(&mut latches);
    trigger.evaluate(entity, &done, tick, &mut latches, 0)
}

#[test]
fn always_is_satisfied_and_never_is_not() {
    assert_eq!(eval(&always(), 1, None, &bare()), Outcome::Satisfied);
    assert_eq!(eval(&never(), 1, None, &bare()), Outcome::NotSatisfied);
    let busy = tick(Some(vec![event(1, 1)]), Some(vec![1]), 99);
    let marked = Some(Done { payload: None });
    assert_eq!(eval(&always(), 1, marked, &busy), Outcome::Satisfied);
    assert_eq!(eval(&never(), 1, marked, &busy), Outcome::NotSatisfied);
}

#[test]
fn done_reads_the_marker_and_its_payload() {
    assert_eq!(eval(&done(), 1, None, &bare()), Outcome::NotSatisfied);
    assert_eq!(eval(&done(), 1, Some(Done { payload: None }), &bare()), Outcome::Satisfied);
    let payload = Payload { kind: 8, value: 15 };
    assert_eq!(
        eval(&done(), 1, Some(Done { payload: Some(payload) }), &bare()),
        Outcome::SatisfiedWith(payload)
    );
}

#[test]
fn on_event_hands_on_the_oldest_matching_event() {
    let queue = vec![event(2, 20), event(1, 10), event(1, 11)];
    let t = tick(Some(queue), None, 0);
    assert_eq!(
        eval(&on_event(1), 5, None, &t),
        Outcome::SatisfiedWith(Payload { kind: 1, value: 10 })
    );
    assert_eq!(
        eval(&on_event(2), 5, None, &t),
        Outcome::SatisfiedWith(Payload { kind: 2, value: 20 })
    );
    assert_eq!(eval(&on_event(3), 5, None, &t), Outcome::NotSatisfied);
}

#[test]
fn on_event_skips_events_for_other_entities() {
    let queue = vec![
        Event { kind: 1, value: 10, recipient: Some(6) },
        Event { kind: 1, value: 11, recipient: Some(5) },
        Event { kind: 1, value: 12, recipient: None },
    ];
    let t = tick(Some(queue), None, 0);
    assert_eq!(
        eval(&on_event(1), 5, None, &t),
        Outcome::SatisfiedWith(Payload { kind: 1, value: 11 })
    );
    assert_eq!(
        eval(&on_event(1), 6, None, &t),
        Outcome::SatisfiedWith(Payload { kind: 1, value: 10 })
    );
    assert_eq!(
        eval(&on_event(1), 7, None, &t),
        Outcome::SatisfiedWith(Payload { kind: 1, value: 12 })
    );
}

#[test]
fn find_event_gives_the_least_index() {
    let queue = vec![
        Event { kind: 1, value: 0, recipient: Some(2) },
        event(3, 0),
        event(1, 0),
        event(1, 0),
    ];
    assert_eq!(find_event(&queue, 1, 9), Some(2));
    assert_eq!(find_event(&queue, 1, 2), Some(0));
    assert_eq!(find_event(&queue, 3, 2), Some(1));
    assert_eq!(find_event(&queue, 4, 2), None);
    assert_eq!(find_event(&Vec::new(), 1, 2), None);
    assert!(queue[0].is_for(1, 2));
    assert!(!queue[0].is_for(1, 3));
    assert!(!queue[0].is_for(2, 2));
}

#[test]
fn missing_context_is_not_an_error() {
    assert_eq!(eval(&on_event(1), 1, None, &bare()), Outcome::NotSatisfied);
    assert_eq!(eval(&input(1), 1, None, &bare()), Outcome::NotSatisfied);
    let both = on_event(1).or(input(1));
    assert_eq!(eval(&both, 1, None, &bare()), Outcome::NotSatisfied);
}

#[test]
fn input_reads_the_snapshot() {
    let t = tick(None, Some(vec![4, 9]), 0);
    assert_eq!(eval(&input(4), 1, None, &t), Outcome::Satisfied);
    assert_eq!(eval(&input(9), 1, None, &t), Outcome::Satisfied);
    assert_eq!(eval(&input(5), 1, None, &t), Outcome::NotSatisfied);
    assert_eq!(eval(&input(4), 1, None, &tick(None, Some(Vec::new()), 0)), Outcome::NotSatisfied);
    assert!(contains_id(&vec![4, 9], 9));
    assert!(!contains_id(&vec![4, 9], 1));
}

#[test]
fn elapsed_is_satisfied_from_its_bound_on() {
    assert_eq!(eval(&elapsed(10), 1, None, &tick(None, None, 9)), Outcome::NotSatisfied);
    assert_eq!(eval(&elapsed(10), 1, None, &tick(None, None, 10)), Outcome::Satisfied);
    assert_eq!(eval(&elapsed(10), 1, None, &tick(None, None, 11)), Outcome::Satisfied);
    assert_eq!(eval(&elapsed(0), 1, None, &bare()), Outcome::Satisfied);
}

#[test]
fn negation_inverts_and_drops_the_payload() {
    let t = tick(Some(vec![event(1, 10)]), None, 0);
    assert_eq!(eval(&on_event(1).not(), 1, None, &t), Outcome::NotSatisfied);
    assert_eq!(eval(&on_event(2).not(), 1, None, &t), Outcome::Satisfied);
    assert_eq!(eval(&never().not(), 1, None, &t), Outcome::Satisfied);
    assert_eq!(eval(&always().not().not(), 1, None, &t), Outcome::Satisfied);
}

#[test]
fn conjunction_hands_on_what_its_second_child_hands_on() {
    let t = tick(Some(vec![event(1, 10)]), Some(vec![3]), 0);
    assert_eq!(
        eval(&input(3).and(on_event(1)), 1, None, &t),
        Outcome::SatisfiedWith(Payload { kind: 1, value: 10 })
    );
    assert_eq!(eval(&on_event(1).and(input(3)), 1, None, &t), Outcome::Satisfied);
    assert_eq!(eval(&on_event(1).and(input(4)), 1, None, &t), Outcome::NotSatisfied);
    assert_eq!(eval(&input(4).and(on_event(1)), 1, None, &t), Outcome::NotSatisfied);
}

#[test]
fn disjunction_hands_on_what_the_first_satisfied_child_hands_on() {
    let t = tick(Some(vec![event(1, 10), event(2, 20)]), Some(vec![3]), 0);
    assert_eq!(
        eval(&on_event(1).or(on_event(2)), 1, None, &t),
        Outcome::SatisfiedWith(Payload { kind: 1, value: 10 })
    );
    assert_eq!(
        eval(&on_event(5).or(on_event(2)), 1, None, &t),
        Outcome::SatisfiedWith(Payload { kind: 2, value: 20 })
    );
    assert_eq!(eval(&input(3).or(on_event(2)), 1, None, &t), Outcome::Satisfied);
    assert_eq!(eval(&input(4).or(on_event(5)), 1, None, &t), Outcome::NotSatisfied);
}

#[test]
fn sequence_needs_its_first_child_on_an_earlier_tick() {
    let both = tick(Some(vec![event(1, 10), event(2, 20)]), None, 0);
    let second_only = tick(Some(vec![event(2, 21)]), None, 0);
    let nothing = tick(Some(Vec::new()), None, 0);
    let trigger = on_event(1).followed_by(on_event(2));
    let mut latches = Vec::new();
    trigger.reserve(&mut latches);
    assert_eq!(latches, vec![false]);

    // The second child alone does not count.
    assert_eq!(trigger.evaluate(1, &None, &second_only, &mut latches, 0), Outcome::NotSatisfied);
    assert_eq!(latches, vec![false]);
    // Both on one tick: the first child arms the sequence, which is not yet
    // satisfied.
    assert_eq!(trigger.evaluate(1, &None, &both, &mut latches, 0), Outcome::NotSatisfied);
    assert_eq!(latches, vec![true]);
    // Armed, the sequence waits for its second child.
    assert_eq!(trigger.evaluate(1, &None, &nothing, &mut latches, 0), Outcome::NotSatisfied);
    assert_eq!(latches, vec![true]);
    assert_eq!(
        trigger.evaluate(1, &None, &second_only, &mut latches, 0),
        Outcome::SatisfiedWith(Payload { kind: 2, value: 21 })
    );
    assert_eq!(latches, vec![true]);
}

#[test]
fn combinators_evaluate_left_to_right_and_stop_early() {
    let arms = || always().followed_by(always());
    let bare = bare();

    // The second child of a conjunction is not evaluated if the first fails.
    let mut latches = vec![false];
    assert_eq!(
        never().and(arms()).evaluate(1, &None, &bare, &mut latches, 0),
        Outcome::NotSatisfied
    );
    assert_eq!(latches, vec![false]);
    let mut latches = vec![false];
    assert_eq!(
        always().and(arms()).evaluate(1, &None, &bare, &mut latches, 0),
        Outcome::NotSatisfied
    );
    assert_eq!(latches, vec![true]);

    // The second child of a disjunction is not evaluated if the first holds.
    let mut latches = vec![false];
    assert_eq!(always().or(arms()).evaluate(1, &None, &bare, &mut latches, 0), Outcome::Satisfied);
    assert_eq!(latches, vec![false]);
    let mut latches = vec![false];
    assert_eq!(
        never().or(arms()).evaluate(1, &None, &bare, &mut latches, 0),
        Outcome::NotSatisfied
    );
    assert_eq!(latches, vec![true]);

    // The first child is always evaluated.
    let mut latches = vec![false, false];
    assert_eq!(
        arms().and(arms()).evaluate(1, &None, &bare, &mut latches, 0),
        Outcome::NotSatisfied
    );
    assert_eq!(latches, vec![true, false]);
    assert_eq!(
        arms().and(arms()).evaluate(1, &None, &bare, &mut latches, 0),
        Outcome::NotSatisfied
    );
    assert_eq!(latches, vec![true, true]);
    assert_eq!(arms().and(arms()).evaluate(1, &None, &bare, &mut latches, 0), Outcome::Satisfied);
}

#[test]
fn nested_sequences_use_their_own_latches() {
    // (a then b) then c: the outer latch comes first, then the inner one.
    let trigger = input(1).followed_by(input(2)).followed_by(input(3));
    assert_eq!(trigger.count_latches(), 2);
    let mut latches = vec![true, false, false, true];
    let only = |action: u64| tick(None, Some(vec![action]), 0);

    assert_eq!(trigger.evaluate(1, &None, &only(2), &mut latches, 1), Outcome::NotSatisfied);
    assert_eq!(latches, vec![true, false, false, true]);
    assert_eq!(trigger.evaluate(1, &None, &only(1), &mut latches, 1), Outcome::NotSatisfied);
    assert_eq!(latches, vec![true, false, true, true]);
    assert_eq!(trigger.evaluate(1, &None, &only(3), &mut latches, 1), Outcome::NotSatisfied);
    assert_eq!(latches, vec![true, false, true, true]);
    assert_eq!(trigger.evaluate(1, &None, &only(2), &mut latches, 1), Outcome::NotSatisfied);
    assert_eq!(latches, vec![true, true, true, true]);
    assert_eq!(trigger.evaluate(1, &None, &only(2), &mut latches, 1), Outcome::NotSatisfied);
    assert_eq!(trigger.evaluate(1, &None, &only(3), &mut latches, 1), Outcome::Satisfied);
    assert_eq!(latches, vec![true, true, true, true]);
}

#[test]
fn latches_are_counted_and_reserved() {
    assert_eq!(always().count_latches(), 0);
    assert_eq!(on_event(1).not().count_latches(), 0);
    assert_eq!(always().followed_by(never()).count_latches(), 1);
    let nested = always()
        .followed_by(never())
        .and(done().or(input(1).followed_by(input(2)).not()))
        .followed_by(always());
    assert_eq!(nested.count_latches(), 3);
    let mut latches = vec![true];
    nested.reserve(&mut latches);
    assert_eq!(latches, vec![true, false, false, false]);
}

#[test]
fn payload_kind_is_settled_by_the_trigger() {
    assert_eq!(on_event(4).yields(), Some(4));
    assert_eq!(always().yields(), None);
    assert_eq!(never().yields(), None);
    assert_eq!(done().yields(), None);
    assert_eq!(input(4).yields(), None);
    assert_eq!(elapsed(4).yields(), None);
    assert_eq!(on_event(4).not().yields(), None);
    assert_eq!(input(1).and(on_event(4)).yields(), Some(4));
    assert_eq!(on_event(4).and(input(1)).yields(), None);
    assert_eq!(on_event(4).or(on_event(4)).yields(), Some(4));
    assert_eq!(on_event(4).or(on_event(5)).yields(), None);
    assert_eq!(on_event(4).or(done()).yields(), None);
    assert_eq!(done().followed_by(on_event(4)).yields(), Some(4));
    assert_eq!(on_event(4).followed_by(done()).yields(), None);
}

#[test]
fn first_unregistered_resource_is_found_left_to_right() {
    let registry = HostRegistry { events: vec![1, 2], inputs: vec![7] };
    assert_eq!(always().find_unregistered(&registry), None);
    assert_eq!(on_event(2).find_unregistered(&registry), None);
    assert_eq!(input(7).find_unregistered(&registry), None);
    assert_eq!(on_event(7).find_unregistered(&registry), Some(Resource::Event(7)));
    assert_eq!(input(1).find_unregistered(&registry), Some(Resource::Input(1)));
    let mixed = on_event(1).and(input(8).not()).or(on_event(9).followed_by(input(7)));
    assert_eq!(mixed.find_unregistered(&registry), Some(Resource::Input(8)));
    let later = on_event(1).and(input(7)).or(on_event(9).followed_by(input(8)));
    assert_eq!(later.find_unregistered(&registry), Some(Resource::Event(9)));
}

#[test]
fn copies_are_equal_to_the_original() {
    let trigger = on_event(1).and(input(8).not()).or(done().followed_by(elapsed(3)));
    assert_eq!(trigger.duplicate(), trigger);
    assert_eq!(trigger.clone(), trigger);
    assert_ne!(trigger.clone().not(), trigger);
}

#[test]
fn builders_make_the_variants() {
    assert_eq!(always(), Trigger::Always);
    assert_eq!(never(), Trigger::Never);
    assert_eq!(done(), Trigger::Done);
    assert_eq!(on_event(3), Trigger::OnEvent(3));
    assert_eq!(input(3), Trigger::Input(3));
    assert_eq!(elapsed(3), Trigger::Elapsed(3));
    assert_eq!(always().not(), Trigger::Not(Box::new(Trigger::Always)));
    assert_eq!(
        always().and(never()),
        Trigger::And(Box::new(Trigger::Always), Box::new(Trigger::Never))
    );
    assert_eq!(
        always().or(never()),
        Trigger::Or(Box::new(Trigger::Always), Box::new(Trigger::Never))
    );
    assert_eq!(
        always().followed_by(never()),
        Trigger::Sequence(Box::new(Trigger::Always), Box::new(Trigger::Never))
    );
}

#[test]
fn outcome_accessors() {
    let payload = Payload { kind: 1, value: 2 };
    assert!(!Outcome::NotSatisfied.satisfied());
    assert!(Outcome::Satisfied.satisfied());
    assert!(Outcome::SatisfiedWith(payload).satisfied());
    assert_eq!(Outcome::NotSatisfied.carried(), None);
    assert_eq!(Outcome::Satisfied.carried(), None);
    assert_eq!(Outcome::SatisfiedWith(payload).carried(), Some(payload));
}

#[test]
fn trigger_without_room_for_its_latches_is_not_satisfied() {
    let trigger = always().followed_by(always()).or(always());
    let tick = bare();
    // One latch is needed from index 1 on, and there is none.
    let mut latches = vec![true];
    assert_eq!(trigger.evaluate(1, &None, &tick, &mut latches, 1), Outcome::NotSatisfied);
    assert_eq!(latches, vec![true]);
    let mut latches = Vec::new();
    assert_eq!(trigger.evaluate(1, &None, &tick, &mut latches, 0), Outcome::NotSatisfied);
    assert_eq!(trigger.evaluate(1, &None, &tick, &mut latches, 5), Outcome::NotSatisfied);
    assert!(latches.is_empty());
    assert_eq!(always().evaluate(1, &None, &tick, &mut latches, 1), Outcome::NotSatisfied);
    // With room, the same trigger is evaluated.
    assert_eq!(always().evaluate(1, &None, &tick, &mut latches, 0), Outcome::Satisfied);
    let mut latches = vec![true, false];
    assert_eq!(trigger.evaluate(1, &None, &tick, &mut latches, 1), Outcome::Satisfied);
    assert_eq!(latches, vec![true, true]);
}

#[test]
fn latches_are_counted_up_to_a_limit() {
    let two = always().followed_by(never().followed_by(done()));
    assert_eq!(two.latches_within(0), None);
    assert_eq!(two.latches_within(1), None);
    assert_eq!(two.latches_within(2), Some(2));
    assert_eq!(two.latches_within(usize::MAX), Some(2));
    let three = two.duplicate().and(always().followed_by(always()).not());
    assert_eq!(three.latches_within(2), None);
    assert_eq!(three.latches_within(3), Some(3));
    assert_eq!(always().latches_within(0), Some(0));
    assert_eq!(always().or(never()).latches_within(0), Some(0));
}
