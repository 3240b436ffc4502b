//! Which states an entity can be in: the reachability of the sources of a
//! table's edges from its initial state.

use crate::machine::Edge;
use crate::state::{StateId, StateMatcher};
use vstd::prelude::*;

verus! {

/// Whether an entity that starts in `initial` can be in `state` after at most
/// `steps` transitions along `edges`, whatever their triggers do.
pub open spec fn reachable_within(
    initial: StateId,
    edges: Seq<Edge>,
    state: StateId,
    steps: nat,
) -> bool
    decreases steps,
{
    state == initial || (steps > 0 && exists|j: int|
        0 <= j < edges.len() && (#[trigger] edges[j]).target.state() == state
            && match edges[j].source {
            StateMatcher::AnyState => true,
            StateMatcher::Exact(source) => reachable_within(
                initial,
                edges,
                source,
                (steps - 1) as nat,
            ),
        })
}

/// Whether an entity that starts in `initial` can ever be in `state`.
pub open spec fn reachable(initial: StateId, edges: Seq<Edge>, state: StateId) -> bool {
    exists|steps: nat| reachable_within(initial, edges, state, steps)
}

/// Whether edge `i` leaves from a state that the entity can be in.
pub open spec fn source_reachable(initial: StateId, edges: Seq<Edge>, i: int) -> bool {
    match edges[i].source {
        StateMatcher::AnyState => true,
        StateMatcher::Exact(source) => reachable(initial, edges, source),
    }
}

/// The first edge from index `from` on that leaves from a state that the
/// entity can never be in.
pub open spec fn first_unreachable_from(
    initial: StateId,
    edges: Seq<Edge>,
    from: int,
) -> Option<int>
    decreases edges.len() - from,
{
    if from >= edges.len() {
        None
    } else if !source_reachable(initial, edges, from) {
        Some(from)
    } else {
        first_unreachable_from(initial, edges, from + 1)
    }
}

/// The first edge that leaves from a state that the entity can never be in.
pub open spec fn first_unreachable(initial: StateId, edges: Seq<Edge>) -> Option<int> {
    first_unreachable_from(initial, edges, 0)
}

/// Whether edge `i` leaves from the initial state, from any state, or from
/// the target of an edge marked in `live`.
pub open spec fn enabled(initial: StateId, edges: Seq<Edge>, live: Seq<bool>, i: int) -> bool {
    match edges[i].source {
        StateMatcher::AnyState => true,
        StateMatcher::Exact(source) => source == initial || exists|j: int|
            0 <= j < edges.len() && live[j] && (#[trigger] edges[j]).target.state() == source,
    }
}

/// Every edge marked in `live` leaves from a reachable state.
pub open spec fn sound(initial: StateId, edges: Seq<Edge>, live: Seq<bool>) -> bool {
    forall|i: int| 0 <= i < edges.len() && live[i] ==> source_reachable(initial, edges, i)
}

/// No edge that `live` leaves unmarked is enabled.
pub open spec fn saturated(initial: StateId, edges: Seq<Edge>, live: Seq<bool>) -> bool {
    forall|i: int| 0 <= i < edges.len() && !live[i] ==> !enabled(initial, edges, live, i)
}

/// The number of entries of `marks` that are not set.
pub open spec fn count_unset(marks: Seq<bool>) -> nat
    decreases marks.len(),
{
    if marks.len() == 0 {
        0
    } else {
        count_unset(marks.drop_last()) + if marks.last() {
            0nat
        } else {
            1nat
        }
    }
}

/// Setting an entry that was not set leaves one unset entry fewer.
pub proof fn lemma_count_unset_update(marks: Seq<bool>, i: int)
    requires
        0 <= i < marks.len(),
        !marks[i],
    ensures
        count_unset(marks.update(i, true)) + 1 == count_unset(marks),
    decreases marks.len(),
{
    let updated = marks.update(i, true);
    if i == marks.len() - 1 {
        assert(updated.drop_last() =~= marks.drop_last());
    } else {
        lemma_count_unset_update(marks.drop_last(), i);
        assert(updated.drop_last() =~= marks.drop_last().update(i, true));
    }
}

/// An edge that is enabled by soundly marked edges leaves from a reachable
/// state.
pub proof fn lemma_enabled_sound(initial: StateId, edges: Seq<Edge>, live: Seq<bool>, i: int)
    requires
        0 <= i < edges.len(),
        sound(initial, edges, live),
        enabled(initial, edges, live, i),
    ensures
        source_reachable(initial, edges, i),
{
    match edges[i].source {
        StateMatcher::AnyState => {},
        StateMatcher::Exact(source) => {
            if source == initial {
                assert(reachable_within(initial, edges, source, 0));
            } else {
                let j = choose|j: int|
                    0 <= j < edges.len() && live[j] && (#[trigger] edges[j]).target.state()
                        == source;
                assert(source_reachable(initial, edges, j));
                match edges[j].source {
                    StateMatcher::AnyState => {
                        assert(reachable_within(initial, edges, source, 1));
                    },
                    StateMatcher::Exact(earlier) => {
                        let steps = choose|steps: nat|
                            reachable_within(initial, edges, earlier, steps);
                        assert(reachable_within(initial, edges, source, steps + 1));
                    },
                }
            }
        },
    }
}

/// Once the marks are saturated, every reachable state but the initial one
/// is the target of a marked edge.
pub proof fn lemma_saturated_complete(
    initial: StateId,
    edges: Seq<Edge>,
    live: Seq<bool>,
    state: StateId,
    steps: nat,
)
    requires
        saturated(initial, edges, live),
        reachable_within(initial, edges, state, steps),
    ensures
        state == initial || exists|j: int|
            0 <= j < edges.len() && live[j] && (#[trigger] edges[j]).target.state() == state,
    decreases steps,
{
    if state != initial {
        let j = choose|j: int|
            0 <= j < edges.len() && (#[trigger] edges[j]).target.state() == state
                && match edges[j].source {
                StateMatcher::AnyState => true,
                StateMatcher::Exact(source) => reachable_within(
                    initial,
                    edges,
                    source,
                    (steps - 1) as nat,
                ),
            };
        match edges[j].source {
            StateMatcher::AnyState => {},
            StateMatcher::Exact(source) => {
                lemma_saturated_complete(initial, edges, live, source, (steps - 1) as nat);
            },
        }
        assert(enabled(initial, edges, live, j));
        assert(live[j]);
    }
}

/// Sound and saturated marks tell exactly which edges leave from a
/// reachable state.
pub proof fn lemma_marks_exact(initial: StateId, edges: Seq<Edge>, live: Seq<bool>)
    requires
        sound(initial, edges, live),
        saturated(initial, edges, live),
    ensures
        forall|i: int|
            0 <= i < edges.len() ==> live[i] == #[trigger] source_reachable(initial, edges, i),
{
    assert forall|i: int| 0 <= i < edges.len() implies live[i] == #[trigger] source_reachable(
        initial,
        edges,
        i,
    ) by {
        if source_reachable(initial, edges, i) && !live[i] {
            match edges[i].source {
                StateMatcher::AnyState => {},
                StateMatcher::Exact(source) => {
                    let steps = choose|steps: nat| reachable_within(initial, edges, source, steps);
                    lemma_saturated_complete(initial, edges, live, source, steps);
                },
            }
            assert(enabled(initial, edges, live, i));
        }
    }
}

/// `first_unreachable_from` finds the least index from `from` on of an edge
/// with an unreachable source, and none exactly when there is no such edge.
pub proof fn lemma_first_unreachable_from(initial: StateId, edges: Seq<Edge>, from: int)
    requires
        0 <= from,
    ensures
        match first_unreachable_from(initial, edges, from) {
            Some(k) => {
                &&& from <= k < edges.len()
                &&& !source_reachable(initial, edges, k)
                &&& forall|j: int| from <= j < k ==> source_reachable(initial, edges, j)
            },
            None => forall|j: int| from <= j < edges.len() ==> source_reachable(initial, edges, j),
        },
    decreases edges.len() - from,
{
    if from < edges.len() && source_reachable(initial, edges, from) {
        lemma_first_unreachable_from(initial, edges, from + 1);
    }
}

/// Tests whether edge `i` is enabled by the edges marked in `live`.
fn is_enabled(initial: StateId, edges: &Vec<Edge>, live: &Vec<bool>, i: usize) -> (yes: bool)
    requires
        i < edges.len(),
        live.len() == edges.len(),
    ensures
        yes == enabled(initial, edges@, live@, i as int),
{
    match edges[i].source {
        StateMatcher::AnyState => true,
        StateMatcher::Exact(source) => {
            if source.0 == initial.0 {
                return true;
            }
            let mut j: usize = 0;
            while j < edges.len()
                invariant
                    j <= edges.len(),
                    i < edges.len(),
                    live.len() == edges.len(),
                    edges@[i as int].source == StateMatcher::Exact(source),
                    source != initial,
                    forall|k: int|
                        0 <= k < j ==> !(live@[k] && (#[trigger] edges@[k]).target.state()
                            == source),
                decreases edges.len() - j,
            {
                if live[j] && edges[j].target.target_state().0 == source.0 {
                    return true;
                }
                j += 1;
            }
            false
        },
    }
}

/// Marks the edges that leave from a state that an entity starting in
/// `initial` can be in: marks the enabled edges, round after round, until a
/// round marks none.
fn mark_reachable(initial: StateId, edges: &Vec<Edge>) -> (live: Vec<bool>)
    ensures
        live@.len() == edges@.len(),
        forall|i: int|
            0 <= i < edges@.len() ==> live@[i] == #[trigger] source_reachable(
                initial,
                edges@,
                i,
            ),
{
    let n = edges.len();
    let mut live: Vec<bool> = Vec::new();
    while live.len() < n
        invariant
            live.len() <= n,
            forall|k: int| 0 <= k < live.len() ==> !live@[k],
        decreases n - live.len(),
    {
        live.push(false);
    }
    let mut changed = true;
    while changed
        invariant
            n == edges.len(),
            live.len() == n,
            sound(initial, edges@, live@),
            !changed ==> saturated(initial, edges@, live@),
        decreases count_unset(live@), if changed { 1nat } else { 0nat },
    {
        changed = false;
        let ghost round = live@;
        let mut i: usize = 0;
        while i < n
            invariant
                n == edges.len(),
                live.len() == n,
                i <= n,
                sound(initial, edges@, live@),
                changed ==> count_unset(live@) < count_unset(round),
                !changed ==> live@ == round,
                !changed ==> forall|k: int|
                    0 <= k < i && !live@[k] ==> !enabled(initial, edges@, live@, k),
            decreases n - i,
        {
            if !live[i] && is_enabled(initial, edges, &live, i) {
                proof {
                    lemma_enabled_sound(initial, edges@, live@, i as int);
                    lemma_count_unset_update(live@, i as int);
                }
                live.set(i, true);
                changed = true;
            }
            i += 1;
        }
    }
    proof {
        lemma_marks_exact(initial, edges@, live@);
    }
    live
}

/// Finds the first edge that leaves from a state that an entity starting in
/// `initial` can never be in.
pub fn find_unreachable(initial: StateId, edges: &Vec<Edge>) -> (found: Option<usize>)
    ensures
        match found {
            Some(i) => first_unreachable(initial, edges@) == Some(i as int),
            None => first_unreachable(initial, edges@) is None,
        },
{
    let live = mark_reachable(initial, edges);
    let mut i: usize = 0;
    while i < live.len()
        invariant
            i <= live.len(),
            live@.len() == edges@.len(),
            forall|k: int|
                0 <= k < live@.len() ==> live@[k] == #[trigger] source_reachable(
                    initial,
                    edges@,
                    k,
                ),
            forall|k: int| 0 <= k < i ==> live@[k],
        decreases live.len() - i,
    {
        if !live[i] {
            proof {
                lemma_first_unreachable_from(initial, edges@, 0);
                assert(!source_reachable(initial, edges@, i as int));
            }
            return Some(i);
        }
        i += 1;
    }
    proof {
        lemma_first_unreachable_from(initial, edges@, 0);
    }
    None
}

} // verus!
