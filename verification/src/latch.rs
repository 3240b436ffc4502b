//! Latches: the memory of sequencing triggers, kept for each entity in one
//! sequence, and what replacing a range of that sequence does.

use vstd::prelude::*;

verus! {

/// `n` latches, none of them set.
pub open spec fn unset(n: nat) -> Seq<bool> {
    Seq::new(n, |i: int| false)
}

/// `whole` with the entries from `at` on replaced by those of `part`.
pub open spec fn splice(whole: Seq<bool>, at: int, part: Seq<bool>) -> Seq<bool> {
    whole.subrange(0, at) + part + whole.subrange(at + part.len(), whole.len() as int)
}

/// A range of a range of `whole` is a range of `whole`.
pub proof fn lemma_subrange_twice(whole: Seq<bool>, at: int, n: int, from: int, k: int)
    requires
        0 <= at,
        0 <= from,
        0 <= k,
        from + k <= n,
        at + n <= whole.len(),
    ensures
        whole.subrange(at, at + n).subrange(from, from + k) == whole.subrange(
            at + from,
            at + from + k,
        ),
{
    assert(whole.subrange(at, at + n).subrange(from, from + k) =~= whole.subrange(
        at + from,
        at + from + k,
    ));
}

/// Replacing a range by itself changes nothing.
pub proof fn lemma_splice_same(whole: Seq<bool>, at: int)
    requires
        0 <= at <= whole.len(),
    ensures
        forall|k: int|
            0 <= k && at + k <= whole.len() ==> splice(
                whole,
                at,
                #[trigger] whole.subrange(at, at + k),
            ) == whole,
{
    assert forall|k: int| 0 <= k && at + k <= whole.len() implies splice(
        whole,
        at,
        #[trigger] whole.subrange(at, at + k),
    ) == whole by {
        assert(splice(whole, at, whole.subrange(at, at + k)) =~= whole);
    }
}

/// Replacing a range by `first` and the range behind it by `second` replaces
/// both by `first + second`; replacing the first range alone leaves the second
/// as it was.
pub proof fn lemma_splice_chain(whole: Seq<bool>, at: int, first: Seq<bool>, second: Seq<bool>)
    requires
        0 <= at,
        at + first.len() + second.len() <= whole.len(),
    ensures
        splice(whole, at, first).len() == whole.len(),
        splice(whole, at, first).subrange(
            at + first.len(),
            at + first.len() + second.len(),
        ) == whole.subrange(at + first.len(), at + first.len() + second.len()),
        splice(splice(whole, at, first), at + first.len(), second) == splice(
            whole,
            at,
            first + second,
        ),
        splice(whole, at, first) == splice(
            whole,
            at,
            first + whole.subrange(at + first.len(), at + first.len() + second.len()),
        ),
{
    let once = splice(whole, at, first);
    assert(once.subrange(at + first.len(), at + first.len() + second.len()) =~= whole.subrange(
        at + first.len(),
        at + first.len() + second.len(),
    ));
    assert(splice(once, at + first.len(), second) =~= splice(whole, at, first + second));
    assert(once =~= splice(
        whole,
        at,
        first + whole.subrange(at + first.len(), at + first.len() + second.len()),
    ));
}

/// Replacing the range behind index `at` by `first` and then the entry at `at`
/// by `armed` replaces the range from `at` on by `armed`, `first` and what
/// stood behind them.
pub proof fn lemma_splice_arm(
    whole: Seq<bool>,
    at: int,
    armed: bool,
    first: Seq<bool>,
    rest: Seq<bool>,
)
    requires
        0 <= at,
        at + 1 + first.len() + rest.len() <= whole.len(),
        rest == whole.subrange(at + 1 + first.len(), at + 1 + first.len() + rest.len()),
    ensures
        splice(whole, at + 1, first).update(at, armed) == splice(
            whole,
            at,
            seq![armed] + first + rest,
        ),
{
    assert(splice(whole, at + 1, first).update(at, armed) =~= splice(
        whole,
        at,
        seq![armed] + first + rest,
    ));
}

} // verus!
