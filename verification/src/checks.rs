//! Sequential validation: checks run in order and the first failure is the answer.
use vstd::prelude::*;

verus! {

/// Run `b` only when `a` passed.
pub open spec fn and_then(a: Result<(), Seq<char>>, b: Result<(), Seq<char>>) -> Result<(), Seq<char>> {
    if a is Err {
        a
    } else {
        b
    }
}

/// Check each item in order, given the items before it; the first failure is the outcome.
pub open spec fn first_failure<A>(
    items: Seq<A>,
    step: spec_fn(Seq<A>, A) -> Result<(), Seq<char>>,
) -> Result<(), Seq<char>>
    decreases items.len(),
{
    if items.len() == 0 {
        Ok(())
    } else {
        match first_failure(items.drop_last(), step) {
            Err(e) => Err(e),
            Ok(()) => step(items.drop_last(), items.last()),
        }
    }
}

/// Once a prefix fails, the whole sequence fails the same way.
pub proof fn lemma_first_failure_prefix<A>(
    items: Seq<A>,
    step: spec_fn(Seq<A>, A) -> Result<(), Seq<char>>,
    i: int,
)
    requires
        0 <= i <= items.len(),
        first_failure(items.subrange(0, i), step) is Err,
    ensures
        first_failure(items, step) == first_failure(items.subrange(0, i), step),
    decreases items.len() - i,
{
    if i < items.len() {
        let p = items.subrange(0, i + 1);
        assert(p.drop_last() =~= items.subrange(0, i));
        lemma_first_failure_prefix(items, step, i + 1);
    } else {
        assert(items.subrange(0, i) =~= items);
    }
}

/// Extending a passing prefix by one item runs that item's check.
pub proof fn lemma_first_failure_step<A>(
    items: Seq<A>,
    step: spec_fn(Seq<A>, A) -> Result<(), Seq<char>>,
    i: int,
)
    requires
        0 <= i < items.len(),
        first_failure(items.subrange(0, i), step) is Ok,
    ensures
        first_failure(items.subrange(0, i + 1), step) == step(items.subrange(0, i), items[i]),
{
    let p = items.subrange(0, i + 1);
    assert(p.drop_last() =~= items.subrange(0, i));
}

/// A failing item makes the whole sequence fail with that item's failure.
pub proof fn lemma_first_failure_stops<A>(
    items: Seq<A>,
    step: spec_fn(Seq<A>, A) -> Result<(), Seq<char>>,
    i: int,
)
    requires
        0 <= i < items.len(),
        first_failure(items.subrange(0, i), step) is Ok,
        step(items.subrange(0, i), items[i]) is Err,
    ensures
        first_failure(items, step) == step(items.subrange(0, i), items[i]),
{
    lemma_first_failure_step(items, step, i);
    lemma_first_failure_prefix(items, step, i + 1);
}

/// When every prefix passes, so does the whole sequence.
pub proof fn lemma_first_failure_whole<A>(
    items: Seq<A>,
    step: spec_fn(Seq<A>, A) -> Result<(), Seq<char>>,
)
    requires
        first_failure(items.subrange(0, items.len() as int), step) is Ok,
    ensures
        first_failure(items, step) is Ok,
{
    assert(items.subrange(0, items.len() as int) =~= items);
}

} // verus!
