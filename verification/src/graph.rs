//! What can be reached in a relation, as a least fixpoint.

use vstd::prelude::*;

verus! {

/// What is reached from `start` in at most `steps` steps of `next`.
pub open spec fn within<A>(start: Set<A>, next: spec_fn(A) -> Set<A>, steps: nat) -> Set<A>
    decreases steps,
{
    if steps == 0 {
        start
    } else {
        let before = within(start, next, (steps - 1) as nat);
        Set::new(|a: A| before.contains(a) || exists|b: A| before.contains(b) && #[trigger] next(b).contains(a))
    }
}

/// What is reached from `start` by any number of steps of `next`.
pub open spec fn reached<A>(start: Set<A>, next: spec_fn(A) -> Set<A>) -> Set<A> {
    Set::new(|a: A| exists|steps: nat| #[trigger] within(start, next, steps).contains(a))
}

/// Where a relation leads from what is reached is reached.
pub proof fn lemma_reached_step<A>(start: Set<A>, next: spec_fn(A) -> Set<A>, from: A, to: A)
    requires
        reached(start, next).contains(from),
        next(from).contains(to),
    ensures
        reached(start, next).contains(to),
{
    let steps = choose|steps: nat| #[trigger] within(start, next, steps).contains(from);
    assert(within(start, next, steps + 1).contains(to));
}

/// What it starts from is reached.
pub proof fn lemma_reached_start<A>(start: Set<A>, next: spec_fn(A) -> Set<A>, from: A)
    requires
        start.contains(from),
    ensures
        reached(start, next).contains(from),
{
    assert(within(start, next, 0).contains(from));
}

proof fn lemma_within_closed<A>(
    start: Set<A>,
    next: spec_fn(A) -> Set<A>,
    closed: Set<A>,
    steps: nat,
)
    requires
        start.subset_of(closed),
        forall|a: A, b: A| closed.contains(a) && #[trigger] next(a).contains(b) ==> closed.contains(b),
    ensures
        within(start, next, steps).subset_of(closed),
    decreases steps,
{
    if steps > 0 {
        lemma_within_closed(start, next, closed, (steps - 1) as nat);
    }
}

/// A set that holds the start and that no step leaves holds all that is reached.
pub proof fn lemma_reached_closed<A>(start: Set<A>, next: spec_fn(A) -> Set<A>, closed: Set<A>)
    requires
        start.subset_of(closed),
        forall|a: A, b: A| closed.contains(a) && #[trigger] next(a).contains(b) ==> closed.contains(b),
    ensures
        reached(start, next).subset_of(closed),
{
    assert forall|a: A| reached(start, next).contains(a) implies closed.contains(a) by {
        let steps = choose|steps: nat| #[trigger] within(start, next, steps).contains(a);
        lemma_within_closed(start, next, closed, steps);
    }
}

/// How many places of a list hold something that a set does not.
pub open spec fn outside<A>(list: Seq<A>, set: Set<A>) -> nat
    decreases list.len(),
{
    if list.len() == 0 {
        0
    } else {
        outside(list.drop_last(), set) + if set.contains(list.last()) {
            0nat
        } else {
            1nat
        }
    }
}

pub proof fn lemma_outside_shrinks<A>(list: Seq<A>, small: Set<A>, large: Set<A>)
    requires
        small.subset_of(large),
    ensures
        outside(list, large) <= outside(list, small),
    decreases list.len(),
{
    if list.len() > 0 {
        lemma_outside_shrinks(list.drop_last(), small, large);
    }
}

pub proof fn lemma_outside_insert<A>(list: Seq<A>, set: Set<A>, at: int)
    requires
        0 <= at < list.len(),
        !set.contains(list[at]),
    ensures
        outside(list, set.insert(list[at])) < outside(list, set),
    decreases list.len(),
{
    if at == list.len() - 1 {
        lemma_outside_shrinks(list.drop_last(), set, set.insert(list[at]));
    } else {
        lemma_outside_insert(list.drop_last(), set, at);
    }
}

} // verus!
