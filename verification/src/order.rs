//! Stable sorting by a declared order.

use vstd::prelude::*;
use vstd::seq_lib::*;

use crate::text::{is_before, precedes, views};

verus! {

/// `item` put into `list` behind everything that it does not come before.
pub open spec fn inserted<V>(list: Seq<V>, item: V, before: spec_fn(V, V) -> bool) -> Seq<V>
    decreases list.len(),
{
    if list.len() == 0 || !before(item, list.last()) {
        list.push(item)
    } else {
        inserted(list.drop_last(), item, before).push(list.last())
    }
}

/// `list` in order, items that neither precede the other left as they stood.
pub open spec fn sorted<V>(list: Seq<V>, before: spec_fn(V, V) -> bool) -> Seq<V>
    decreases list.len(),
{
    if list.len() == 0 {
        list
    } else {
        inserted(sorted(list.drop_last(), before), list.last(), before)
    }
}

/// No item stands in front of one that comes before it.
pub open spec fn ordered<V>(list: Seq<V>, before: spec_fn(V, V) -> bool) -> bool {
    forall|i: int, j: int|
        0 <= i < j < list.len() ==> !before(#[trigger] list[j], #[trigger] list[i])
}

/// What an order has to be for a list to be sorted by it.
pub open spec fn is_order<V>(before: spec_fn(V, V) -> bool) -> bool {
    &&& forall|a: V, b: V| #[trigger] before(a, b) ==> !before(b, a)
    &&& forall|a: V, b: V, c: V|
        #![trigger before(b, a), before(c, b)]
        !before(b, a) && !before(c, b) ==> !before(c, a)
}

proof fn lemma_inserted<V>(list: Seq<V>, item: V, before: spec_fn(V, V) -> bool)
    ensures
        inserted(list, item, before).len() == list.len() + 1,
        inserted(list, item, before).to_multiset() == list.to_multiset().insert(item),
    decreases list.len(),
{
    broadcast use group_to_multiset_ensures;
    if list.len() > 0 && before(item, list.last()) {
        lemma_inserted(list.drop_last(), item, before);
        let rest = inserted(list.drop_last(), item, before);
        assert(list =~= list.drop_last().push(list.last()));
        assert(rest.push(list.last()).to_multiset() =~= rest.to_multiset().insert(list.last()));
        assert(list.to_multiset() =~= list.drop_last().to_multiset().insert(list.last()));
        assert(inserted(list, item, before).to_multiset() =~= list.to_multiset().insert(item));
    } else {
        assert(list.push(item).to_multiset() =~= list.to_multiset().insert(item));
    }
}

/// Sorting keeps every item as often as it stood in the list.
pub proof fn lemma_sorted_keeps<V>(list: Seq<V>, before: spec_fn(V, V) -> bool)
    ensures
        sorted(list, before).len() == list.len(),
        sorted(list, before).to_multiset() == list.to_multiset(),
    decreases list.len(),
{
    broadcast use group_to_multiset_ensures;
    if list.len() > 0 {
        lemma_sorted_keeps(list.drop_last(), before);
        lemma_inserted(sorted(list.drop_last(), before), list.last(), before);
        assert(list =~= list.drop_last().push(list.last()));
        assert(list.to_multiset() =~= list.drop_last().to_multiset().insert(list.last()));
    }
}

/// An item is in the sorted list if and only if it was in the list.
pub proof fn lemma_sorted_contains<V>(list: Seq<V>, before: spec_fn(V, V) -> bool, item: V)
    ensures
        sorted(list, before).contains(item) == list.contains(item),
{
    lemma_sorted_keeps(list, before);
    list.to_multiset_ensures();
    sorted(list, before).to_multiset_ensures();
    assert(list.contains(item) <==> list.to_multiset().count(item) > 0);
}

proof fn lemma_inserted_bound<V>(
    list: Seq<V>,
    item: V,
    before: spec_fn(V, V) -> bool,
    bound: V,
)
    requires
        forall|i: int| 0 <= i < list.len() ==> !before(bound, #[trigger] list[i]),
        !before(bound, item),
    ensures
        forall|i: int|
            0 <= i < list.len() + 1 ==> !before(
                bound,
                #[trigger] inserted(list, item, before)[i],
            ),
    decreases list.len(),
{
    lemma_inserted(list, item, before);
    if list.len() > 0 && before(item, list.last()) {
        lemma_inserted_bound(list.drop_last(), item, before, bound);
        lemma_inserted(list.drop_last(), item, before);
        let rest = inserted(list.drop_last(), item, before);
        assert forall|i: int| 0 <= i < list.len() + 1 implies !before(
            bound,
            #[trigger] inserted(list, item, before)[i],
        ) by {
            if i < list.len() {
                assert(inserted(list, item, before)[i] == rest[i]);
            } else {
                assert(inserted(list, item, before)[i] == list.last());
            }
        }
    }
}

proof fn lemma_inserted_ordered<V>(list: Seq<V>, item: V, before: spec_fn(V, V) -> bool)
    requires
        is_order(before),
        ordered(list, before),
    ensures
        ordered(inserted(list, item, before), before),
    decreases list.len(),
{
    let out = inserted(list, item, before);
    lemma_inserted(list, item, before);
    if list.len() == 0 || !before(item, list.last()) {
        assert forall|i: int, j: int| 0 <= i < j < out.len() implies !before(
            #[trigger] out[j],
            #[trigger] out[i],
        ) by {
            if j == list.len() {
                if i < list.len() - 1 {
                    assert(!before(list[list.len() - 1], list[i]));
                    assert(!before(item, list.last()));
                    assert(!before(item, list[i]));
                }
            }
        }
    } else {
        let last = list.last();
        let rest = inserted(list.drop_last(), item, before);
        assert(ordered(list.drop_last(), before));
        lemma_inserted_ordered(list.drop_last(), item, before);
        lemma_inserted(list.drop_last(), item, before);
        assert(!before(last, item));
        assert forall|i: int| 0 <= i < list.drop_last().len() implies !before(
            last,
            #[trigger] list.drop_last()[i],
        ) by {
            assert(!before(list[list.len() - 1], list[i]));
        }
        lemma_inserted_bound(list.drop_last(), item, before, last);
        assert forall|i: int, j: int| 0 <= i < j < out.len() implies !before(
            #[trigger] out[j],
            #[trigger] out[i],
        ) by {
            assert(out[i] == rest[i]);
            if j < rest.len() {
                assert(out[j] == rest[j]);
            }
        }
    }
}

/// Sorting by an order leaves a list in that order.
pub proof fn lemma_sorted_ordered<V>(list: Seq<V>, before: spec_fn(V, V) -> bool)
    requires
        is_order(before),
    ensures
        ordered(sorted(list, before), before),
    decreases list.len(),
{
    if list.len() > 0 {
        lemma_sorted_ordered(list.drop_last(), before);
        lemma_inserted_ordered(sorted(list.drop_last(), before), list.last(), before);
    }
}

proof fn lemma_inserted_map<A, B>(
    list: Seq<A>,
    item: A,
    f: spec_fn(A) -> B,
    before_a: spec_fn(A, A) -> bool,
    before_b: spec_fn(B, B) -> bool,
)
    requires
        forall|x: A, y: A| #[trigger] before_a(x, y) == before_b(f(x), f(y)),
    ensures
        inserted(list.map_values(f), f(item), before_b) == inserted(list, item, before_a).map_values(f),
    decreases list.len(),
{
    let mapped = list.map_values(f);
    if list.len() == 0 || !before_a(item, list.last()) {
        assert(mapped.push(f(item)) =~= list.push(item).map_values(f));
    } else {
        assert(mapped.last() == f(list.last()));
        assert(mapped.drop_last() =~= list.drop_last().map_values(f));
        lemma_inserted_map(list.drop_last(), item, f, before_a, before_b);
        let rest = inserted(list.drop_last(), item, before_a);
        assert(rest.push(list.last()).map_values(f) =~= rest.map_values(f).push(f(list.last())));
    }
}

/// Sorting items by a key sorts the keys.
pub proof fn lemma_sorted_map<A, B>(
    list: Seq<A>,
    f: spec_fn(A) -> B,
    before_a: spec_fn(A, A) -> bool,
    before_b: spec_fn(B, B) -> bool,
)
    requires
        forall|x: A, y: A| #[trigger] before_a(x, y) == before_b(f(x), f(y)),
    ensures
        sorted(list.map_values(f), before_b) == sorted(list, before_a).map_values(f),
    decreases list.len(),
{
    let mapped = list.map_values(f);
    if list.len() == 0 {
        assert(mapped =~= list.map_values(f));
        assert(sorted(list, before_a).map_values(f) =~= mapped);
    } else {
        assert(mapped.drop_last() =~= list.drop_last().map_values(f));
        assert(mapped.last() == f(list.last()));
        lemma_sorted_map(list.drop_last(), f, before_a, before_b);
        lemma_inserted_map(sorted(list.drop_last(), before_a), list.last(), f, before_a, before_b);
    }
}

/// A type with an order of its own to be sorted by.
pub trait Ranked: Sized {
    spec fn ranks_before(self, other: Self) -> bool;

    fn is_before(&self, other: &Self) -> (r: bool)
        ensures
            r == self.ranks_before(*other),
    ;
}

impl Ranked for String {
    open spec fn ranks_before(self, other: String) -> bool {
        precedes(self@, other@)
    }

    fn is_before(&self, other: &String) -> (r: bool) {
        is_before(self, other)
    }
}

/// A list in the order of its type.
pub fn sort<T: Ranked>(list: Vec<T>) -> (r: Vec<T>)
    ensures
        r@ == sorted(list@, |a: T, b: T| a.ranks_before(b)),
{
    let mut rest = list;
    let mut taken: Vec<T> = Vec::new();
    let ghost before = |a: T, b: T| a.ranks_before(b);
    // Reversed onto a second stack, so that items are taken in the order they stood.
    while rest.len() > 0
        invariant
            list@ == rest@ + taken@.reverse(),
        decreases rest.len(),
    {
        let ghost was = rest@;
        let item = rest.pop().unwrap();
        proof {
            assert(taken@.push(item).reverse() =~= seq![item] + taken@.reverse());
            assert(was =~= rest@.push(item));
            assert(rest@ + (seq![item] + taken@.reverse()) =~= was + taken@.reverse());
        }
        taken.push(item);
    }
    assert(list@ =~= taken@.reverse());
    let mut out: Vec<T> = Vec::new();
    let ghost mut done: int = 0;
    assert(list@.take(0) =~= Seq::<T>::empty());
    while taken.len() > 0
        invariant
            0 <= done <= list@.len(),
            list@.skip(done) == taken@.reverse(),
            before == (|a: T, b: T| a.ranks_before(b)),
            out@ == sorted(list@.take(done), before),
        decreases taken.len(),
    {
        let ghost was = taken@;
        let item = taken.pop().unwrap();
        proof {
            assert(was.reverse()[0] == item);
            assert(list@.skip(done).len() == was.len());
            assert(list@.skip(done)[0] == item);
            assert(list@.take(done + 1).drop_last() =~= list@.take(done));
            assert(list@.take(done + 1).last() == item);
            assert(taken@.reverse() =~= was.reverse().skip(1));
            assert(list@.skip(done).skip(1) =~= list@.skip(done + 1));
        }
        let ghost base = out@;
        let mut at: usize = out.len();
        proof {
            assert(base.take(at as int) =~= base);
            assert(inserted(base, item, before) + base.skip(at as int) =~= inserted(base, item, before));
        }
        while at > 0 && item.is_before(&out[at - 1])
            invariant
                at <= out.len(),
                out@ == base,
                before == (|a: T, b: T| a.ranks_before(b)),
                inserted(base, item, before) == inserted(base.take(at as int), item, before)
                    + base.skip(at as int),
            decreases at,
        {
            proof {
                let head = base.take(at as int);
                assert(head.drop_last() =~= base.take(at as int - 1));
                assert(head.last() == base[at as int - 1]);
                assert(base.skip(at as int - 1) =~= seq![base[at as int - 1]] + base.skip(at as int));
                assert(inserted(head, item, before) == inserted(head.drop_last(), item, before).push(head.last()));
                assert(inserted(head.drop_last(), item, before).push(head.last()) + base.skip(at as int)
                    =~= inserted(head.drop_last(), item, before) + base.skip(at as int - 1));
            }
            at -= 1;
        }
        proof {
            assert(base.take(at as int).len() == 0 || base.take(at as int).last() == base[at as int - 1]);
            assert(inserted(base.take(at as int), item, before) == base.take(at as int).push(item));
            assert(base.insert(at as int, item) =~= base.take(at as int).push(item) + base.skip(at as int));
        }
        out.insert(at, item);
        proof {
            done = done + 1;
        }
    }
    assert(list@.take(done) =~= list@);
    out
}

/// The order of texts, as a relation.
pub open spec fn text_order() -> spec_fn(Seq<char>, Seq<char>) -> bool {
    |a: Seq<char>, b: Seq<char>| precedes(a, b)
}

/// The order of texts is an order.
pub proof fn lemma_text_order()
    ensures
        is_order(text_order()),
{
    let before = text_order();
    assert forall|a: Seq<char>, b: Seq<char>| #[trigger] before(a, b) implies !before(b, a) by {
        if precedes(b, a) {
            crate::text::lemma_precedes_transitive(a, b, a);
            crate::text::lemma_precedes_irreflexive(a);
        }
    }
    assert forall|a: Seq<char>, b: Seq<char>, c: Seq<char>|
        #![trigger before(b, a), before(c, b)]
        !before(b, a) && !before(c, b) implies !before(c, a) by {
        crate::text::lemma_precedes_total(a, b);
        crate::text::lemma_precedes_total(b, c);
        if precedes(c, a) {
            if a == b {
            } else if b == c {
            } else {
                crate::text::lemma_precedes_transitive(a, b, c);
                crate::text::lemma_precedes_transitive(a, c, a);
                crate::text::lemma_precedes_irreflexive(a);
            }
        }
    }
}

/// A list of texts in order.
pub fn sort_texts(list: Vec<String>) -> (r: Vec<String>)
    ensures
        views(r@) == sorted(views(list@), text_order()),
{
    proof {
        let f = |t: String| t@;
        let before_a = |a: String, b: String| a.ranks_before(b);
        assert(list@.map_values(f) =~= views(list@));
        lemma_sorted_map(list@, f, before_a, text_order());
        assert(sorted(list@, before_a).map_values(f) =~= views(sorted(list@, before_a)));
    }
    sort(list)
}

/// Whether the item at one place comes before that at another in the order of their names,
/// items of one name staying as they stand.
pub open spec fn named_before(names: Seq<Seq<char>>, a: int, b: int) -> bool {
    precedes(names[a], names[b]) || (names[a] == names[b] && a < b)
}

/// The places of a list in the order of its names. Every place is there, and once: as many
/// as there are, each before the next.
pub fn by_name(names: &Vec<String>) -> (r: Vec<usize>)
    ensures
        r.len() == names.len(),
        forall|k: int| 0 <= k < r.len() ==> (#[trigger] r@[k]) < names.len(),
        forall|i: int, j: int|
            0 <= i < j < r.len() ==> named_before(
                views(names@),
                #[trigger] r@[i] as int,
                #[trigger] r@[j] as int,
            ),
{
    let mut out: Vec<usize> = Vec::new();
    let mut next: usize = 0;
    let ghost texts = views(names@);
    while next < names.len()
        invariant
            next <= names.len(),
            texts == views(names@),
            out.len() == next,
            forall|k: int| 0 <= k < out.len() ==> (#[trigger] out@[k]) < next,
            forall|i: int, j: int|
                0 <= i < j < out.len() ==> named_before(
                    texts,
                    #[trigger] out@[i] as int,
                    #[trigger] out@[j] as int,
                ),
        decreases names.len() - next,
    {
        let mut at: usize = out.len();
        while at > 0 && is_before(&names[next], &names[out[at - 1]])
            invariant
                at <= out.len(),
                next < names.len(),
                texts == views(names@),
                forall|k: int| 0 <= k < out.len() ==> (#[trigger] out@[k]) < next,
                forall|k: int|
                    at <= k < out.len() ==> named_before(texts, next as int, #[trigger] out@[k] as int),
            decreases at,
        {
            at -= 1;
        }
        let ghost had = out@;
        proof {
            assert forall|k: int| 0 <= k < at implies named_before(
                texts,
                #[trigger] had[k] as int,
                next as int,
            ) by {
                let last = had[at as int - 1] as int;
                crate::text::lemma_precedes_total(texts[last], texts[next as int]);
                if k < at - 1 {
                    assert(named_before(texts, had[k] as int, had[at as int - 1] as int));
                    if precedes(texts[had[k] as int], texts[last]) && precedes(
                        texts[last],
                        texts[next as int],
                    ) {
                        crate::text::lemma_precedes_transitive(
                            texts[had[k] as int],
                            texts[last],
                            texts[next as int],
                        );
                    }
                }
            }
        }
        out.insert(at, next);
        proof {
            assert forall|i: int, j: int| 0 <= i < j < out.len() implies named_before(
                texts,
                #[trigger] out@[i] as int,
                #[trigger] out@[j] as int,
            ) by {
                let from = if i < at { i } else { i - 1 };
                let to = if j < at { j } else { j - 1 };
                if i == at {
                    assert(out@[j] == had[to]);
                } else if j == at {
                    assert(out@[i] == had[i]);
                } else {
                    assert(out@[i] == had[from] && out@[j] == had[to]);
                }
            }
            assert forall|k: int| 0 <= k < out.len() implies (#[trigger] out@[k]) < next + 1 by {
                if k != at {
                    assert(out@[k] == had[if k < at { k } else { k - 1 }]);
                }
            }
        }
        next += 1;
    }
    out
}

} // verus!
