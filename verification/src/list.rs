//! Finding and picking the items of a list.

use vstd::prelude::*;

use crate::text::views;

verus! {

/// Where the last row that `wanted` holds of stands.
pub open spec fn place_of<V>(rows: Seq<V>, wanted: spec_fn(V) -> bool) -> Option<int>
    decreases rows.len(),
{
    if rows.len() == 0 {
        None
    } else if wanted(rows.last()) {
        Some(rows.len() - 1)
    } else {
        place_of(rows.drop_last(), wanted)
    }
}

pub proof fn lemma_place<V>(rows: Seq<V>, wanted: spec_fn(V) -> bool)
    ensures
        match place_of(rows, wanted) {
            Some(at) => {
                &&& 0 <= at < rows.len()
                &&& wanted(rows[at])
                &&& forall|k: int| at < k < rows.len() ==> !wanted(#[trigger] rows[k])
            },
            None => forall|k: int| 0 <= k < rows.len() ==> !wanted(#[trigger] rows[k]),
        },
    decreases rows.len(),
{
    if rows.len() > 0 && !wanted(rows.last()) {
        lemma_place(rows.drop_last(), wanted);
        assert forall|k: int| 0 <= k < rows.drop_last().len() implies rows.drop_last()[k] == #[trigger] rows[k] by {}
        match place_of(rows.drop_last(), wanted) {
            Some(at) => {
                assert forall|k: int| at < k < rows.len() implies !wanted(#[trigger] rows[k]) by {
                    if k < rows.len() - 1 {
                        assert(rows.drop_last()[k] == rows[k]);
                    }
                }
            },
            None => {
                assert forall|k: int| 0 <= k < rows.len() implies !wanted(#[trigger] rows[k]) by {
                    if k < rows.len() - 1 {
                        assert(rows.drop_last()[k] == rows[k]);
                    }
                }
            },
        }
    }
}

/// The place of a row that nothing behind it is like.
pub proof fn lemma_place_is<V>(rows: Seq<V>, wanted: spec_fn(V) -> bool, at: int)
    requires
        -1 <= at < rows.len(),
        at >= 0 ==> wanted(rows[at]),
        forall|k: int| at < k < rows.len() ==> !wanted(#[trigger] rows[k]),
    ensures
        place_of(rows, wanted) == if at >= 0 {
            Some(at)
        } else {
            None
        },
    decreases rows.len(),
{
    lemma_place(rows, wanted);
    if rows.len() > 0 && at != rows.len() - 1 {
        assert(!wanted(rows[rows.len() - 1]));
        assert forall|k: int| at < k < rows.drop_last().len() implies !wanted(
            #[trigger] rows.drop_last()[k],
        ) by {
            assert(rows.drop_last()[k] == rows[k]);
        }
        lemma_place_is(rows.drop_last(), wanted, at);
    }
}

pub proof fn lemma_place_exists<V>(rows: Seq<V>, wanted: spec_fn(V) -> bool, at: int)
    requires
        0 <= at < rows.len(),
        wanted(rows[at]),
    ensures
        place_of(rows, wanted) is Some,
{
    lemma_place(rows, wanted);
}

/// The rows of a list that something holds of.
pub open spec fn picked<V>(rows: Seq<V>, wanted: spec_fn(V) -> bool) -> Seq<V>
    decreases rows.len(),
{
    if rows.len() == 0 {
        rows
    } else if wanted(rows.last()) {
        picked(rows.drop_last(), wanted).push(rows.last())
    } else {
        picked(rows.drop_last(), wanted)
    }
}

pub proof fn lemma_picked<V>(rows: Seq<V>, wanted: spec_fn(V) -> bool)
    ensures
        picked(rows, wanted).len() <= rows.len(),
        forall|k: int|
            0 <= k < picked(rows, wanted).len() ==> wanted(#[trigger] picked(rows, wanted)[k])
                && rows.contains(picked(rows, wanted)[k]),
        forall|i: int| 0 <= i < rows.len() && wanted(#[trigger] rows[i]) ==> picked(rows, wanted).contains(rows[i]),
    decreases rows.len(),
{
    if rows.len() > 0 {
        lemma_picked(rows.drop_last(), wanted);
        let rest = picked(rows.drop_last(), wanted);
        let all = picked(rows, wanted);
        assert forall|k: int| 0 <= k < all.len() implies wanted(#[trigger] all[k]) && rows.contains(all[k]) by {
            if k < rest.len() {
                assert(all[k] == rest[k]);
                assert(rows.drop_last().contains(rest[k]));
                let i = choose|i: int| 0 <= i < rows.drop_last().len() && rows.drop_last()[i] == rest[k];
                assert(rows[i] == all[k]);
            } else {
                assert(rows[rows.len() - 1] == all[k]);
            }
        }
        assert forall|i: int| 0 <= i < rows.len() && wanted(#[trigger] rows[i]) implies all.contains(rows[i]) by {
            if i < rows.len() - 1 {
                assert(rows.drop_last()[i] == rows[i]);
                assert(rest.contains(rows[i]));
                let k = choose|k: int| 0 <= k < rest.len() && rest[k] == rows[i];
                assert(all[k] == rows[i]);
            } else {
                assert(all[rest.len() as int] == rows[i]);
            }
        }
    }
}

/// The first of a list, at most `limit` of them.
pub open spec fn at_most<V>(list: Seq<V>, limit: usize) -> Seq<V> {
    if limit < list.len() {
        list.take(limit as int)
    } else {
        list
    }
}

/// The texts of a list, each once, in the order they first appear.
pub open spec fn distinct(list: Seq<Seq<char>>) -> Seq<Seq<char>>
    decreases list.len(),
{
    if list.len() == 0 {
        list
    } else {
        let rest = distinct(list.drop_last());
        if rest.contains(list.last()) {
            rest
        } else {
            rest.push(list.last())
        }
    }
}

/// The texts of a list, each once, in the order they first appear.
pub fn distinct_texts(list: &Vec<String>) -> (r: Vec<String>)
    ensures
        views(r@) == distinct(views(list@)),
{
    let mut out: Vec<String> = Vec::new();
    let ghost all = views(list@);
    let mut i: usize = 0;
    assert(all.take(0) =~= Seq::empty());
    assert(views(out@) =~= Seq::empty());
    while i < list.len()
        invariant
            i <= list.len(),
            all == views(list@),
            views(out@) == distinct(all.take(i as int)),
        decreases list.len() - i,
    {
        assert(all.take(i as int + 1).drop_last() =~= all.take(i as int));
        assert(all.take(i as int + 1).last() == list@[i as int]@);
        if !crate::text::holds(&out, &list[i]) {
            let ghost had = views(out@);
            out.push(list[i].clone());
            assert(views(out@) =~= had.push(list@[i as int]@));
        }
        i += 1;
    }
    assert(all.take(i as int) =~= all);
    out
}

} // verus!
