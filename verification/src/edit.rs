//! The lines one form gained and lost relative to another.

use vstd::multiset::Multiset;
use vstd::prelude::*;
use vstd::seq_lib::*;

use crate::order::{
    lemma_sorted_keeps, lemma_sorted_ordered, lemma_text_order, ordered, sort_texts, sorted,
    text_order,
};
use crate::text::{is_before, line_views, lines, precedes, same, views};

verus! {

/// The lines taken out, and the lines put in.
pub type Edit = (Seq<Seq<char>>, Seq<Seq<char>>);

/// A list without the first occurrence of `item`.
pub open spec fn without(list: Seq<Seq<char>>, item: Seq<char>) -> Seq<Seq<char>>
    decreases list.len(),
{
    if list.len() == 0 {
        list
    } else if list[0] == item {
        list.skip(1)
    } else {
        seq![list[0]] + without(list.skip(1), item)
    }
}

/// What is left of `old` when each line of `new` has taken one of its own kind out.
pub open spec fn left_over(old: Seq<Seq<char>>, new: Seq<Seq<char>>) -> Seq<Seq<char>>
    decreases new.len(),
{
    if new.len() == 0 {
        old
    } else {
        without(left_over(old, new.drop_last()), new.last())
    }
}

/// The lines of `new` that found none of their own kind left in `old`.
pub open spec fn put_in(old: Seq<Seq<char>>, new: Seq<Seq<char>>) -> Seq<Seq<char>>
    decreases new.len(),
{
    if new.len() == 0 {
        Seq::empty()
    } else if left_over(old, new.drop_last()).contains(new.last()) {
        put_in(old, new.drop_last())
    } else {
        put_in(old, new.drop_last()).push(new.last())
    }
}

/// The edit that leads from one text to another, each side in order.
pub open spec fn edit_between(before: Seq<char>, after: Seq<char>) -> Edit {
    let old = line_views(before);
    let new = line_views(after);
    (sorted(left_over(old, new), text_order()), sorted(put_in(old, new), text_order()))
}

proof fn lemma_without(list: Seq<Seq<char>>, item: Seq<char>)
    ensures
        without(list, item).to_multiset() == list.to_multiset().remove(item),
        !list.contains(item) ==> without(list, item) == list,
    decreases list.len(),
{
    broadcast use group_to_multiset_ensures;
    if list.len() > 0 {
        let rest = list.skip(1);
        assert(list =~= seq![list[0]] + rest);
        lemma_multiset_commutative(seq![list[0]], rest);
        assert(seq![list[0]] =~= Seq::<Seq<char>>::empty().push(list[0]));
        assert(seq![list[0]].to_multiset() =~= Multiset::singleton(list[0]));
        assert(list.contains(list[0]));
        if list[0] == item {
            assert(list.to_multiset().remove(item) =~= rest.to_multiset());
        } else {
            lemma_without(rest, item);
            let kept = without(rest, item);
            lemma_multiset_commutative(seq![list[0]], kept);
            assert((seq![list[0]] + kept).to_multiset() =~= list.to_multiset().remove(item));
            if !list.contains(item) {
                assert forall|k: int| 0 <= k < rest.len() implies rest[k] != item by {
                    assert(list[k + 1] == rest[k]);
                }
                assert(without(list, item) =~= list);
            }
        }
    } else {
        assert(list.to_multiset().remove(item) =~= list.to_multiset());
    }
}

/// How often a line is left over, or was put in.
pub proof fn lemma_difference(old: Seq<Seq<char>>, new: Seq<Seq<char>>, line: Seq<char>)
    ensures
        left_over(old, new).to_multiset().count(line) == if old.to_multiset().count(line)
            > new.to_multiset().count(line) {
            old.to_multiset().count(line) - new.to_multiset().count(line)
        } else {
            0
        },
        put_in(old, new).to_multiset().count(line) == if new.to_multiset().count(line)
            > old.to_multiset().count(line) {
            new.to_multiset().count(line) - old.to_multiset().count(line)
        } else {
            0
        },
    decreases new.len(),
{
    broadcast use group_to_multiset_ensures;
    if new.len() == 0 {
        assert(new =~= Seq::<Seq<char>>::empty());
        assert(new.to_multiset().count(line) == 0) by {
            new.to_multiset_ensures();
            assert(!new.contains(line));
        }
        let none = put_in(old, new);
        none.to_multiset_ensures();
        assert(!none.contains(line));
    } else {
        let rest = new.drop_last();
        let last = new.last();
        lemma_difference(old, rest, line);
        lemma_difference(old, rest, last);
        assert(new =~= rest.push(last));
        assert(new.to_multiset() =~= rest.to_multiset().insert(last));
        let left = left_over(old, rest);
        lemma_without(left, last);
        left.to_multiset_ensures();
        assert(left.contains(last) <==> left.to_multiset().count(last) > 0);
        let put = put_in(old, rest);
        assert(put.push(last).to_multiset() =~= put.to_multiset().insert(last));
    }
}

/// The two sides of an edit are the two differences of the texts' lines, counted line by
/// line, each in order.
pub proof fn law_edit_is_the_difference(before: Seq<char>, after: Seq<char>, line: Seq<char>)
    ensures
        ({
            let edit = edit_between(before, after);
            let old = line_views(before).to_multiset().count(line);
            let new = line_views(after).to_multiset().count(line);
            &&& edit.0.to_multiset().count(line) == if old > new { old - new } else { 0 }
            &&& edit.1.to_multiset().count(line) == if new > old { new - old } else { 0 }
            &&& ordered(edit.0, text_order())
            &&& ordered(edit.1, text_order())
        }),
{
    let old = line_views(before);
    let new = line_views(after);
    lemma_difference(old, new, line);
    lemma_sorted_keeps(left_over(old, new), text_order());
    lemma_sorted_keeps(put_in(old, new), text_order());
    lemma_text_order();
    lemma_sorted_ordered(left_over(old, new), text_order());
    lemma_sorted_ordered(put_in(old, new), text_order());
}

/// A text compared with itself is no edit.
pub proof fn law_no_edit_of_itself(text: Seq<char>)
    ensures
        edit_between(text, text) == (Seq::<Seq<char>>::empty(), Seq::<Seq<char>>::empty()),
{
    let all = line_views(text);
    let edit = edit_between(text, text);
    let left = left_over(all, all);
    let put = put_in(all, all);
    lemma_sorted_keeps(left, text_order());
    lemma_sorted_keeps(put, text_order());
    left.to_multiset_ensures();
    put.to_multiset_ensures();
    if left.len() > 0 {
        lemma_difference(all, all, left[0]);
        assert(left.contains(left[0]));
    }
    if put.len() > 0 {
        lemma_difference(all, all, put[0]);
        assert(put.contains(put[0]));
    }
    assert(edit.0 =~= Seq::<Seq<char>>::empty());
    assert(edit.1 =~= Seq::<Seq<char>>::empty());
}

/// Takes the first occurrence of a line out of a list, and says whether there was one.
fn take_out(list: &mut Vec<String>, line: &str) -> (r: bool)
    ensures
        r == views(old(list)@).contains(line@),
        views(final(list)@) == without(views(old(list)@), line@),
{
    let ghost all = views(list@);
    let mut i: usize = 0;
    assert(all.take(0) + without(all.skip(0), line@) =~= without(all, line@)) by {
        assert(all.skip(0) =~= all);
    }
    while i < list.len()
        invariant
            i <= list.len(),
            all == views(list@),
            list@ == old(list)@,
            forall|k: int| 0 <= k < i ==> all[k] != line@,
            without(all, line@) == all.take(i as int) + without(all.skip(i as int), line@),
        decreases list.len() - i,
    {
        assert(all.skip(i as int)[0] == all[i as int]);
        assert(all[i as int] == list@[i as int]@);
        assert(all.skip(i as int).skip(1) =~= all.skip(i as int + 1));
        if same(&list[i], line) {
            assert(all.contains(line@));
            list.remove(i);
            assert(views(list@) =~= all.take(i as int) + all.skip(i as int + 1));
            return true;
        }
        assert(all.take(i as int) + (seq![all[i as int]] + without(all.skip(i as int + 1), line@))
            =~= all.take(i as int + 1) + without(all.skip(i as int + 1), line@));
        i += 1;
    }
    assert(all.take(i as int) + without(all.skip(i as int), line@) =~= all);
    false
}

/// The lines one form gained and lost relative to another.
///
/// A difference of multisets rather than a diff, which is enough because an expanded
/// form has one child per line: an edit deep inside it leaves every other line as it was.
pub fn line_edit(before: &str, after: &str) -> (r: (Vec<String>, Vec<String>))
    ensures
        (views(r.0@), views(r.1@)) == edit_between(before@, after@),
{
    let mut held: Vec<String> = lines(before);
    let new: Vec<String> = lines(after);
    let ghost old_views = views(held@);
    let ghost new_views = views(new@);
    let mut added: Vec<String> = Vec::new();
    let mut i: usize = 0;
    assert(new_views.take(0) =~= Seq::<Seq<char>>::empty());
    assert(views(added@) =~= Seq::<Seq<char>>::empty());
    while i < new.len()
        invariant
            i <= new.len(),
            new_views == views(new@),
            views(held@) == left_over(old_views, new_views.take(i as int)),
            views(added@) == put_in(old_views, new_views.take(i as int)),
        decreases new.len() - i,
    {
        assert(new_views.take(i as int + 1).drop_last() =~= new_views.take(i as int));
        assert(new_views.take(i as int + 1).last() == new@[i as int]@);
        let ghost was = views(added@);
        if !take_out(&mut held, &new[i]) {
            added.push(new[i].clone());
            assert(views(added@) =~= was.push(new@[i as int]@));
        }
        i += 1;
    }
    assert(new_views.take(i as int) =~= new_views);
    (sort_texts(held), sort_texts(added))
}

// ---------------------------------------------------------------------------
// The order of edits
// ---------------------------------------------------------------------------

/// `a` comes before `b` in the order of their texts, a proper prefix first.
pub open spec fn list_precedes(a: Seq<Seq<char>>, b: Seq<Seq<char>>) -> bool
    decreases a.len(),
{
    if b.len() == 0 {
        false
    } else if a.len() == 0 {
        true
    } else if a[0] == b[0] {
        list_precedes(a.skip(1), b.skip(1))
    } else {
        precedes(a[0], b[0])
    }
}

/// The order of edits: by what they take out, then by what they put in.
pub open spec fn edit_order() -> spec_fn(Edit, Edit) -> bool {
    |a: Edit, b: Edit|
        if a.0 == b.0 {
            list_precedes(a.1, b.1)
        } else {
            list_precedes(a.0, b.0)
        }
}

/// Whether two lists hold the same texts in the same order.
pub fn same_list(a: &Vec<String>, b: &Vec<String>) -> (r: bool)
    ensures
        r == (views(a@) == views(b@)),
{
    if a.len() != b.len() {
        assert(views(a@).len() != views(b@).len());
        return false;
    }
    let mut i: usize = 0;
    while i < a.len()
        invariant
            i <= a.len(),
            a.len() == b.len(),
            forall|k: int| 0 <= k < i ==> a@[k]@ == b@[k]@,
        decreases a.len() - i,
    {
        if !same(&a[i], &b[i]) {
            assert(views(a@)[i as int] != views(b@)[i as int]);
            return false;
        }
        i += 1;
    }
    assert(views(a@) =~= views(b@));
    true
}

/// Whether `a` comes before `b`.
pub fn is_list_before(a: &Vec<String>, b: &Vec<String>) -> (r: bool)
    ensures
        r == list_precedes(views(a@), views(b@)),
{
    let ghost left = views(a@);
    let ghost right = views(b@);
    let mut i: usize = 0;
    assert(left.skip(0) =~= left);
    assert(right.skip(0) =~= right);
    while i < a.len() && i < b.len() && same(&a[i], &b[i])
        invariant
            i <= a.len(),
            i <= b.len(),
            left == views(a@),
            right == views(b@),
            list_precedes(left.skip(i as int), right.skip(i as int)) == list_precedes(left, right),
        decreases a.len() - i,
    {
        assert(left.skip(i as int).skip(1) =~= left.skip(i as int + 1));
        assert(right.skip(i as int).skip(1) =~= right.skip(i as int + 1));
        i += 1;
    }
    if i >= b.len() {
        false
    } else if i >= a.len() {
        true
    } else {
        is_before(&a[i], &b[i])
    }
}

} // verus!
