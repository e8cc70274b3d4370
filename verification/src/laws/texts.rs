//! Where the pieces of a text stand in it.

use vstd::prelude::*;

use crate::text::{has_part, joined, stands_at};

verus! {

/// A text stands in itself.
pub proof fn lemma_part_of_itself(text: Seq<char>)
    ensures
        has_part(text, text),
{
    assert(text.subrange(0, text.len() as int) =~= text);
    assert(stands_at(text, text, 0));
}

/// What stands in a text stands in any text around it.
pub proof fn lemma_part_within(before: Seq<char>, text: Seq<char>, after: Seq<char>, part: Seq<char>)
    requires
        has_part(text, part),
    ensures
        has_part(before + text + after, part),
{
    let at = choose|at: int| stands_at(text, part, at);
    let whole = before + text + after;
    let from = before.len() + at;
    assert(whole.subrange(from, from + part.len()) =~= text.subrange(at, at + part.len()));
    assert(stands_at(whole, part, from));
}

/// What a text ends in stands in it.
pub proof fn lemma_part_at_the_end(before: Seq<char>, part: Seq<char>)
    ensures
        has_part(before + part, part),
{
    lemma_part_of_itself(part);
    lemma_part_within(before, part, Seq::empty(), part);
    assert(before + part + Seq::<char>::empty() =~= before + part);
}

/// What stands at the front of a text stands in it.
pub proof fn lemma_part_in_front(text: Seq<char>, after: Seq<char>, part: Seq<char>)
    requires
        has_part(text, part),
    ensures
        has_part(text + after, part),
{
    lemma_part_within(Seq::empty(), text, after, part);
    assert(Seq::<char>::empty() + text + after =~= text + after);
}

/// What stands behind some text stands in the whole.
pub proof fn lemma_part_behind(before: Seq<char>, text: Seq<char>, part: Seq<char>)
    requires
        has_part(text, part),
    ensures
        has_part(before + text, part),
{
    lemma_part_within(before, text, Seq::empty(), part);
    assert(before + text + Seq::<char>::empty() =~= before + text);
}

/// Every text of a list stands in the list written out.
pub proof fn lemma_joined_part(list: Seq<Seq<char>>, separator: Seq<char>, at: int)
    requires
        0 <= at < list.len(),
    ensures
        has_part(joined(list, separator), list[at]),
    decreases list.len(),
{
    if list.len() == 1 {
        lemma_part_of_itself(list[0]);
    } else {
        let rest = list.drop_last();
        if at == list.len() - 1 {
            lemma_part_at_the_end(joined(rest, separator) + separator, list[at]);
        } else {
            lemma_joined_part(rest, separator, at);
            lemma_part_in_front(joined(rest, separator), separator, list[at]);
            lemma_part_in_front(joined(rest, separator) + separator, list.last(), list[at]);
        }
    }
}

} // verus!
