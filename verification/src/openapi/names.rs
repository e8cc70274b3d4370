//! Names in the document: what a component key or an operation id is made of, and how names
//! that fold together are kept apart.

use vstd::prelude::*;

use crate::text::{
    ascii_digit, chars_of, decimal, holds, is_digit, is_letter, join3, join5, lemma_decimal_value,
    letter, views, wide_decimal,
};

verus! {

/// Whether a character may stand in the key of a component.
pub open spec fn in_component(c: char) -> bool {
    is_letter(c) || is_digit(c) || c == '.' || c == '_' || c == '-'
}

/// A name as part of the key of a component: what may not stand there is an underscore.
pub open spec fn component_view(raw: Seq<char>) -> Seq<char> {
    Seq::new(
        raw.len(),
        |i: int|
            if in_component(raw[i]) {
                raw[i]
            } else {
                '_'
            },
    )
}

/// A name as part of the key of a component.
pub(crate) fn component_name(raw: &str) -> (r: String)
    ensures
        r@ == component_view(raw@),
{
    let chars: Vec<char> = chars_of(raw);
    let mut out = String::new();
    let mut i: usize = 0;
    assert(out@ =~= component_view(raw@).take(0));
    while i < chars.len()
        invariant
            i <= chars.len(),
            chars@ == raw@,
            out@ == component_view(raw@).take(i as int),
        decreases chars.len() - i,
    {
        let c: char = chars[i];
        if letter(c) || ascii_digit(c) || c == '.' || c == '_' || c == '-' {
            out.push(c);
        } else {
            out.push('_');
        }
        assert(out@ =~= component_view(raw@).take(i as int + 1));
        i += 1;
    }
    assert(component_view(raw@).take(i as int) =~= component_view(raw@));
    out
}

/// A name as part of an operation id: anything but an ascii letter or digit is an
/// underscore, so that a generated client can name a function after it.
pub open spec fn identifier_view(raw: Seq<char>) -> Seq<char> {
    Seq::new(
        raw.len(),
        |i: int|
            if is_letter(raw[i]) || is_digit(raw[i]) {
                raw[i]
            } else {
                '_'
            },
    )
}

/// A name as part of an operation id.
pub(crate) fn identifier(raw: &str) -> (r: String)
    ensures
        r@ == identifier_view(raw@),
{
    let chars: Vec<char> = chars_of(raw);
    let mut out = String::new();
    let mut i: usize = 0;
    assert(out@ =~= identifier_view(raw@).take(0));
    while i < chars.len()
        invariant
            i <= chars.len(),
            chars@ == raw@,
            out@ == identifier_view(raw@).take(i as int),
        decreases chars.len() - i,
    {
        let c: char = chars[i];
        if letter(c) || ascii_digit(c) {
            out.push(c);
        } else {
            out.push('_');
        }
        assert(out@ =~= identifier_view(raw@).take(i as int + 1));
        i += 1;
    }
    assert(identifier_view(raw@).take(i as int) =~= identifier_view(raw@));
    out
}

/// The id of an operation on an entity.
pub open spec fn operation_id_view(prefix: Seq<char>, projector: Seq<char>, entity: Seq<char>) -> Seq<
    char,
> {
    prefix + "_"@ + identifier_view(projector) + "_"@ + identifier_view(entity)
}

/// The id of an operation on an entity.
pub(crate) fn operation_id(prefix: &str, projector: &str, entity: &str) -> (r: String)
    ensures
        r@ == operation_id_view(prefix@, projector@, entity@),
{
    join5(prefix, "_", &identifier(projector), "_", &identifier(entity))
}

/// A candidate as it is spelled at its n-th try: itself first, then with a number behind
/// it.
pub open spec fn numbered(candidate: Seq<char>, n: nat) -> Seq<char> {
    if n < 2 {
        candidate
    } else {
        candidate + "_"@ + decimal(n)
    }
}

/// Whether the n-th spelling of a candidate is the first that is not taken.
pub open spec fn first_free(taken: Seq<Seq<char>>, candidate: Seq<char>, n: nat) -> bool {
    &&& n >= 1
    &&& !taken.contains(numbered(candidate, n))
    &&& forall|k: nat| 1 <= k < n ==> taken.contains(#[trigger] numbered(candidate, k))
}

/// What a candidate is called once others have been taken: the first spelling of it that
/// is free.
pub open spec fn claimed(taken: Seq<Seq<char>>, candidate: Seq<char>) -> Seq<char> {
    numbered(candidate, choose|n: nat| first_free(taken, candidate, n))
}

/// What each candidate is called, in turn, where some names are taken from the start.
pub open spec fn claims(taken: Seq<Seq<char>>, candidates: Seq<Seq<char>>) -> Seq<Seq<char>>
    decreases candidates.len(),
{
    if candidates.len() == 0 {
        Seq::empty()
    } else {
        let earlier = claims(taken, candidates.drop_last());
        earlier.push(claimed(taken + earlier, candidates.last()))
    }
}

/// No two tries spell a candidate alike.
proof fn lemma_numbered_differ(candidate: Seq<char>, a: nat, b: nat)
    requires
        1 <= a < b,
    ensures
        numbered(candidate, a) != numbered(candidate, b),
{
    let first = numbered(candidate, a);
    let second = numbered(candidate, b);
    lemma_decimal_value(b);
    if a < 2 {
        assert(first.len() < second.len()) by {
            reveal_strlit("_");
            assert("_"@.len() == 1);
        }
    } else {
        lemma_decimal_value(a);
        if first == second {
            let head = candidate + "_"@;
            assert(first.skip(head.len() as int) =~= decimal(a));
            assert(second.skip(head.len() as int) =~= decimal(b));
        }
    }
}

/// As many names are taken as spellings of a candidate are.
proof fn lemma_taken_many(taken: Seq<Seq<char>>, candidate: Seq<char>, n: nat)
    requires
        forall|k: nat| 1 <= k <= n ==> taken.contains(#[trigger] numbered(candidate, k)),
    ensures
        n <= taken.len(),
    decreases n,
{
    if n > 0 {
        let last = numbered(candidate, n);
        assert(taken.contains(last));
        let at = choose|i: int| 0 <= i < taken.len() && taken[i] == last;
        let rest = taken.remove(at);
        assert forall|k: nat| 1 <= k <= (n - 1) as nat implies rest.contains(
            #[trigger] numbered(candidate, k),
        ) by {
            lemma_numbered_differ(candidate, k, n);
            let i = choose|i: int| 0 <= i < taken.len() && taken[i] == numbered(candidate, k);
            if i < at {
                assert(rest[i] == numbered(candidate, k));
            } else {
                assert(rest[i - 1] == numbered(candidate, k));
            }
        }
        lemma_taken_many(rest, candidate, (n - 1) as nat);
    }
}

/// Some spelling of a candidate is always free.
proof fn lemma_first_free(taken: Seq<Seq<char>>, candidate: Seq<char>, from: nat)
    requires
        from >= 1,
        forall|k: nat| 1 <= k < from ==> taken.contains(#[trigger] numbered(candidate, k)),
    ensures
        exists|n: nat| first_free(taken, candidate, n),
    decreases taken.len() + 1 - from,
{
    if taken.contains(numbered(candidate, from)) {
        lemma_taken_many(taken, candidate, from);
        lemma_first_free(taken, candidate, from + 1);
    } else {
        assert(first_free(taken, candidate, from));
    }
}

/// What a candidate is called is free.
pub proof fn lemma_claimed(taken: Seq<Seq<char>>, candidate: Seq<char>)
    ensures
        !taken.contains(claimed(taken, candidate)),
        !taken.contains(candidate) ==> claimed(taken, candidate) == candidate,
{
    lemma_first_free(taken, candidate, 1);
    let n = choose|n: nat| first_free(taken, candidate, n);
    assert(first_free(taken, candidate, n));
    if !taken.contains(candidate) && n > 1 {
        assert(taken.contains(numbered(candidate, 1)));
    }
}

/// Names handed out in turn are all different, from each other and from those that were
/// taken.
pub proof fn law_claims_are_unique(taken: Seq<Seq<char>>, candidates: Seq<Seq<char>>)
    ensures
        claims(taken, candidates).len() == candidates.len(),
        claims(taken, candidates).no_duplicates(),
        forall|i: int|
            0 <= i < candidates.len() ==> !taken.contains(#[trigger] claims(taken, candidates)[i]),
    decreases candidates.len(),
{
    if candidates.len() > 0 {
        law_claims_are_unique(taken, candidates.drop_last());
        let earlier = claims(taken, candidates.drop_last());
        let all = claims(taken, candidates);
        let busy = taken + earlier;
        lemma_claimed(busy, candidates.last());
        assert forall|i: int| 0 <= i < earlier.len() implies all[i] != all.last() by {
            assert(busy[taken.len() + i] == earlier[i]);
        }
        assert forall|i: int| 0 <= i < all.len() implies !taken.contains(#[trigger] all[i]) by {
            if i < earlier.len() {
                assert(all[i] == earlier[i]);
            } else if taken.contains(all[i]) {
                let k = choose|k: int| 0 <= k < taken.len() && taken[k] == all[i];
                assert(busy[k] == all[i]);
            }
        }
    }
}

/// Names that are free and differ are left as they are.
pub proof fn law_unique_candidates_keep_their_names(taken: Seq<Seq<char>>, candidates: Seq<Seq<char>>)
    requires
        candidates.no_duplicates(),
        forall|i: int| 0 <= i < candidates.len() ==> !taken.contains(#[trigger] candidates[i]),
    ensures
        claims(taken, candidates) == candidates,
    decreases candidates.len(),
{
    if candidates.len() > 0 {
        let rest = candidates.drop_last();
        assert forall|i: int| 0 <= i < rest.len() implies !taken.contains(#[trigger] rest[i]) by {
            assert(rest[i] == candidates[i]);
        }
        law_unique_candidates_keep_their_names(taken, rest);
        let busy = taken + rest;
        if busy.contains(candidates.last()) {
            let k = choose|k: int| 0 <= k < busy.len() && busy[k] == candidates.last();
            if k < taken.len() {
                assert(taken[k] == candidates[candidates.len() - 1]);
                assert(taken.contains(candidates[candidates.len() - 1]));
            } else {
                assert(rest[k - taken.len()] == candidates.last());
            }
        }
        lemma_claimed(busy, candidates.last());
        assert(rest.push(candidates.last()) =~= candidates);
    }
    assert(claims(taken, candidates) =~= candidates);
}

/// Names a candidate, and takes the name.
pub(crate) fn claim(taken: &mut Vec<String>, candidate: &str) -> (r: String)
    ensures
        r@ == claimed(views(old(taken)@), candidate@),
        views(final(taken)@) == views(old(taken)@).push(r@),
{
    let ghost busy = views(taken@);
    let mut unique = candidate.to_owned();
    let mut suffix: u128 = 1;
    while holds(taken, &unique)
        invariant
            busy == views(taken@),
            busy.len() == taken.len(),
            suffix >= 1,
            suffix <= taken.len() + 1,
            unique@ == numbered(candidate@, suffix as nat),
            forall|k: nat| 1 <= k < suffix ==> busy.contains(#[trigger] numbered(candidate@, k)),
        decreases taken.len() + 1 - suffix,
    {
        proof {
            lemma_taken_many(busy, candidate@, suffix as nat);
        }
        suffix += 1;
        unique = join3(candidate, "_", &wide_decimal(suffix));
    }
    proof {
        assert(first_free(busy, candidate@, suffix as nat));
        let n = choose|n: nat| first_free(busy, candidate@, n);
        assert(first_free(busy, candidate@, n));
        if n < suffix {
            assert(busy.contains(numbered(candidate@, n)));
        } else if suffix < n {
            assert(busy.contains(numbered(candidate@, suffix as nat)));
        }
    }
    taken.push(unique.clone());
    assert(views(taken@) =~= busy.push(unique@));
    unique
}

} // verus!
