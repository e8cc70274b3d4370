//! The pieces of generated SQL.

use vstd::prelude::*;

use crate::text::{chars_of, views};

verus! {

/// A name with every double quote in it doubled.
pub open spec fn doubled(name: Seq<char>) -> Seq<char>
    decreases name.len(),
{
    if name.len() == 0 {
        Seq::empty()
    } else if name.last() == '"' {
        doubled(name.drop_last()).push('"').push('"')
    } else {
        doubled(name.drop_last()).push(name.last())
    }
}

/// A name in SQLite's double-quote syntax.
pub open spec fn quoted(name: Seq<char>) -> Seq<char> {
    (seq!['"'] + doubled(name)).push('"')
}

/// Wraps a generated table, column or index name in SQLite's double-quote syntax,
/// doubling any embedded quote. Every identifier that goes into a statement goes through
/// this: a field named after a keyword is a valid column name that unquoted is a syntax
/// error.
pub fn quote_ident(name: &str) -> (r: String)
    ensures
        r@ == quoted(name@),
{
    let chars: Vec<char> = chars_of(name);
    let mut out = String::new();
    out.push('"');
    let ghost open = out@;
    assert(open =~= seq!['"']);
    let mut i: usize = 0;
    assert(chars@.take(0) =~= Seq::<char>::empty());
    assert(open + doubled(chars@.take(0)) =~= open);
    while i < chars.len()
        invariant
            i <= chars.len(),
            out@ == open + doubled(chars@.take(i as int)),
        decreases chars.len() - i,
    {
        let ghost done = doubled(chars@.take(i as int));
        assert(chars@.take(i as int + 1).drop_last() =~= chars@.take(i as int));
        if chars[i] == '"' {
            out.push('"');
            out.push('"');
            assert(out@ =~= open + done.push('"').push('"'));
        } else {
            out.push(chars[i]);
            assert(out@ =~= open + done.push(chars@[i as int]));
        }
        i += 1;
    }
    assert(chars@.take(i as int) =~= chars@);
    out.push('"');
    out
}

/// The name that a doubled name was made from.
pub open spec fn undoubled(text: Seq<char>) -> Seq<char>
    decreases text.len(),
{
    if text.len() == 0 {
        Seq::empty()
    } else if text.len() >= 2 && text.last() == '"' && text[text.len() - 2] == '"' {
        undoubled(text.drop_last().drop_last()).push('"')
    } else {
        undoubled(text.drop_last()).push(text.last())
    }
}

/// The name comes back out of its quotes: two names are quoted alike only if they are
/// the same.
pub proof fn law_quoting_loses_nothing(name: Seq<char>)
    ensures
        quoted(name).len() >= 2,
        undoubled(quoted(name).subrange(1, quoted(name).len() - 1)) == name,
{
    assert(quoted(name).subrange(1, quoted(name).len() - 1) =~= doubled(name));
    lemma_undoubled(name);
}

proof fn lemma_undoubled(name: Seq<char>)
    ensures
        undoubled(doubled(name)) == name,
    decreases name.len(),
{
    if name.len() > 0 {
        let rest = name.drop_last();
        lemma_undoubled(rest);
        let d = doubled(rest);
        assert(name =~= rest.push(name.last()));
        if name.last() == '"' {
            assert(d.push('"').push('"').drop_last().drop_last() =~= d);
        } else {
            assert(d.push(name.last()).drop_last() =~= d);
        }
    }
}

/// The names of a list, quoted.
pub open spec fn quoted_all(names: Seq<Seq<char>>) -> Seq<Seq<char>> {
    Seq::new(names.len(), |i: int| quoted(names[i]))
}

/// The names of a list, quoted.
pub fn quote_all(names: &Vec<String>) -> (r: Vec<String>)
    ensures
        views(r@) == quoted_all(views(names@)),
{
    let mut out: Vec<String> = Vec::new();
    let mut i: usize = 0;
    while i < names.len()
        invariant
            i <= names.len(),
            out.len() == i,
            forall|k: int| 0 <= k < i ==> (#[trigger] out@[k])@ == quoted(names@[k]@),
        decreases names.len() - i,
    {
        out.push(quote_ident(&names[i]));
        i += 1;
    }
    assert(views(out@) =~= quoted_all(views(names@)));
    out
}

} // verus!
