//! Generated source for the builtins in scope: what a jump to one of them lands in.
//!
//! A source is only ever parsed, never evaluated. It exists so that a binding of the right
//! name can be found in it.

use starlark::syntax::{AstModule, Dialect, DialectTypes};
use vstd::prelude::*;

use crate::text::{chars_of, has_part, join2, join5, stands_at};

verus! {

/// What is documented of a value.
#[derive(Debug)]
pub struct DocText {
    pub summary: String,
    pub details: Option<String>,
}

/// What is documented of a builtin.
#[derive(Debug)]
pub enum Doc {
    /// A namespace, with its members.
    Namespace(Vec<(String, Doc)>),
    /// A value rather than a function, or a type without members.
    Value(Option<DocText>),
    /// Anything else, as the language renders it under the name it is asked for.
    Code(String),
}

/// A text with every `"""` written `'''`: it would end the literal that the text stands in.
pub open spec fn unquoted(text: Seq<char>) -> Seq<char>
    decreases text.len(),
{
    if text.len() == 0 {
        text
    } else if text.len() >= 3 && text[0] == '"' && text[1] == '"' && text[2] == '"' {
        seq!['\'', '\'', '\''] + unquoted(text.skip(3))
    } else {
        seq![text[0]] + unquoted(text.skip(1))
    }
}

fn without_quotes(text: &str) -> (r: String)
    ensures
        r@ == unquoted(text@),
{
    let chars: Vec<char> = chars_of(text);
    let mut out = String::new();
    let mut i: usize = 0;
    assert(chars@.skip(0) =~= chars@);
    assert(out@ + unquoted(chars@) =~= unquoted(chars@));
    while i < chars.len()
        invariant
            i <= chars.len(),
            out@ + unquoted(chars@.skip(i as int)) == unquoted(chars@),
        decreases chars.len() - i,
    {
        let ghost rest = chars@.skip(i as int);
        let ghost had = out@;
        if chars.len() - i >= 3 && chars[i] == '"' && chars[i + 1] == '"' && chars[i + 2] == '"' {
            out.push('\'');
            out.push('\'');
            out.push('\'');
            proof {
                assert(rest.skip(3) =~= chars@.skip(i as int + 3));
                assert(out@ =~= had + seq!['\'', '\'', '\'']);
                assert(out@ + unquoted(rest.skip(3)) =~= had + (seq!['\'', '\'', '\'']
                    + unquoted(rest.skip(3))));
            }
            i += 3;
        } else {
            out.push(chars[i]);
            proof {
                assert(rest.skip(1) =~= chars@.skip(i as int + 1));
                assert(out@ =~= had + seq![rest[0]]);
                assert(out@ + unquoted(rest.skip(1)) =~= had + (seq![rest[0]] + unquoted(
                    rest.skip(1),
                )));
            }
            i += 1;
        }
    }
    assert(chars@.skip(i as int) =~= Seq::empty());
    assert(out@ + unquoted(chars@.skip(i as int)) =~= out@);
    out
}

/// What is documented, in one text.
pub open spec fn doc_text(docs: DocText) -> Seq<char> {
    docs.summary@ + match docs.details {
        Some(details) => "\n\n"@ + details@,
        None => Seq::empty(),
    }
}

/// A value as a documented binding.
pub open spec fn value_source(name: Seq<char>, docs: Option<DocText>) -> Seq<char> {
    match docs {
        Some(docs) => "\"\"\"\n"@ + unquoted(doc_text(docs)) + "\n\"\"\"\n"@ + name + " = None\n"@,
        None => name + " = None\n"@,
    }
}

/// The members of a namespace as private definitions.
pub open spec fn member_sources(members: Seq<(String, Doc)>) -> Seq<char>
    decreases members,
{
    if members.len() == 0 {
        Seq::empty()
    } else {
        member_sources(members.drop_last()) + item_source(
            "_"@ + members.last().0@,
            members.last().1,
        ) + "\n\n"@
    }
}

/// The members of a namespace as what it is made of.
pub open spec fn member_fields(members: Seq<(String, Doc)>) -> Seq<char>
    decreases members.len(),
{
    if members.len() == 0 {
        Seq::empty()
    } else {
        member_fields(members.drop_last()) + "    "@ + members.last().0@ + " = _"@
            + members.last().0@ + ",\n"@
    }
}

/// A builtin as source that holds a binding of its name.
pub open spec fn item_source(name: Seq<char>, item: Doc) -> Seq<char>
    decreases item,
{
    match item {
        Doc::Namespace(members) => member_sources(members@) + name + " = struct(\n"@
            + member_fields(members@) + ")\n"@,
        Doc::Value(docs) => value_source(name, docs),
        Doc::Code(code) => code@,
    }
}

/// A value as a documented binding. It is always bound to `None`: what matters is that the
/// name is bound where a jump can find it.
fn render_value(name: &str, docs: &Option<DocText>) -> (r: String)
    ensures
        r@ == value_source(name@, *docs),
{
    match docs {
        Some(docs) => {
            let mut details = String::new();
            if let Some(text) = &docs.details {
                details = join2("\n\n", text);
            }
            assert(details@ =~= match docs.details {
                Some(details) => "\n\n"@ + details@,
                None => Seq::empty(),
            });
            let text = join2(&docs.summary, &details);
            join5("\"\"\"\n", &without_quotes(&text), "\n\"\"\"\n", name, " = None\n")
        },
        None => join2(name, " = None\n"),
    }
}

/// The members of a namespace as what it is made of.
fn render_fields(members: &Vec<(String, Doc)>) -> (r: String)
    ensures
        r@ == member_fields(members@),
{
    let mut out = String::new();
    let mut i: usize = 0;
    assert(members@.take(0) =~= Seq::empty());
    while i < members.len()
        invariant
            i <= members.len(),
            out@ == member_fields(members@.take(i as int)),
        decreases members.len() - i,
    {
        assert(members@.take(i as int + 1).drop_last() =~= members@.take(i as int));
        out.append("    ");
        out.append(&members[i].0);
        out.append(" = _");
        out.append(&members[i].0);
        out.append(",\n");
        i += 1;
    }
    assert(members@.take(i as int) =~= members@);
    out
}

/// A builtin as source that holds a binding of its name. A namespace is a `struct(..)`
/// over private definitions, the one shape that a jump to a member follows.
pub fn render_item(name: &str, item: &Doc) -> (r: String)
    ensures
        r@ == item_source(name@, *item),
    decreases *item,
{
    match item {
        Doc::Namespace(members) => {
            let mut out = String::new();
            let mut i: usize = 0;
            assert(members@.take(0) =~= Seq::empty());
            while i < members.len()
                invariant
                    i <= members.len(),
                    decreases_to!(*item => members@),
                    out@ == member_sources(members@.take(i as int)),
                decreases members.len() - i,
            {
                proof {
                    assert(decreases_to!(members@ => members@[i as int]));
                    assert(decreases_to!(members@[i as int] => members@[i as int].1));
                    assert(members@.take(i as int + 1).drop_last() =~= members@.take(i as int));
                }
                out.append(&render_item(&join2("_", &members[i].0), &members[i].1));
                out.append("\n\n");
                i += 1;
            }
            assert(members@.take(i as int) =~= members@);
            out.append(name);
            out.append(" = struct(\n");
            out.append(&render_fields(members));
            out.append(")\n");
            out
        },
        Doc::Value(docs) => render_value(name, docs),
        Doc::Code(code) => code.clone(),
    }
}

/// Whether `starlark` parses a source under its standard dialect, with types that are read
/// and not checked, and with parameter separators where they are allowed.
pub uninterp spec fn source_parses(source: Seq<char>, positional_only: bool, keyword_only: bool) -> bool;

/// Parses a source with `starlark`'s `AstModule::parse`. The dialect is the standard one,
/// with types that are read and not checked, and with the separators `/` and `*` between
/// parameters as told. What parses is left to `starlark`; claimed is that it depends on the
/// source and the separators alone: the file name is there for messages.
#[verifier::external_body]
fn parses(name: &str, source: &str, positional_only: bool, keyword_only: bool) -> (r: bool)
    ensures
        r == source_parses(source@, positional_only, keyword_only),
{
    let dialect = Dialect {
        enable_positional_only_arguments: positional_only,
        enable_keyword_only_arguments: keyword_only,
        enable_types: DialectTypes::ParseOnly,
        ..Dialect::Standard
    };
    AstModule::parse(name, source.to_owned(), &dialect).is_ok()
}

/// Whether a stub parses: it may separate its parameters both ways, which a module may not.
pub open spec fn stub_parses(source: Seq<char>) -> bool {
    source_parses(source, true, true)
}

/// A builtin's source, of its documentation with types and without.
pub open spec fn stub_source(name: Seq<char>, typed: Doc, untyped: Doc) -> Seq<char> {
    item_source(
        name,
        if stub_parses(item_source(name, typed)) {
            typed
        } else {
            untyped
        },
    )
}

/// A builtin's source: with its types where that parses, and without them where it does
/// not. A source that does not parse holds nothing to jump to.
pub fn render_stub(name: &str, typed: &Doc, untyped: &Doc) -> (r: String)
    ensures
        r@ == stub_source(name@, *typed, *untyped),
{
    let source = render_item(name, typed);
    let parsed = parses(name, &source, true, true);
    chosen_stub(name, source, untyped, parsed)
}

/// The typed source of a builtin where it parsed, and the one without types where it did
/// not.
pub fn chosen_stub(name: &str, typed: String, untyped: &Doc, parsed: bool) -> (r: String)
    ensures
        r@ == if parsed {
            typed@
        } else {
            item_source(name@, *untyped)
        },
{
    if parsed {
        typed
    } else {
        render_item(name, untyped)
    }
}

/// The source of a namespace or a value binds its name.
pub proof fn law_a_stub_binds_its_name(name: Seq<char>, item: Doc)
    requires
        !(item is Code),
    ensures
        has_part(item_source(name, item), name + " = "@),
{
    let source = item_source(name, item);
    let part = name + " = "@;
    reveal_strlit(" = ");
    reveal_strlit(" = None\n");
    reveal_strlit(" = struct(\n");
    assert(" = "@.len() == 3);
    match item {
        Doc::Namespace(members) => {
            let at = member_sources(members@).len() as int;
            assert(source.subrange(at, at + part.len()) =~= part);
            assert(stands_at(source, part, at));
        },
        Doc::Value(Some(docs)) => {
            let at = ("\"\"\"\n"@ + unquoted(doc_text(docs)) + "\n\"\"\"\n"@).len() as int;
            assert(source.subrange(at, at + part.len()) =~= part);
            assert(stands_at(source, part, at));
        },
        Doc::Value(None) => {
            assert(source.subrange(0, part.len() as int) =~= part);
            assert(stands_at(source, part, 0));
        },
        Doc::Code(_) => {},
    }
}

} // verus!
