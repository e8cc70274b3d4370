//! A program's digest as the planner reads it: which declarations there are, what each
//! one does, and what it names.

use vstd::prelude::*;

use crate::graph::{
    lemma_outside_insert, lemma_outside_shrinks, lemma_reached_closed, lemma_reached_start,
    lemma_reached_step, outside, reached,
};
use crate::text::same;

verus! {

/// Which sort of declaration an entry is. The order of the variants is the order that
/// entries sort into.
#[derive(Debug, Clone, Copy, PartialEq, Eq, Structural)]
pub enum Kind {
    Subject,
    Event,
    Enum,
    Record,
    Function,
    Fold,
    Command,
    Projector,
    Effect,
    Test,
}

/// Where a kind stands in the order of kinds.
pub open spec fn kind_rank(kind: Kind) -> int {
    match kind {
        Kind::Subject => 0,
        Kind::Event => 1,
        Kind::Enum => 2,
        Kind::Record => 3,
        Kind::Function => 4,
        Kind::Fold => 5,
        Kind::Command => 6,
        Kind::Projector => 7,
        Kind::Effect => 8,
        Kind::Test => 9,
    }
}

/// The word a kind is recorded under.
pub open spec fn kind_name(kind: Kind) -> Seq<char> {
    match kind {
        Kind::Subject => "subject"@,
        Kind::Event => "event"@,
        Kind::Enum => "enum"@,
        Kind::Record => "record"@,
        Kind::Function => "function"@,
        Kind::Fold => "fold"@,
        Kind::Command => "command"@,
        Kind::Projector => "projector"@,
        Kind::Effect => "effect"@,
        Kind::Test => "test"@,
    }
}

/// The kind a recorded word stands for, if any.
pub open spec fn kind_of(word: Seq<char>) -> Option<Kind> {
    if word == "subject"@ {
        Some(Kind::Subject)
    } else if word == "event"@ {
        Some(Kind::Event)
    } else if word == "enum"@ {
        Some(Kind::Enum)
    } else if word == "record"@ {
        Some(Kind::Record)
    } else if word == "function"@ {
        Some(Kind::Function)
    } else if word == "fold"@ {
        Some(Kind::Fold)
    } else if word == "command"@ {
        Some(Kind::Command)
    } else if word == "projector"@ {
        Some(Kind::Projector)
    } else if word == "effect"@ {
        Some(Kind::Effect)
    } else if word == "test"@ {
        Some(Kind::Test)
    } else {
        None
    }
}

impl Kind {
    pub fn rank(self) -> (r: u8)
        ensures
            r == kind_rank(self),
    {
        match self {
            Kind::Subject => 0,
            Kind::Event => 1,
            Kind::Enum => 2,
            Kind::Record => 3,
            Kind::Function => 4,
            Kind::Fold => 5,
            Kind::Command => 6,
            Kind::Projector => 7,
            Kind::Effect => 8,
            Kind::Test => 9,
        }
    }

    /// The word this kind is recorded under.
    pub fn name(self) -> (r: &'static str)
        ensures
            r@ == kind_name(self),
    {
        match self {
            Kind::Subject => "subject",
            Kind::Event => "event",
            Kind::Enum => "enum",
            Kind::Record => "record",
            Kind::Function => "function",
            Kind::Fold => "fold",
            Kind::Command => "command",
            Kind::Projector => "projector",
            Kind::Effect => "effect",
            Kind::Test => "test",
        }
    }

    /// The kind a recorded word stands for, if any.
    pub fn lookup(word: &str) -> (r: Option<Kind>)
        ensures
            r == kind_of(word@),
    {
        if same(word, "subject") {
            Some(Kind::Subject)
        } else if same(word, "event") {
            Some(Kind::Event)
        } else if same(word, "enum") {
            Some(Kind::Enum)
        } else if same(word, "record") {
            Some(Kind::Record)
        } else if same(word, "function") {
            Some(Kind::Function)
        } else if same(word, "fold") {
            Some(Kind::Fold)
        } else if same(word, "command") {
            Some(Kind::Command)
        } else if same(word, "projector") {
            Some(Kind::Projector)
        } else if same(word, "effect") {
            Some(Kind::Effect)
        } else if same(word, "test") {
            Some(Kind::Test)
        } else {
            None
        }
    }
}

/// A kind is looked up by the word it is recorded under.
pub proof fn law_kind_round_trips(kind: Kind)
    ensures
        kind_of(kind_name(kind)) == Some(kind),
{
    reveal_strlit("subject");
    reveal_strlit("event");
    reveal_strlit("enum");
    reveal_strlit("record");
    reveal_strlit("function");
    reveal_strlit("fold");
    reveal_strlit("command");
    reveal_strlit("projector");
    reveal_strlit("effect");
    reveal_strlit("test");
    // Words of one length differ in a letter, all others in their length.
    assert("subject"@.len() == 7 && "command"@.len() == 7 && "event"@.len() == 5);
    assert("enum"@.len() == 4 && "fold"@.len() == 4 && "test"@.len() == 4);
    assert("record"@.len() == 6 && "effect"@.len() == 6);
    assert("function"@.len() == 8 && "projector"@.len() == 9);
    assert("subject"@[0] == 's');
    assert("command"@[0] == 'c');
    assert("record"@[0] == 'r');
    assert("effect"@[0] == 'e');
    assert("enum"@[0] == 'e');
    assert("fold"@[0] == 'f');
    assert("test"@[0] == 't');
}

/// One node of a packed form.
pub enum Sexp {
    Atom(String),
    Str(String),
    List(Vec<Sexp>),
}

/// The head of a list, where it is an atom.
pub open spec fn sexp_head(form: Sexp) -> Option<Seq<char>> {
    match form {
        Sexp::List(items) => if items.len() > 0 {
            match items[0] {
                Sexp::Atom(head) => Some(head@),
                _ => None,
            }
        } else {
            None
        },
        _ => None,
    }
}

/// The first item behind the head, where it is an atom.
pub open spec fn sexp_name(form: Sexp) -> Option<Seq<char>> {
    match form {
        Sexp::List(items) => if items.len() > 1 {
            match items[1] {
                Sexp::Atom(name) => Some(name@),
                _ => None,
            }
        } else {
            None
        },
        _ => None,
    }
}

/// One declaration: its kind and its name. A record and an event may share a spelling.
pub struct Decl {
    pub kind: Kind,
    pub name: String,
}

/// What a declaration is known by.
pub type DeclView = (Kind, Seq<char>);

pub open spec fn decl_view(decl: Decl) -> DeclView {
    (decl.kind, decl.name@)
}

/// The declarations of a list.
pub open spec fn decl_set(list: Seq<Decl>) -> Set<DeclView> {
    Set::new(|d: DeclView| exists|i: int| 0 <= i < list.len() && decl_view(#[trigger] list[i]) == d)
}

/// Whether the list form itself, apart from what is inside its items, names `d`.
pub open spec fn names_here(form: Sexp, d: DeclView) -> bool {
    match form {
        Sexp::List(items) => match sexp_head(form) {
            Some(head) => {
                ||| head == "fn"@ && d.0 == Kind::Function && sexp_name(form) == Some(d.1)
                ||| (head == "Record"@ || head == "new"@) && d.0 == Kind::Record && sexp_name(form)
                    == Some(d.1)
                ||| (head == "Enum"@ || head == "variant"@) && d.0 == Kind::Enum && sexp_name(form)
                    == Some(d.1)
                ||| head == "slice"@ && d.0 == Kind::Event && sexp_name(form) == Some(d.1)
                ||| head == "events"@ && d.0 == Kind::Event && lists_atom(items@.skip(1), d.1)
            },
            None => false,
        },
        _ => false,
    }
}

/// Whether a list of nodes holds an atom of that spelling.
pub open spec fn lists_atom(items: Seq<Sexp>, name: Seq<char>) -> bool {
    exists|i: int| 0 <= i < items.len() && is_atom(#[trigger] items[i], name)
}

pub open spec fn is_atom(form: Sexp, name: Seq<char>) -> bool {
    match form {
        Sexp::Atom(text) => text@ == name,
        _ => false,
    }
}

/// Whether a form, or anything inside it, names `d`.
pub open spec fn names(form: Sexp, d: DeclView) -> bool
    decreases form,
{
    names_here(form, d) || match form {
        Sexp::List(items) => any_names(items@, d),
        _ => false,
    }
}

pub open spec fn any_names(items: Seq<Sexp>, d: DeclView) -> bool
    decreases items,
{
    if items.len() == 0 {
        false
    } else {
        any_names(items.drop_last(), d) || names(items.last(), d)
    }
}

/// The declarations a form names.
pub open spec fn references(form: Sexp) -> Set<DeclView> {
    Set::new(|d: DeclView| names(form, d))
}

impl Sexp {
    /// The head of a list, where it is an atom.
    pub fn head(&self) -> (r: Option<&str>)
        ensures
            match r {
                Some(head) => sexp_head(*self) == Some(head@),
                None => sexp_head(*self) is None,
            },
    {
        match self {
            Sexp::List(items) => {
                if items.len() > 0 {
                    match &items[0] {
                        Sexp::Atom(head) => Some(head.as_str()),
                        _ => None,
                    }
                } else {
                    None
                }
            },
            _ => None,
        }
    }

    /// Whether the head of this list is `word`.
    pub fn headed(&self, word: &str) -> (r: bool)
        ensures
            r == (sexp_head(*self) == Some(word@)),
    {
        match self.head() {
            Some(head) => same(head, word),
            None => false,
        }
    }

    /// The first item behind the head, where it is an atom.
    pub fn name(&self) -> (r: Option<&str>)
        ensures
            match r {
                Some(name) => sexp_name(*self) == Some(name@),
                None => sexp_name(*self) is None,
            },
    {
        match self {
            Sexp::List(items) => {
                if items.len() > 1 {
                    match &items[1] {
                        Sexp::Atom(name) => Some(name.as_str()),
                        _ => None,
                    }
                } else {
                    None
                }
            },
            _ => None,
        }
    }
}

/// Whether a list holds a declaration.
pub fn holds_decl(list: &Vec<Decl>, kind: Kind, name: &str) -> (r: bool)
    ensures
        r == decl_set(list@).contains((kind, name@)),
{
    let mut i: usize = 0;
    while i < list.len()
        invariant
            i <= list.len(),
            forall|k: int| 0 <= k < i ==> decl_view(#[trigger] list@[k]) != (kind, name@),
        decreases list.len() - i,
    {
        if list[i].kind == kind && same(&list[i].name, name) {
            assert(decl_view(list@[i as int]) == (kind, name@));
            return true;
        }
        i += 1;
    }
    false
}

proof fn lemma_decl_set_push(list: Seq<Decl>, decl: Decl)
    ensures
        decl_set(list.push(decl)) == decl_set(list).insert(decl_view(decl)),
{
    let grown = list.push(decl);
    assert forall|d: DeclView| decl_set(grown).contains(d) == decl_set(list).insert(
        decl_view(decl),
    ).contains(d) by {
        if decl_set(list).contains(d) {
            let i = choose|i: int| 0 <= i < list.len() && decl_view(#[trigger] list[i]) == d;
            assert(decl_view(grown[i]) == d);
        }
        if d == decl_view(decl) {
            assert(decl_view(grown[list.len() as int]) == d);
        }
        if decl_set(grown).contains(d) {
            let i = choose|i: int| 0 <= i < grown.len() && decl_view(#[trigger] grown[i]) == d;
            if i < list.len() {
                assert(decl_view(list[i]) == d);
            }
        }
    }
    assert(decl_set(grown) =~= decl_set(list).insert(decl_view(decl)));
}

/// Puts a declaration into a list that holds each one once.
pub fn add_decl(list: &mut Vec<Decl>, kind: Kind, name: &str)
    ensures
        decl_set(final(list)@) == decl_set(old(list)@).insert((kind, name@)),
{
    if !holds_decl(list, kind, name) {
        let decl = Decl { kind, name: name.to_owned() };
        proof {
            lemma_decl_set_push(list@, decl);
        }
        list.push(decl);
    } else {
        assert(decl_set(list@) =~= decl_set(list@).insert((kind, name@)));
    }
}

/// What a form itself, apart from what is inside its items, names.
pub open spec fn here(form: Sexp) -> Set<DeclView> {
    Set::new(|d: DeclView| names_here(form, d))
}

fn add_here(form: &Sexp, out: &mut Vec<Decl>)
    ensures
        decl_set(final(out)@) == decl_set(old(out)@).union(here(*form)),
{
    let ghost was = decl_set(out@);
    proof {
        reveal_strlit("fn");
        reveal_strlit("Record");
        reveal_strlit("new");
        reveal_strlit("Enum");
        reveal_strlit("variant");
        reveal_strlit("slice");
        reveal_strlit("events");
        assert("fn"@.len() == 2 && "new"@.len() == 3 && "Enum"@.len() == 4 && "slice"@.len() == 5);
        assert("Record"@.len() == 6 && "events"@.len() == 6 && "variant"@.len() == 7);
        assert("Record"@[0] == 'R' && "events"@[0] == 'e');
    }
    let kind: Option<Kind> = if form.headed("fn") {
        Some(Kind::Function)
    } else if form.headed("Record") || form.headed("new") {
        Some(Kind::Record)
    } else if form.headed("Enum") || form.headed("variant") {
        Some(Kind::Enum)
    } else if form.headed("slice") {
        Some(Kind::Event)
    } else {
        None
    };
    match kind {
        Some(kind) => {
            match form.name() {
                Some(name) => {
                    add_decl(out, kind, name);
                    assert(here(*form) =~= Set::empty().insert((kind, name@)));
                    assert(was.insert((kind, name@)) =~= was.union(here(*form)));
                },
                None => {
                    assert(here(*form) =~= Set::empty());
                    assert(was =~= was.union(here(*form)));
                },
            }
        },
        None => {
            if form.headed("events") {
                match form {
                    Sexp::List(items) => {
                        let mut i: usize = 1;
                        let ghost mut seen: Set<DeclView> = Set::empty();
                        assert(was.union(seen) =~= was);
                        while i < items.len()
                            invariant
                                1 <= i <= items.len(),
                                decl_set(out@) == was.union(seen),
                                forall|d: DeclView|
                                    #![auto]
                                    seen.contains(d) == (d.0 == Kind::Event && lists_atom(
                                        items@.subrange(1, i as int),
                                        d.1,
                                    )),
                            decreases items.len() - i,
                        {
                            let ghost before = seen;
                            let ghost part = items@.subrange(1, i as int);
                            let ghost more = items@.subrange(1, i as int + 1);
                            assert(more =~= part.push(items@[i as int]));
                            proof {
                                assert forall|name: Seq<char>| #[trigger] lists_atom(more, name) == (lists_atom(
                                    part,
                                    name,
                                ) || is_atom(items@[i as int], name)) by {
                                    if lists_atom(part, name) {
                                        let k = choose|k: int| 0 <= k < part.len() && is_atom(#[trigger] part[k], name);
                                        assert(is_atom(more[k], name));
                                    }
                                    if is_atom(items@[i as int], name) {
                                        assert(is_atom(more[part.len() as int], name));
                                    }
                                    if lists_atom(more, name) {
                                        let k = choose|k: int| 0 <= k < more.len() && is_atom(#[trigger] more[k], name);
                                        if k < part.len() {
                                            assert(is_atom(part[k], name));
                                        }
                                    }
                                }
                            }
                            match &items[i] {
                                Sexp::Atom(path) => {
                                    add_decl(out, Kind::Event, path);
                                    proof {
                                        seen = seen.insert((Kind::Event, path@));
                                        assert(was.union(before).insert((Kind::Event, path@)) =~= was.union(seen));
                                    }
                                },
                                _ => {},
                            }
                            i += 1;
                        }
                        assert(items@.subrange(1, items@.len() as int) =~= items@.skip(1));
                        assert(here(*form) =~= seen);
                    },
                    _ => {},
                }
            } else {
                assert(here(*form) =~= Set::empty());
                assert(was =~= was.union(here(*form)));
            }
        },
    }
}

/// Adds the declarations a form names: the functions it calls, the events it selects or
/// folds over, the records and enums it types or builds a value with. A command that is
/// invoked is not among them: a replay reaches it through the journal, by its name and
/// arguments.
pub fn references_of(form: &Sexp, out: &mut Vec<Decl>)
    ensures
        decl_set(final(out)@) == decl_set(old(out)@).union(references(*form)),
    decreases *form,
{
    let ghost was = decl_set(out@);
    add_here(form, out);
    match form {
        Sexp::List(items) => {
            let mut i: usize = 0;
            let ghost start = decl_set(out@);
            let ghost mut seen: Set<DeclView> = Set::empty();
            assert(start.union(seen) =~= start);
            assert(items@.take(0) =~= Seq::<Sexp>::empty());
            while i < items.len()
                invariant
                    i <= items.len(),
                    decreases_to!(*form => items@),
                    decl_set(out@) == start.union(seen),
                    forall|d: DeclView| #![auto] seen.contains(d) == any_names(items@.take(i as int), d),
                decreases items.len() - i,
            {
                let ghost before = seen;
                references_of(&items[i], out);
                proof {
                    seen = seen.union(references(items@[i as int]));
                    assert(items@.take(i as int + 1).drop_last() =~= items@.take(i as int));
                    assert(start.union(before).union(references(items@[i as int])) =~= start.union(seen));
                }
                i += 1;
            }
            assert(items@.take(items@.len() as int) =~= items@);
            assert(references(*form) =~= here(*form).union(seen));
            assert(was.union(here(*form)).union(seen) =~= was.union(references(*form)));
        },
        _ => {
            assert(references(*form) =~= here(*form));
        },
    }
}

/// Whether a form, or anything inside it, is a list headed by `word`.
pub open spec fn uses(form: Sexp, word: Seq<char>) -> bool
    decreases form,
{
    sexp_head(form) == Some(word) || match form {
        Sexp::List(items) => any_uses(items@, word),
        _ => false,
    }
}

pub open spec fn any_uses(items: Seq<Sexp>, word: Seq<char>) -> bool
    decreases items,
{
    if items.len() == 0 {
        false
    } else {
        any_uses(items.drop_last(), word) || uses(items.last(), word)
    }
}

/// Whether a form, or anything inside it, is a list headed by `word`.
pub fn any_node(form: &Sexp, word: &str) -> (r: bool)
    ensures
        r == uses(*form, word@),
    decreases *form,
{
    if form.headed(word) {
        return true;
    }
    match form {
        Sexp::List(items) => {
            let mut i: usize = 0;
            assert(items@.take(0) =~= Seq::<Sexp>::empty());
            while i < items.len()
                invariant
                    i <= items.len(),
                    decreases_to!(*form => items@),
                    *form == Sexp::List(*items),
                    !any_uses(items@.take(i as int), word@),
                decreases items.len() - i,
            {
                assert(items@.take(i as int + 1).drop_last() =~= items@.take(i as int));
                if any_node(&items[i], word) {
                    proof {
                        lemma_any_uses(items@, i as int, word@);
                    }
                    return true;
                }
                i += 1;
            }
            assert(items@.take(items@.len() as int) =~= items@);
            false
        },
        _ => false,
    }
}

proof fn lemma_any_uses(items: Seq<Sexp>, at: int, word: Seq<char>)
    requires
        0 <= at < items.len(),
        uses(items[at], word),
    ensures
        any_uses(items, word),
    decreases items.len(),
{
    if at < items.len() - 1 {
        lemma_any_uses(items.drop_last(), at, word);
    }
}

/// Whether a form reveals anything, which is the one thing a replay needs a key for.
pub fn reveals(form: &Sexp) -> (r: bool)
    ensures
        r == uses(*form, "reveal"@),
{
    any_node(form, "reveal")
}


// ---------------------------------------------------------------------------
// Entries, and what reaches a change
// ---------------------------------------------------------------------------

/// One declaration of a candidate program.
pub struct Entry {
    pub kind: Kind,
    /// The declared name, or the path of an event.
    pub name: String,
    /// What the declaration does, as a hash.
    pub hash: String,
    /// What of it is visible from outside the program, as a hash. Absent for a
    /// declaration that nothing outside can name.
    pub signature_hash: Option<String>,
    pub form: Sexp,
    /// The form on one line, which reads back.
    pub packed: String,
    /// What of it is visible from outside, on one line.
    pub signature: Option<String>,
    /// The form laid out over lines.
    pub expanded: String,
    /// The file it is declared in, where that is known.
    pub module: Option<String>,
}

pub open spec fn entry_decl(entry: Entry) -> DeclView {
    (entry.kind, entry.name@)
}

/// From a declaration to those that name it.
pub open spec fn named_by(entries: Seq<Entry>) -> spec_fn(DeclView) -> Set<DeclView> {
    |d: DeclView|
        Set::new(
            |e: DeclView|
                exists|i: int|
                    0 <= i < entries.len() && entry_decl(#[trigger] entries[i]) == e && names(
                        entries[i].form,
                        d,
                    ),
        )
}

/// Every declaration that reaches a changed one, the changed ones among them.
pub open spec fn tainted_by(entries: Seq<Entry>, changed: Set<DeclView>) -> Set<DeclView> {
    if changed =~= Set::empty() {
        changed
    } else {
        reached(changed, named_by(entries))
    }
}

/// Whether two lists of declarations share one.
fn meets(left: &Vec<Decl>, right: &Vec<Decl>) -> (r: bool)
    ensures
        r == exists|d: DeclView| decl_set(left@).contains(d) && decl_set(right@).contains(d),
{
    let mut i: usize = 0;
    while i < left.len()
        invariant
            i <= left.len(),
            forall|k: int| 0 <= k < i ==> !decl_set(right@).contains(decl_view(#[trigger] left@[k])),
        decreases left.len() - i,
    {
        if holds_decl(right, left[i].kind, &left[i].name) {
            assert(decl_set(left@).contains(decl_view(left@[i as int])));
            assert(decl_set(right@).contains(decl_view(left@[i as int])));
            return true;
        }
        i += 1;
    }
    assert forall|d: DeclView| decl_set(left@).contains(d) implies !decl_set(right@).contains(d) by {
        let k = choose|k: int| 0 <= k < left@.len() && decl_view(#[trigger] left@[k]) == d;
    }
    false
}

/// Every declaration that reaches a changed one, the changed ones among them.
///
/// A fixpoint over the reference relation. It ends because each round can only add
/// entries, and there are finitely many.
pub fn declarations_reaching(entries: &Vec<Entry>, changed: Vec<Decl>) -> (r: Vec<Decl>)
    ensures
        decl_set(r@) == tainted_by(entries@, decl_set(changed@)),
{
    let ghost start = decl_set(changed@);
    if changed.len() == 0 {
        assert(start =~= Set::empty());
        return changed;
    }
    proof {
        assert(start.contains(decl_view(changed@[0])));
        assert(!(start =~= Set::empty()));
    }
    let mut references: Vec<Vec<Decl>> = Vec::new();
    let mut i: usize = 0;
    while i < entries.len()
        invariant
            i <= entries.len(),
            references.len() == i,
            forall|k: int|
                0 <= k < i ==> decl_set((#[trigger] references@[k])@) == crate::digest::references(
                    entries@[k].form,
                ),
        decreases entries.len() - i,
    {
        let mut out: Vec<Decl> = Vec::new();
        references_of(&entries[i].form, &mut out);
        assert(decl_set(out@) =~= crate::digest::references(entries@[i as int].form));
        references.push(out);
        i += 1;
    }
    let mut tainted: Vec<Decl> = changed;
    let ghost next = named_by(entries@);
    let ghost decls = entries@.map_values(|e: Entry| entry_decl(e));
    proof {
        assert forall|d: DeclView| start.contains(d) implies reached(start, next).contains(d) by {
            lemma_reached_start(start, next, d);
        }
    }
    loop
        invariant
            references.len() == entries.len(),
            next == named_by(entries@),
            decls == entries@.map_values(|e: Entry| entry_decl(e)),
            forall|k: int|
                0 <= k < entries.len() ==> decl_set((#[trigger] references@[k])@)
                    == crate::digest::references(entries@[k].form),
            start.subset_of(decl_set(tainted@)),
            decl_set(tainted@).subset_of(reached(start, next)),
            !(start =~= Set::empty()),
            start == decl_set(changed@),
        decreases outside(decls, decl_set(tainted@)),
    {
        let mut grew = false;
        let mut i: usize = 0;
        let ghost round = decl_set(tainted@);
        while i < entries.len()
            invariant
                i <= entries.len(),
                references.len() == entries.len(),
                next == named_by(entries@),
            decls == entries@.map_values(|e: Entry| entry_decl(e)),
                forall|k: int|
                    0 <= k < entries.len() ==> decl_set((#[trigger] references@[k])@)
                        == crate::digest::references(entries@[k].form),
                start.subset_of(decl_set(tainted@)),
                decl_set(tainted@).subset_of(reached(start, next)),
                round.subset_of(decl_set(tainted@)),
                grew ==> outside(decls, decl_set(tainted@)) < outside(decls, round),
                !grew ==> decl_set(tainted@) == round,
                !grew ==> forall|k: int|
                    0 <= k < i && !round.contains(entry_decl(#[trigger] entries@[k])) ==> forall|d: DeclView|
                        round.contains(d) ==> !names(entries@[k].form, d),
            decreases entries.len() - i,
        {
            let entry = &entries[i];
            if !holds_decl(&tainted, entry.kind, &entry.name) && meets(&references[i], &tainted) {
                let ghost was = decl_set(tainted@);
                proof {
                    let d = choose|d: DeclView|
                        decl_set(references@[i as int]@).contains(d) && was.contains(d);
                    assert(names(entries@[i as int].form, d));
                    assert(entry_decl(entries@[i as int]) == (entry.kind, entry.name@));
                    assert(next(d).contains((entry.kind, entry.name@)));
                    lemma_reached_step(start, next, d, (entry.kind, entry.name@));
                    lemma_outside_insert(decls, was, i as int);
                    lemma_outside_shrinks(decls, round, was);
                }
                add_decl(&mut tainted, entry.kind, &entry.name);
                grew = true;
            } else if !grew {
                assert(references@[i as int]@ == references@[i as int]@);
                assert forall|d: DeclView|
                    !round.contains(entry_decl(entries@[i as int])) && round.contains(d) implies !names(
                    entries@[i as int].form,
                    d,
                ) by {
                    if names(entries@[i as int].form, d) {
                        assert(decl_set(references@[i as int]@).contains(d));
                    }
                }
            }
            i += 1;
        }
        if !grew {
            proof {
                let all = decl_set(tainted@);
                assert forall|a: DeclView, b: DeclView| all.contains(a) && #[trigger] next(a).contains(b) implies all.contains(b) by {
                    let k = choose|k: int|
                        0 <= k < entries@.len() && entry_decl(#[trigger] entries@[k]) == b && names(
                            entries@[k].form,
                            a,
                        );
                    assert(entry_decl(entries@[k]) == b);
                }
                lemma_reached_closed(start, next, all);
                assert(all =~= reached(start, next));
            }
            return tainted;
        }
    }
}

/// What changed is reached, whatever the entries name.
pub proof fn law_changed_is_tainted(entries: Seq<Entry>, changed: Set<DeclView>)
    ensures
        changed.subset_of(tainted_by(entries, changed)),
{
    assert forall|d: DeclView| changed.contains(d) implies tainted_by(entries, changed).contains(d) by {
        lemma_reached_start(changed, named_by(entries), d);
    }
}

/// A declaration that names a tainted one is tainted.
pub proof fn law_taint_spreads(entries: Seq<Entry>, changed: Set<DeclView>, at: int, named: DeclView)
    requires
        0 <= at < entries.len(),
        tainted_by(entries, changed).contains(named),
        names(entries[at].form, named),
    ensures
        tainted_by(entries, changed).contains(entry_decl(entries[at])),
{
    let next = named_by(entries);
    assert(next(named).contains(entry_decl(entries[at])));
    lemma_reached_step(changed, next, named, entry_decl(entries[at]));
}

/// Where nothing changed, nothing is tainted.
pub proof fn law_no_change_taints_nothing(entries: Seq<Entry>)
    ensures
        tainted_by(entries, Set::empty()) == Set::<DeclView>::empty(),
{
}

} // verus!
