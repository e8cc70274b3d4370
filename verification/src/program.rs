//! The declarations of a program that leave no digest entry of their own: guards,
//! refusals and constants are spliced into what names them, so a plan reads them here to
//! say why a group of declarations changed together.

use vstd::prelude::*;

use crate::graph::{
    lemma_outside_insert, lemma_outside_shrinks, lemma_reached_closed, lemma_reached_start,
    lemma_reached_step, outside, reached,
};
use crate::text::{
    any_contains, any_has, holds, same, signed_decimal, signed_number, trimmed, views,
};

verus! {

/// A named proposition, and the guards it names in turn.
pub struct Guard {
    pub name: String,
    pub calls: Vec<String>,
}

/// A command, and the guards it names.
pub struct Command {
    pub name: String,
    pub calls: Vec<String>,
}

/// A piece of a refusal's message.
pub enum MessagePart {
    Text(String),
    /// A hole, by the number of the parameter that fills it.
    Param(usize),
}

/// A named refusal: the code a caller branches on, and its message.
pub struct RefusalDef {
    pub name: String,
    pub code: String,
    pub message: Vec<MessagePart>,
}

/// The value of a constant.
pub enum Literal {
    Bool(bool),
    Int(i64),
    Timestamp(i64),
    Decimal { units: i64, scale: u8 },
    Money { units: i64, scale: u8 },
    Str(String),
    Uuid(String),
    /// A number written into a JSON body, as it was written.
    JsonNum(String),
    Enum { ty: String, variant: String },
    /// A container, an absence, a rounding mode: nothing distinctive enough to look for.
    Other,
}

/// A constant.
pub struct ConstDef {
    pub name: String,
    pub value: Literal,
}

/// What a plan reads of a program.
pub struct Program {
    pub guards: Vec<Guard>,
    pub commands: Vec<Command>,
    pub refusals: Vec<RefusalDef>,
    pub consts: Vec<ConstDef>,
}

// ---------------------------------------------------------------------------
// Guards
// ---------------------------------------------------------------------------

/// The names of a list.
pub open spec fn name_set(list: Seq<Seq<char>>) -> Set<Seq<char>> {
    Set::new(|name: Seq<char>| list.contains(name))
}

/// The first guard of that name.
pub open spec fn guard_named(guards: Seq<Guard>, name: Seq<char>) -> Option<Guard>
    decreases guards.len(),
{
    if guards.len() == 0 {
        None
    } else if guards[0].name@ == name {
        Some(guards[0])
    } else {
        guard_named(guards.skip(1), name)
    }
}

/// From the name of a guard to the guards it names.
pub open spec fn calls_of(guards: Seq<Guard>) -> spec_fn(Seq<char>) -> Set<Seq<char>> {
    |name: Seq<char>|
        match guard_named(guards, name) {
            Some(guard) => name_set(views(guard.calls@)),
            None => Set::empty(),
        }
}

/// The guards a command names, directly or through another guard.
pub open spec fn guards_of(program: Program, command: Command) -> Set<Seq<char>> {
    reached(name_set(views(command.calls@)), calls_of(program.guards@))
}

/// Every name that some guard calls.
spec fn called(guards: Seq<Guard>) -> Seq<Seq<char>>
    decreases guards.len(),
{
    if guards.len() == 0 {
        Seq::empty()
    } else {
        called(guards.drop_last()) + views(guards.last().calls@)
    }
}

proof fn lemma_called(guards: Seq<Guard>, at: int, name: Seq<char>)
    requires
        0 <= at < guards.len(),
        views(guards[at].calls@).contains(name),
    ensures
        called(guards).contains(name),
    decreases guards.len(),
{
    let own = views(guards.last().calls@);
    let rest = called(guards.drop_last());
    if at == guards.len() - 1 {
        let k = choose|k: int| 0 <= k < own.len() && own[k] == name;
        assert((rest + own)[rest.len() + k] == name);
    } else {
        lemma_called(guards.drop_last(), at, name);
        let k = choose|k: int| 0 <= k < rest.len() && rest[k] == name;
        assert((rest + own)[k] == name);
    }
}

impl Program {
    /// Where the first guard of that name stands.
    pub fn guard(&self, name: &str) -> (r: Option<usize>)
        ensures
            match r {
                Some(i) => i < self.guards.len() && guard_named(self.guards@, name@) == Some(
                    self.guards@[i as int],
                ),
                None => guard_named(self.guards@, name@) is None,
            },
    {
        let mut i: usize = 0;
        assert(self.guards@.skip(0) =~= self.guards@);
        while i < self.guards.len()
            invariant
                i <= self.guards.len(),
                guard_named(self.guards@.skip(i as int), name@) == guard_named(self.guards@, name@),
            decreases self.guards.len() - i,
        {
            if same(&self.guards[i].name, name) {
                assert(self.guards@.skip(i as int)[0] == self.guards@[i as int]);
                return Some(i);
            }
            assert(self.guards@.skip(i as int).skip(1) =~= self.guards@.skip(i as int + 1));
            i += 1;
        }
        None
    }
}

proof fn lemma_name_set_push(list: Seq<String>, name: String)
    ensures
        name_set(views(list.push(name))) == name_set(views(list)).insert(name@),
{
    let grown = views(list.push(name));
    assert(grown =~= views(list).push(name@));
    assert forall|n: Seq<char>| name_set(grown).contains(n) == name_set(views(list)).insert(name@).contains(n) by {
        if views(list).contains(n) {
            let k = choose|k: int| 0 <= k < views(list).len() && views(list)[k] == n;
            assert(grown[k] == n);
        }
        if n == name@ {
            assert(grown[list.len() as int] == n);
        }
    }
    assert(name_set(grown) =~= name_set(views(list)).insert(name@));
}

/// Whether a command names a guard, directly or through another guard.
pub fn reaches(program: &Program, command: &Command, guard: &str) -> (r: bool)
    ensures
        r == guards_of(*program, *command).contains(guard@),
{
    let mut found: Vec<String> = Vec::new();
    let ghost start = name_set(views(command.calls@));
    let ghost next = calls_of(program.guards@);
    let ghost universe = views(command.calls@) + called(program.guards@);
    let mut i: usize = 0;
    assert(name_set(views(found@)) =~= Set::empty());
    assert forall|n: Seq<char>| start.contains(n) implies #[trigger] universe.contains(n) by {
        let k = choose|k: int| 0 <= k < views(command.calls@).len() && views(command.calls@)[k] == n;
        assert(universe[k] == n);
    }
    while i < command.calls.len()
        invariant
            i <= command.calls.len(),
            start == name_set(views(command.calls@)),
            universe == views(command.calls@) + called(program.guards@),
            name_set(views(found@)).subset_of(start),
            forall|k: int| 0 <= k < i ==> name_set(views(found@)).contains(#[trigger] views(command.calls@)[k]),
            forall|n: Seq<char>| start.contains(n) ==> #[trigger] universe.contains(n),
        decreases command.calls.len() - i,
    {
        assert(views(command.calls@)[i as int] == command.calls@[i as int]@);
        if !holds(&found, &command.calls[i]) {
            let name = command.calls[i].clone();
            proof {
                lemma_name_set_push(found@, name);
            }
            found.push(name);
        }
        i += 1;
    }
    proof {
        assert(name_set(views(found@)) =~= start);
        assert forall|n: Seq<char>| start.contains(n) implies reached(start, next).contains(n) by {
            lemma_reached_start(start, next, n);
        }
    }
    let mut at: usize = 0;
    while at < found.len()
        invariant
            at <= found.len(),
            start == name_set(views(command.calls@)),
            next == calls_of(program.guards@),
            universe == views(command.calls@) + called(program.guards@),
            start.subset_of(name_set(views(found@))),
            name_set(views(found@)).subset_of(reached(start, next)),
            forall|n: Seq<char>| name_set(views(found@)).contains(n) ==> #[trigger] universe.contains(n),
            forall|k: int, n: Seq<char>|
                0 <= k < at && next(#[trigger] views(found@)[k]).contains(n) ==> #[trigger] name_set(
                    views(found@),
                ).contains(n),
        decreases outside(universe, name_set(views(found@))), found.len() - at,
    {
        let ghost before = name_set(views(found@));
        let ghost standing = found@;
        let ghost current = views(found@)[at as int];
        assert(before.contains(current));
        let place = program.guard(&found[at]);
        match place {
            Some(g) => {
                let calls = &program.guards[g].calls;
                assert(next(current) == name_set(views(calls@)));
                let mut i: usize = 0;
                while i < calls.len()
                    invariant
                        i <= calls.len(),
                        g < program.guards.len(),
                        calls@ == program.guards@[g as int].calls@,
                        at < found.len(),
                        start == name_set(views(command.calls@)),
                        next == calls_of(program.guards@),
                        universe == views(command.calls@) + called(program.guards@),
                        start.subset_of(name_set(views(found@))),
                        before.subset_of(name_set(views(found@))),
                        before.contains(current),
                        before == name_set(views(standing)),
                        next(current) == name_set(views(calls@)),
                        before.subset_of(reached(start, next)),
                        views(found@)[at as int] == current,
                        name_set(views(found@)).subset_of(reached(start, next)),
                        forall|n: Seq<char>|
                            name_set(views(found@)).contains(n) ==> #[trigger] universe.contains(n),
                        forall|k: int, n: Seq<char>|
                            0 <= k < at && next(#[trigger] views(found@)[k]).contains(n)
                                ==> #[trigger] name_set(views(found@)).contains(n),
                        forall|k: int|
                            0 <= k < i ==> name_set(views(found@)).contains(#[trigger] views(calls@)[k]),
                        outside(universe, name_set(views(found@))) < outside(universe, before)
                            || found@ == standing,
                    decreases calls.len() - i,
                {
                    assert(views(calls@)[i as int] == calls@[i as int]@);
                    if !holds(&found, &calls[i]) {
                        let name = calls[i].clone();
                        let ghost was = name_set(views(found@));
                        let ghost old_views = views(found@);
                        proof {
                            lemma_name_set_push(found@, name);
                            assert(views(calls@).contains(name@));
                            lemma_called(program.guards@, g as int, name@);
                            lemma_reached_step(start, next, current, name@);
                            let rest = called(program.guards@);
                            let k = choose|k: int| 0 <= k < rest.len() && rest[k] == name@;
                            let at_u = views(command.calls@).len() + k;
                            assert(universe[at_u] == name@);
                            lemma_outside_insert(universe, was, at_u);
                            lemma_outside_shrinks(universe, before, was);
                        }
                        found.push(name);
                        assert(views(found@) =~= old_views.push(name@));
                    }
                    i += 1;
                }
                assert forall|n: Seq<char>| next(current).contains(n) implies name_set(views(found@)).contains(n) by {
                    let k = choose|k: int| 0 <= k < views(calls@).len() && views(calls@)[k] == n;
                    assert(name_set(views(found@)).contains(views(calls@)[k]));
                }
            },
            None => {},
        }
        at += 1;
    }
    proof {
        let all = name_set(views(found@));
        assert forall|a: Seq<char>, b: Seq<char>| all.contains(a) && #[trigger] next(a).contains(b) implies all.contains(b) by {
            let k = choose|k: int| 0 <= k < views(found@).len() && views(found@)[k] == a;
            assert(next(views(found@)[k]).contains(b));
        }
        lemma_reached_closed(start, next, all);
        assert(all =~= reached(start, next));
    }
    holds(&found, guard)
}


// ---------------------------------------------------------------------------
// What an edit that several declarations share most likely came from
// ---------------------------------------------------------------------------

/// Whether a piece of a message is text that the edit brought in.
pub open spec fn part_is_new(part: MessagePart, removed: Seq<Seq<char>>, added: Seq<Seq<char>>) -> bool {
    match part {
        MessagePart::Text(text) => {
            &&& trimmed(text@).len() > 0
            &&& any_has(added, text@)
            &&& !any_has(removed, text@)
        },
        MessagePart::Param(_) => false,
    }
}

/// Whether the refusal's own message text appears on the added side alone.
pub open spec fn message_is_new(def: RefusalDef, removed: Seq<Seq<char>>, added: Seq<Seq<char>>) -> bool {
    exists|i: int| 0 <= i < def.message.len() && part_is_new(#[trigger] def.message[i], removed, added)
}

/// How a refusal's code stands in a packed form.
pub open spec fn code_form(code: Seq<char>) -> Seq<char> {
    "(str \""@ + code + "\")"@
}

/// Whether an edit looks like a rewording of this refusal: its code stands on both
/// sides, and its message on the added side alone.
pub open spec fn refusal_fits(def: RefusalDef, removed: Seq<Seq<char>>, added: Seq<Seq<char>>) -> bool {
    &&& any_has(removed, code_form(def.code@))
    &&& any_has(added, code_form(def.code@))
    &&& message_is_new(def, removed, added)
}

/// The text a literal puts into a packed form, where it is distinctive enough to look
/// for.
pub open spec fn literal_view(literal: Literal) -> Option<Seq<char>> {
    match literal {
        Literal::Bool(value) => Some(if value { "true"@ } else { "false"@ }),
        Literal::Int(value) => Some(signed_decimal(value as int)),
        Literal::Timestamp(value) => Some(signed_decimal(value as int)),
        Literal::Decimal { units, .. } => Some(signed_decimal(units as int)),
        Literal::Money { units, .. } => Some(signed_decimal(units as int)),
        Literal::Str(text) => Some(text@),
        Literal::Uuid(text) => Some(text@),
        Literal::JsonNum(text) => Some(text@),
        Literal::Enum { variant, .. } => Some(variant@),
        Literal::Other => None,
    }
}

/// Whether an edit looks like a new value of this constant: its text stands on the added
/// side alone.
pub open spec fn const_fits(def: ConstDef, removed: Seq<Seq<char>>, added: Seq<Seq<char>>) -> bool {
    match literal_view(def.value) {
        Some(text) => any_has(added, text) && !any_has(removed, text),
        None => false,
    }
}

/// The refusals an edit fits.
pub open spec fn fitting_refusals(
    defs: Seq<RefusalDef>,
    removed: Seq<Seq<char>>,
    added: Seq<Seq<char>>,
) -> Seq<RefusalDef>
    decreases defs.len(),
{
    if defs.len() == 0 {
        Seq::empty()
    } else if refusal_fits(defs.last(), removed, added) {
        fitting_refusals(defs.drop_last(), removed, added).push(defs.last())
    } else {
        fitting_refusals(defs.drop_last(), removed, added)
    }
}

/// The constants an edit fits.
pub open spec fn fitting_consts(
    defs: Seq<ConstDef>,
    removed: Seq<Seq<char>>,
    added: Seq<Seq<char>>,
) -> Seq<ConstDef>
    decreases defs.len(),
{
    if defs.len() == 0 {
        Seq::empty()
    } else if const_fits(defs.last(), removed, added) {
        fitting_consts(defs.drop_last(), removed, added).push(defs.last())
    } else {
        fitting_consts(defs.drop_last(), removed, added)
    }
}

/// The one spliced declaration that an edit fits: a refusal before a constant, and
/// nothing where more than one fits.
pub open spec fn inlined(program: Program, removed: Seq<Seq<char>>, added: Seq<Seq<char>>) -> Option<
    Seq<char>,
> {
    let refusals = fitting_refusals(program.refusals@, removed, added);
    let consts = fitting_consts(program.consts@, removed, added);
    if refusals.len() == 1 {
        Some("refusal "@ + refusals[0].name@)
    } else if refusals.len() > 1 {
        None
    } else if consts.len() == 1 {
        Some("const "@ + consts[0].name@)
    } else {
        None
    }
}

/// Whether the refusal's own message text appears on the added side alone, which
/// separates a reworded refusal from one that merely moved.
pub fn message_changed(def: &RefusalDef, removed: &Vec<String>, added: &Vec<String>) -> (r: bool)
    ensures
        r == message_is_new(*def, views(removed@), views(added@)),
{
    let mut i: usize = 0;
    while i < def.message.len()
        invariant
            i <= def.message.len(),
            forall|k: int|
                0 <= k < i ==> !part_is_new(#[trigger] def.message@[k], views(removed@), views(added@)),
        decreases def.message.len() - i,
    {
        match &def.message[i] {
            MessagePart::Text(text) => {
                let bare = crate::text::trim(text);
                if !bare.as_str().is_empty() && any_contains(added, text) && !any_contains(removed, text) {
                    assert(part_is_new(def.message@[i as int], views(removed@), views(added@)));
                    return true;
                }
            },
            MessagePart::Param(_) => {},
        }
        i += 1;
    }
    false
}

/// The text a literal puts into a packed form, where it is distinctive enough to look
/// for.
pub fn literal_text(literal: &Literal) -> (r: Option<String>)
    ensures
        crate::text::option_view(r) == literal_view(*literal),
{
    match literal {
        Literal::Bool(value) => Some(if *value { "true".to_owned() } else { "false".to_owned() }),
        Literal::Int(value) => Some(signed_number(*value)),
        Literal::Timestamp(value) => Some(signed_number(*value)),
        Literal::Decimal { units, .. } => Some(signed_number(*units)),
        Literal::Money { units, .. } => Some(signed_number(*units)),
        Literal::Str(text) => Some(text.clone()),
        Literal::Uuid(text) => Some(text.clone()),
        Literal::JsonNum(text) => Some(text.clone()),
        Literal::Enum { variant, .. } => Some(variant.clone()),
        Literal::Other => None,
    }
}

fn fits_refusal(def: &RefusalDef, removed: &Vec<String>, added: &Vec<String>) -> (r: bool)
    ensures
        r == refusal_fits(*def, views(removed@), views(added@)),
{
    let mut needle = "(str \"".to_owned();
    needle.append(&def.code);
    needle.append("\")");
    any_contains(removed, &needle) && any_contains(added, &needle) && message_changed(
        def,
        removed,
        added,
    )
}

fn fits_const(def: &ConstDef, removed: &Vec<String>, added: &Vec<String>) -> (r: bool)
    ensures
        r == const_fits(*def, views(removed@), views(added@)),
{
    match literal_text(&def.value) {
        Some(text) => any_contains(added, &text) && !any_contains(removed, &text),
        None => false,
    }
}

/// The spliced declaration that a shared edit most likely came from.
///
/// A hint, and only ever a hint: nothing at the place where a constant is used names it,
/// so this goes by what the edit touched. Where more than one candidate fits, it names
/// none.
pub fn likely_inline(program: &Program, removed: &Vec<String>, added: &Vec<String>) -> (r: Option<
    String,
>)
    ensures
        crate::text::option_view(r) == inlined(*program, views(removed@), views(added@)),
{
    let ghost gone = views(removed@);
    let ghost new = views(added@);
    let mut first: Option<usize> = None;
    let mut several = false;
    let mut i: usize = 0;
    assert(program.refusals@.take(0) =~= Seq::<RefusalDef>::empty());
    while i < program.refusals.len()
        invariant
            i <= program.refusals.len(),
            gone == views(removed@),
            new == views(added@),
            ({
                let fit = fitting_refusals(program.refusals@.take(i as int), gone, new);
                &&& (fit.len() == 0) == (first is None)
                &&& several == (fit.len() > 1)
                &&& first matches Some(k) ==> k < program.refusals.len() && fit[0] == program.refusals@[k as int]
            }),
        decreases program.refusals.len() - i,
    {
        assert(program.refusals@.take(i as int + 1).drop_last() =~= program.refusals@.take(i as int));
        if fits_refusal(&program.refusals[i], removed, added) {
            if first.is_none() {
                first = Some(i);
            } else {
                several = true;
            }
        }
        i += 1;
    }
    assert(program.refusals@.take(i as int) =~= program.refusals@);
    if several {
        return None;
    }
    if let Some(k) = first {
        let mut out = "refusal ".to_owned();
        out.append(&program.refusals[k].name);
        return Some(out);
    }
    let mut first: Option<usize> = None;
    let mut several = false;
    let mut i: usize = 0;
    assert(program.consts@.take(0) =~= Seq::<ConstDef>::empty());
    while i < program.consts.len()
        invariant
            i <= program.consts.len(),
            gone == views(removed@),
            new == views(added@),
            ({
                let fit = fitting_consts(program.consts@.take(i as int), gone, new);
                &&& (fit.len() == 0) == (first is None)
                &&& several == (fit.len() > 1)
                &&& first matches Some(k) ==> k < program.consts.len() && fit[0] == program.consts@[k as int]
            }),
        decreases program.consts.len() - i,
    {
        assert(program.consts@.take(i as int + 1).drop_last() =~= program.consts@.take(i as int));
        if fits_const(&program.consts[i], removed, added) {
            if first.is_none() {
                first = Some(i);
            } else {
                several = true;
            }
        }
        i += 1;
    }
    assert(program.consts@.take(i as int) =~= program.consts@);
    if several {
        return None;
    }
    match first {
        Some(k) => {
            let mut out = "const ".to_owned();
            out.append(&program.consts[k].name);
            Some(out)
        },
        None => None,
    }
}

} // verus!
