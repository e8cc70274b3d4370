//! Plans: what a deploy changes, and what is given as the cause.

use vstd::prelude::*;

use crate::digest::Kind;
use crate::edit::{edit_between, edit_order, Edit};
use crate::graph::{lemma_reached_start, lemma_reached_step, within};
use crate::order::{lemma_sorted_contains, sorted};
use crate::plan::{
    attributed, callers_of, causes_of, change_edit, change_names, changes_with, edits_of, fitting_guards,
    group_cause, group_guard, guard_fits, CauseView, Change,
};
use crate::program::{calls_of, guards_of, inlined, name_set, Command, Guard, Program};
use crate::text::views;

verus! {

// ---------------------------------------------------------------------------
// Calls
// ---------------------------------------------------------------------------

/// Whether a list of texts holds one.
pub open spec fn lists(list: Seq<String>, text: Seq<char>) -> bool {
    exists|i: int| 0 <= i < list.len() && (#[trigger] list[i])@ == text
}

/// Whether the guard declared under a name calls another. Where a name is declared twice,
/// the first declaration counts.
pub open spec fn guard_calls(guards: Seq<Guard>, caller: Seq<char>, callee: Seq<char>) -> bool {
    exists|g: int|
        0 <= g < guards.len() && (#[trigger] guards[g]).name@ == caller && lists(guards[g].calls@, callee)
            && forall|h: int| 0 <= h < g ==> (#[trigger] guards[h]).name@ != caller
}

/// A chain of calls from a command: the command makes the first, and the guard that each is
/// of makes the next.
pub open spec fn call_chain(program: Program, command: Command, chain: Seq<Seq<char>>) -> bool {
    &&& chain.len() > 0
    &&& lists(command.calls@, chain[0])
    &&& forall|k: int|
        0 <= k < chain.len() - 1 ==> guard_calls(
            program.guards@,
            #[trigger] chain[k],
            chain[k + 1],
        )
}

/// Whether a command of that name comes to a guard by some chain of calls.
pub open spec fn comes_to(program: Program, command: Seq<char>, guard: Seq<char>) -> bool {
    exists|i: int, chain: Seq<Seq<char>>|
        0 <= i < program.commands.len() && (#[trigger] program.commands@[i]).name@ == command
            && #[trigger] call_chain(program, program.commands@[i], chain) && chain.last() == guard
}

proof fn lemma_lists(list: Seq<String>, text: Seq<char>)
    ensures
        name_set(views(list)).contains(text) == lists(list, text),
{
    if lists(list, text) {
        let i = choose|i: int| 0 <= i < list.len() && (#[trigger] list[i])@ == text;
        assert(views(list)[i] == text);
    }
    if views(list).contains(text) {
        let i = choose|i: int| 0 <= i < views(list).len() && views(list)[i] == text;
        assert(list[i]@ == text);
    }
}

proof fn lemma_guard_calls(guards: Seq<Guard>, caller: Seq<char>, callee: Seq<char>)
    ensures
        calls_of(guards)(caller).contains(callee) == guard_calls(guards, caller, callee),
    decreases guards.len(),
{
    if guards.len() > 0 {
        let rest = guards.skip(1);
        if guards[0].name@ == caller {
            lemma_lists(guards[0].calls@, callee);
            if guard_calls(guards, caller, callee) {
                let g = choose|g: int|
                    0 <= g < guards.len() && (#[trigger] guards[g]).name@ == caller && lists(
                        guards[g].calls@,
                        callee,
                    ) && forall|h: int| 0 <= h < g ==> (#[trigger] guards[h]).name@ != caller;
                assert(g == 0);
            }
        } else {
            lemma_guard_calls(rest, caller, callee);
            if guard_calls(guards, caller, callee) {
                let g = choose|g: int|
                    0 <= g < guards.len() && (#[trigger] guards[g]).name@ == caller && lists(
                        guards[g].calls@,
                        callee,
                    ) && forall|h: int| 0 <= h < g ==> (#[trigger] guards[h]).name@ != caller;
                assert(rest[g - 1] == guards[g]);
                assert forall|h: int| 0 <= h < g - 1 implies (#[trigger] rest[h]).name@ != caller by {
                    assert(rest[h] == guards[h + 1]);
                }
            }
            if guard_calls(rest, caller, callee) {
                let g = choose|g: int|
                    0 <= g < rest.len() && (#[trigger] rest[g]).name@ == caller && lists(
                        rest[g].calls@,
                        callee,
                    ) && forall|h: int| 0 <= h < g ==> (#[trigger] rest[h]).name@ != caller;
                assert(guards[g + 1] == rest[g]);
                assert forall|h: int| 0 <= h < g + 1 implies (#[trigger] guards[h]).name@ != caller by {
                    if h > 0 {
                        assert(guards[h] == rest[h - 1]);
                    }
                }
            }
        }
    }
}

proof fn lemma_chain_of_steps(program: Program, command: Command, guard: Seq<char>, steps: nat)
    requires
        within(name_set(views(command.calls@)), calls_of(program.guards@), steps).contains(guard),
    ensures
        exists|chain: Seq<Seq<char>>| #[trigger]
            call_chain(program, command, chain) && chain.last() == guard,
    decreases steps,
{
    let start = name_set(views(command.calls@));
    let next = calls_of(program.guards@);
    if steps == 0 {
        lemma_lists(command.calls@, guard);
        let chain = seq![guard];
        assert(call_chain(program, command, chain) && chain.last() == guard);
    } else {
        let before = within(start, next, (steps - 1) as nat);
        if before.contains(guard) {
            lemma_chain_of_steps(program, command, guard, (steps - 1) as nat);
        } else {
            let from = choose|from: Seq<char>| before.contains(from) && #[trigger] next(from).contains(guard);
            lemma_chain_of_steps(program, command, from, (steps - 1) as nat);
            let chain = choose|chain: Seq<Seq<char>>| #[trigger]
                call_chain(program, command, chain) && chain.last() == from;
            lemma_guard_calls(program.guards@, from, guard);
            let longer = chain.push(guard);
            assert forall|k: int| 0 <= k < longer.len() - 1 implies guard_calls(
                program.guards@,
                #[trigger] longer[k],
                longer[k + 1],
            ) by {
                if k < chain.len() - 1 {
                    assert(guard_calls(program.guards@, chain[k], chain[k + 1]));
                }
            }
            assert(call_chain(program, command, longer) && longer.last() == guard);
        }
    }
}

proof fn lemma_chain_is_reached(program: Program, command: Command, chain: Seq<Seq<char>>)
    requires
        call_chain(program, command, chain),
    ensures
        guards_of(program, command).contains(chain.last()),
    decreases chain.len(),
{
    let start = name_set(views(command.calls@));
    let next = calls_of(program.guards@);
    if chain.len() == 1 {
        lemma_lists(command.calls@, chain[0]);
        lemma_reached_start(start, next, chain[0]);
    } else {
        let shorter = chain.drop_last();
        assert forall|k: int| 0 <= k < shorter.len() - 1 implies guard_calls(
            program.guards@,
            #[trigger] shorter[k],
            shorter[k + 1],
        ) by {
            assert(guard_calls(program.guards@, chain[k], chain[k + 1]));
        }
        lemma_chain_is_reached(program, command, shorter);
        let at = chain.len() - 2;
        assert(guard_calls(program.guards@, chain[at], chain[at + 1]));
        lemma_guard_calls(program.guards@, chain[at], chain[at + 1]);
        lemma_reached_step(start, next, shorter.last(), chain.last());
    }
}

/// A command names a guard exactly where a chain of calls leads from the one to the other.
pub proof fn law_a_command_names_what_its_calls_lead_to(
    program: Program,
    command: Command,
    guard: Seq<char>,
)
    ensures
        guards_of(program, command).contains(guard) <==> exists|chain: Seq<Seq<char>>| #[trigger]
            call_chain(program, command, chain) && chain.last() == guard,
{
    if guards_of(program, command).contains(guard) {
        let steps = choose|steps: nat| #[trigger]
            within(name_set(views(command.calls@)), calls_of(program.guards@), steps).contains(guard);
        lemma_chain_of_steps(program, command, guard, steps);
    }
    if exists|chain: Seq<Seq<char>>| #[trigger]
        call_chain(program, command, chain) && chain.last() == guard {
        let chain = choose|chain: Seq<Seq<char>>| #[trigger]
            call_chain(program, command, chain) && chain.last() == guard;
        lemma_chain_is_reached(program, command, chain);
    }
}

/// The callers of a guard are the commands that come to it.
pub proof fn law_callers_come_to_the_guard(program: Program, command: Seq<char>, guard: Seq<char>)
    ensures
        callers_of(program, guard).contains(command) <==> comes_to(program, command, guard),
{
    if callers_of(program, guard).contains(command) {
        let i = choose|i: int|
            0 <= i < program.commands.len() && (#[trigger] program.commands@[i]).name@ == command
                && guards_of(program, program.commands@[i]).contains(guard);
        law_a_command_names_what_its_calls_lead_to(program, program.commands@[i], guard);
        let chain = choose|chain: Seq<Seq<char>>| #[trigger]
            call_chain(program, program.commands@[i], chain) && chain.last() == guard;
        assert(program.commands@[i].name@ == command && call_chain(program, program.commands@[i], chain));
    }
    if comes_to(program, command, guard) {
        let (i, chain) = choose|i: int, chain: Seq<Seq<char>>|
            0 <= i < program.commands.len() && (#[trigger] program.commands@[i]).name@ == command
                && #[trigger] call_chain(program, program.commands@[i], chain) && chain.last() == guard;
        law_a_command_names_what_its_calls_lead_to(program, program.commands@[i], guard);
    }
}

// ---------------------------------------------------------------------------
// Causes
// ---------------------------------------------------------------------------

/// Whether a change has both sides and goes from the one to the other by an edit.
pub open spec fn goes_by(change: Change, edit: Edit) -> bool {
    match (change.before, change.after) {
        (Some(before), Some(after)) => edit_between(before@, after@) == edit,
        _ => false,
    }
}

/// Whether some change of that name goes by an edit.
pub open spec fn changed_by(changes: Seq<Change>, edit: Edit, name: Seq<char>) -> bool {
    exists|i: int| 0 <= i < changes.len() && goes_by(#[trigger] changes[i], edit) && changes[i].name@ == name
}

/// Whether the commands that come to a guard are exactly those that changed by an edit.
pub open spec fn explains(program: Program, changes: Seq<Change>, edit: Edit, guard: Seq<char>) -> bool {
    forall|name: Seq<char>| #[trigger] comes_to(program, name, guard) <==> changed_by(changes, edit, name)
}

/// Whether an edit takes anything out or puts anything in.
pub open spec fn edits_anything(edit: Edit) -> bool {
    edit.0.len() > 0 || edit.1.len() > 0
}

proof fn lemma_changes_with(changes: Seq<Change>, edit: Edit)
    requires
        edits_anything(edit),
    ensures
        forall|k: int|
            0 <= k < changes_with(changes, edit).len() ==> goes_by(
                #[trigger] changes_with(changes, edit)[k],
                edit,
            ) && changes.contains(changes_with(changes, edit)[k]),
        forall|i: int|
            0 <= i < changes.len() && goes_by(#[trigger] changes[i], edit) ==> changes_with(
                changes,
                edit,
            ).contains(changes[i]),
        edits_of(changes).contains(edit) <==> exists|i: int|
            0 <= i < changes.len() && goes_by(#[trigger] changes[i], edit),
    decreases changes.len(),
{
    if changes.len() > 0 {
        let rest = changes.drop_last();
        let last = changes.last();
        lemma_changes_with(rest, edit);
        assert((change_edit(last) == Some(edit)) == goes_by(last, edit));
        let had = changes_with(rest, edit);
        let all = changes_with(changes, edit);
        assert forall|k: int| 0 <= k < all.len() implies goes_by(#[trigger] all[k], edit)
            && changes.contains(all[k]) by {
            if k < had.len() {
                assert(all[k] == had[k]);
                assert(rest.contains(had[k]));
                let i = choose|i: int| 0 <= i < rest.len() && rest[i] == had[k];
                assert(changes[i] == all[k]);
            } else {
                assert(changes[changes.len() - 1] == all[k]);
            }
        }
        assert forall|i: int| 0 <= i < changes.len() && goes_by(#[trigger] changes[i], edit)
            implies all.contains(changes[i]) by {
            if i < rest.len() {
                assert(goes_by(rest[i], edit));
                assert(had.contains(rest[i]));
                let k = choose|k: int| 0 <= k < had.len() && had[k] == rest[i];
                assert(all[k] == changes[i]);
            } else {
                assert(all[all.len() - 1] == last);
            }
        }
        let earlier = edits_of(rest);
        let edits = edits_of(changes);
        match change_edit(last) {
            Some(own) => {
                if !earlier.contains(own) {
                    assert(edits == earlier.push(own));
                    assert(edits[earlier.len() as int] == own);
                    if earlier.contains(edit) {
                        let k = choose|k: int| 0 <= k < earlier.len() && earlier[k] == edit;
                        assert(edits[k] == edit);
                    }
                    if edits.contains(edit) && own != edit {
                        let k = choose|k: int| 0 <= k < edits.len() && edits[k] == edit;
                        assert(earlier[k] == edit);
                    }
                }
            },
            None => {},
        }
        if edits.contains(edit) {
            if earlier.contains(edit) {
                let i = choose|i: int| 0 <= i < rest.len() && goes_by(#[trigger] rest[i], edit);
                assert(goes_by(changes[i], edit));
            } else {
                assert(goes_by(changes[changes.len() - 1], edit));
            }
        }
        if exists|i: int| 0 <= i < changes.len() && goes_by(#[trigger] changes[i], edit) {
            let i = choose|i: int| 0 <= i < changes.len() && goes_by(#[trigger] changes[i], edit);
            if i < rest.len() {
                assert(goes_by(rest[i], edit));
            }
        }
    }
}

proof fn lemma_names_with(changes: Seq<Change>, edit: Edit, name: Seq<char>)
    requires
        edits_anything(edit),
    ensures
        change_names(changes_with(changes, edit)).contains(name) <==> changed_by(changes, edit, name),
{
    lemma_changes_with(changes, edit);
    let all = changes_with(changes, edit);
    let names = change_names(all);
    if names.contains(name) {
        let k = choose|k: int| 0 <= k < names.len() && names[k] == name;
        assert(goes_by(all[k], edit) && changes.contains(all[k]));
        let i = choose|i: int| 0 <= i < changes.len() && changes[i] == all[k];
        assert(goes_by(changes[i], edit));
    }
    if changed_by(changes, edit, name) {
        let i = choose|i: int|
            0 <= i < changes.len() && goes_by(#[trigger] changes[i], edit) && changes[i].name@ == name;
        assert(all.contains(changes[i]));
        let k = choose|k: int| 0 <= k < all.len() && all[k] == changes[i];
        assert(names[k] == name);
    }
}

proof fn lemma_fits(program: Program, changes: Seq<Change>, edit: Edit, guard: Guard)
    requires
        edits_anything(edit),
        exists|i: int| 0 <= i < changes.len() && goes_by(#[trigger] changes[i], edit),
    ensures
        guard_fits(program, name_set(change_names(changes_with(changes, edit))), guard) <==> explains(
            program,
            changes,
            edit,
            guard.name@,
        ),
{
    let group = name_set(change_names(changes_with(changes, edit)));
    let at = choose|i: int| 0 <= i < changes.len() && goes_by(#[trigger] changes[i], edit);
    lemma_names_with(changes, edit, changes[at].name@);
    assert(group.contains(changes[at].name@));
    if guard_fits(program, group, guard) {
        assert forall|name: Seq<char>| #[trigger] comes_to(program, name, guard.name@) <==> changed_by(
            changes,
            edit,
            name,
        ) by {
            law_callers_come_to_the_guard(program, name, guard.name@);
            lemma_names_with(changes, edit, name);
            assert(callers_of(program, guard.name@).contains(name) == group.contains(name));
        }
    }
    if explains(program, changes, edit, guard.name@) {
        assert forall|name: Seq<char>| callers_of(program, guard.name@).contains(name) == #[trigger] group.contains(
            name,
        ) by {
            law_callers_come_to_the_guard(program, name, guard.name@);
            lemma_names_with(changes, edit, name);
            assert(comes_to(program, name, guard.name@) <==> changed_by(changes, edit, name));
        }
        assert(callers_of(program, guard.name@) =~= group);
    }
}

proof fn lemma_one_fits(
    program: Program,
    guards: Seq<Guard>,
    changes: Seq<Change>,
    edit: Edit,
    at: int,
)
    requires
        edits_anything(edit),
        exists|i: int| 0 <= i < changes.len() && goes_by(#[trigger] changes[i], edit),
        -1 <= at < guards.len(),
        forall|g: int|
            0 <= g < guards.len() ==> (explains(program, changes, edit, (#[trigger] guards[g]).name@) <==> g
                == at),
    ensures
        ({
            let fitting = fitting_guards(
                program,
                guards,
                name_set(change_names(changes_with(changes, edit))),
            );
            if at >= 0 {
                fitting == seq![guards[at]]
            } else {
                fitting.len() == 0
            }
        }),
    decreases guards.len(),
{
    if guards.len() > 0 {
        let rest = guards.drop_last();
        let end = guards.len() - 1;
        lemma_fits(program, changes, edit, guards[end]);
        assert(explains(program, changes, edit, guards[end].name@) <==> end == at);
        assert forall|g: int| 0 <= g < rest.len() implies (explains(
            program,
            changes,
            edit,
            (#[trigger] rest[g]).name@,
        ) <==> g == (if at == end { -1 } else { at })) by {
            assert(explains(program, changes, edit, guards[g].name@) <==> g == at);
        }
        lemma_one_fits(program, rest, changes, edit, if at == end { -1 } else { at });
        let fitting = fitting_guards(
            program,
            guards,
            name_set(change_names(changes_with(changes, edit))),
        );
        if at >= 0 {
            assert(fitting =~= seq![guards[at]]);
        }
    }
}

proof fn lemma_cause_listed(program: Program, changes: Seq<Change>, edits: Seq<Edit>, at: int)
    requires
        0 <= at < edits.len(),
        group_cause(program, changes_with(changes, edits[at]), edits[at]) is Some,
    ensures
        causes_of(program, changes, edits).contains(
            group_cause(program, changes_with(changes, edits[at]), edits[at])->0,
        ),
    decreases edits.len(),
{
    let rest = edits.drop_last();
    let had = causes_of(program, changes, rest);
    let all = causes_of(program, changes, edits);
    let cause = group_cause(program, changes_with(changes, edits[at]), edits[at])->0;
    if at < rest.len() {
        lemma_cause_listed(program, changes, rest, at);
        let k = choose|k: int| 0 <= k < had.len() && had[k] == cause;
        assert(all[k] == cause);
    } else {
        assert(all[all.len() - 1] == cause);
    }
}

proof fn lemma_listed_cause(program: Program, changes: Seq<Change>, edits: Seq<Edit>, k: int) -> (at: int)
    requires
        0 <= k < causes_of(program, changes, edits).len(),
    ensures
        0 <= at < edits.len(),
        group_cause(program, changes_with(changes, edits[at]), edits[at]) == Some(
            causes_of(program, changes, edits)[k],
        ),
    decreases edits.len(),
{
    let rest = edits.drop_last();
    let had = causes_of(program, changes, rest);
    if k < had.len() {
        lemma_listed_cause(program, changes, rest, k)
    } else {
        edits.len() - 1
    }
}

proof fn lemma_attributed(program: Program, changes: Seq<Change>, edit: Edit)
    requires
        edits_anything(edit),
        exists|i: int| 0 <= i < changes.len() && goes_by(#[trigger] changes[i], edit),
        group_cause(program, changes_with(changes, edit), edit) is Some,
    ensures
        attributed(program, changes).contains(
            group_cause(program, changes_with(changes, edit), edit)->0,
        ),
{
    lemma_changes_with(changes, edit);
    let edits = sorted(edits_of(changes), edit_order());
    lemma_sorted_contains(edits_of(changes), edit_order(), edit);
    let at = choose|at: int| 0 <= at < edits.len() && edits[at] == edit;
    lemma_cause_listed(program, changes, edits, at);
}

proof fn lemma_two_share(changes: Seq<Change>, edit: Edit, i: int, j: int)
    requires
        edits_anything(edit),
        0 <= i < j < changes.len(),
        goes_by(changes[i], edit),
        goes_by(changes[j], edit),
    ensures
        changes_with(changes, edit).len() >= 2,
    decreases changes.len(),
{
    let rest = changes.drop_last();
    assert((change_edit(changes.last()) == Some(edit)) == goes_by(changes.last(), edit));
    if j < rest.len() {
        lemma_two_share(rest, edit, i, j);
    } else {
        lemma_changes_with(rest, edit);
        assert(goes_by(rest[i], edit));
        assert(changes_with(rest, edit).contains(rest[i]));
    }
}

proof fn lemma_names_distinct(changes: Seq<Change>, edit: Edit)
    requires
        edits_anything(edit),
        forall|i: int, j: int|
            0 <= i < j < changes.len() && goes_by(#[trigger] changes[i], edit) && goes_by(
                #[trigger] changes[j],
                edit,
            ) ==> changes[i].name@ != changes[j].name@,
    ensures
        change_names(changes_with(changes, edit)).no_duplicates(),
    decreases changes.len(),
{
    if changes.len() > 0 {
        let rest = changes.drop_last();
        assert forall|i: int, j: int|
            0 <= i < j < rest.len() && goes_by(#[trigger] rest[i], edit) && goes_by(
                #[trigger] rest[j],
                edit,
            ) implies rest[i].name@ != rest[j].name@ by {
            assert(goes_by(changes[i], edit) && goes_by(changes[j], edit));
        }
        lemma_names_distinct(rest, edit);
        assert((change_edit(changes.last()) == Some(edit)) == goes_by(changes.last(), edit));
        if goes_by(changes.last(), edit) {
            let had = change_names(changes_with(rest, edit));
            let all = change_names(changes_with(changes, edit));
            assert(all =~= had.push(changes.last().name@));
            lemma_names_with(rest, edit, changes.last().name@);
            if had.contains(changes.last().name@) {
                let i = choose|i: int|
                    0 <= i < rest.len() && goes_by(#[trigger] rest[i], edit) && rest[i].name@
                        == changes.last().name@;
                assert(goes_by(changes[i], edit) && goes_by(changes[changes.len() - 1], edit));
            }
            assert forall|a: int, b: int| 0 <= a < all.len() && 0 <= b < all.len() && a != b implies all[a]
                != all[b] by {
                if a < had.len() && b < had.len() {
                    assert(had[a] != had[b]);
                } else if a < had.len() {
                    assert(had.contains(had[a]));
                } else {
                    assert(had.contains(had[b]));
                }
            }
        }
    }
}

/// Where commands changed by one edit that nothing spliced explains, and exactly one guard
/// is such that the commands that come to it are just those, that guard is named as the
/// cause, with those commands.
pub proof fn law_the_guard_behind_a_shared_edit_is_named(
    program: Program,
    changes: Seq<Change>,
    edit: Edit,
    first: int,
    second: int,
    at: int,
)
    requires
        edits_anything(edit),
        0 <= first < second < changes.len(),
        goes_by(changes[first], edit),
        goes_by(changes[second], edit),
        forall|i: int|
            0 <= i < changes.len() && goes_by(#[trigger] changes[i], edit) ==> changes[i].kind
                == Kind::Command,
        forall|i: int, j: int|
            0 <= i < j < changes.len() && goes_by(#[trigger] changes[i], edit) && goes_by(
                #[trigger] changes[j],
                edit,
            ) ==> changes[i].name@ != changes[j].name@,
        inlined(program, edit.0, edit.1) is None,
        0 <= at < program.guards.len(),
        forall|g: int|
            0 <= g < program.guards.len() ==> (explains(
                program,
                changes,
                edit,
                (#[trigger] program.guards@[g]).name@,
            ) <==> g == at),
    ensures
        exists|k: int|
            0 <= k < attributed(program, changes).len() && match #[trigger] attributed(program, changes)[k] {
                CauseView::Guard(name, commands) => {
                    &&& name == program.guards@[at].name@
                    &&& commands.no_duplicates()
                    &&& forall|command: Seq<char>|
                        commands.contains(command) <==> #[trigger] changed_by(changes, edit, command)
                },
                _ => false,
            },
{
    let members = changes_with(changes, edit);
    assert(goes_by(changes[first], edit));
    lemma_two_share(changes, edit, first, second);
    lemma_changes_with(changes, edit);
    lemma_names_distinct(changes, edit);
    lemma_one_fits(program, program.guards@, changes, edit, at);
    assert forall|i: int| 0 <= i < members.len() implies (#[trigger] members[i]).kind == Kind::Command by {
        assert(goes_by(members[i], edit) && changes.contains(members[i]));
        let j = choose|j: int| 0 <= j < changes.len() && changes[j] == members[i];
        assert(goes_by(changes[j], edit));
    }
    let cause = CauseView::Guard(program.guards@[at].name@, change_names(members));
    assert(group_guard(program, members) == Some(program.guards@[at].name@));
    assert(group_cause(program, members, edit) == Some(cause));
    lemma_attributed(program, changes, edit);
    let k = choose|k: int|
        0 <= k < attributed(program, changes).len() && attributed(program, changes)[k] == cause;
    assert forall|command: Seq<char>|
        change_names(members).contains(command) <==> #[trigger] changed_by(changes, edit, command) by {
        lemma_names_with(changes, edit, command);
    }
    assert(attributed(program, changes)[k] == cause);
}

/// What is given as a cause is one. It speaks of at least two changes that are one edit, and
/// of all that are. A guard is named only where it is a guard of the program, all those
/// changes are commands, and the commands that come to it are exactly they; an edit is
/// reported as that edit, with what it was spliced from where one declaration fits.
pub proof fn law_a_cause_speaks_of_all_that_changed_by_one_edit(
    program: Program,
    changes: Seq<Change>,
    k: int,
)
    requires
        0 <= k < attributed(program, changes).len(),
    ensures
        exists|edit: Edit|
            #![trigger edits_anything(edit)]
            edits_anything(edit) && match attributed(program, changes)[k] {
                CauseView::Guard(name, commands) => {
                    &&& commands.len() >= 2
                    &&& inlined(program, edit.0, edit.1) is None
                    &&& exists|g: int|
                        0 <= g < program.guards.len() && (#[trigger] program.guards@[g]).name@ == name
                    &&& explains(program, changes, edit, name)
                    &&& forall|command: Seq<char>|
                        commands.contains(command) <==> #[trigger] changed_by(changes, edit, command)
                    &&& forall|i: int|
                        0 <= i < changes.len() && goes_by(#[trigger] changes[i], edit) ==> changes[i].kind
                            == Kind::Command
                },
                CauseView::SharedEdit(said, declarations, likely) => {
                    &&& said == edit
                    &&& declarations.len() >= 2
                    &&& likely == inlined(program, edit.0, edit.1)
                    &&& forall|declaration: Seq<char>|
                        declarations.contains(declaration) <==> #[trigger] changed_by(
                            changes,
                            edit,
                            declaration,
                        )
                },
            },
{
    let edits = sorted(edits_of(changes), edit_order());
    let at = lemma_listed_cause(program, changes, edits, k);
    let edit = edits[at];
    lemma_sorted_contains(edits_of(changes), edit_order(), edit);
    assert(edits.contains(edit));
    lemma_edit_is_some(changes, edit);
    let members = changes_with(changes, edit);
    lemma_changes_with(changes, edit);
    assert forall|name: Seq<char>|
        change_names(members).contains(name) <==> #[trigger] changed_by(changes, edit, name) by {
        lemma_names_with(changes, edit, name);
    }
    if let CauseView::Guard(name, commands) = attributed(program, changes)[k] {
        assert(group_guard(program, members) == Some(name));
        let fitting = fitting_guards(program, program.guards@, name_set(change_names(members)));
        let g = lemma_fitting_fits(program, program.guards@, name_set(change_names(members)));
        lemma_fits(program, changes, edit, program.guards@[g]);
        assert forall|i: int| 0 <= i < changes.len() && goes_by(#[trigger] changes[i], edit)
            implies changes[i].kind == Kind::Command by {
            assert(members.contains(changes[i]));
            let j = choose|j: int| 0 <= j < members.len() && members[j] == changes[i];
            assert(members[j].kind == Kind::Command);
        }
    }
    assert(edits_anything(edit));
}

proof fn lemma_edit_is_some(changes: Seq<Change>, edit: Edit)
    requires
        edits_of(changes).contains(edit),
    ensures
        edits_anything(edit),
    decreases changes.len(),
{
    if changes.len() > 0 {
        let earlier = edits_of(changes.drop_last());
        if earlier.contains(edit) {
            lemma_edit_is_some(changes.drop_last(), edit);
        } else if let Some(own) = change_edit(changes.last()) {
            if own != edit {
                let k = choose|k: int| 0 <= k < edits_of(changes).len() && edits_of(changes)[k] == edit;
                if !earlier.contains(own) {
                    assert(earlier.push(own)[k] == edit);
                    assert(k < earlier.len());
                    assert(earlier[k] == edit);
                }
            }
        }
    }
}

proof fn lemma_fitting_fits(program: Program, guards: Seq<Guard>, group: Set<Seq<char>>) -> (g: int)
    requires
        fitting_guards(program, guards, group).len() == 1,
    ensures
        0 <= g < guards.len(),
        guards[g] == fitting_guards(program, guards, group)[0],
        guard_fits(program, group, guards[g]),
    decreases guards.len(),
{
    if guard_fits(program, group, guards.last()) {
        guards.len() - 1
    } else {
        lemma_fitting_fits(program, guards.drop_last(), group)
    }
}

/// No edit that two changes share goes without a cause.
pub proof fn law_every_shared_edit_has_a_cause(
    program: Program,
    changes: Seq<Change>,
    edit: Edit,
    first: int,
    second: int,
)
    requires
        edits_anything(edit),
        0 <= first < second < changes.len(),
        goes_by(changes[first], edit),
        goes_by(changes[second], edit),
    ensures
        exists|k: int|
            0 <= k < attributed(program, changes).len() && match #[trigger] attributed(program, changes)[k] {
                CauseView::Guard(name, commands) => commands.contains(changes[first].name@)
                    && commands.contains(changes[second].name@) && explains(program, changes, edit, name),
                CauseView::SharedEdit(said, declarations, likely) => said == edit
                    && declarations.contains(changes[first].name@) && declarations.contains(
                    changes[second].name@,
                ),
            },
{
    assert(goes_by(changes[first], edit));
    lemma_two_share(changes, edit, first, second);
    lemma_attributed(program, changes, edit);
    let members = changes_with(changes, edit);
    let cause = group_cause(program, members, edit)->0;
    let k = choose|k: int|
        0 <= k < attributed(program, changes).len() && attributed(program, changes)[k] == cause;
    lemma_names_with(changes, edit, changes[first].name@);
    lemma_names_with(changes, edit, changes[second].name@);
    if let CauseView::Guard(name, commands) = cause {
        let g = lemma_fitting_fits(program, program.guards@, name_set(change_names(members)));
        lemma_fits(program, changes, edit, program.guards@[g]);
    }
    assert(attributed(program, changes)[k] == cause);
}

} // verus!
