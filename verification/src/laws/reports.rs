//! Reports: what a plan says, for a reader and for a program.

use vstd::prelude::*;

use crate::digest::kind_name;
use crate::json::JsonView;
use crate::laws::texts::{
    lemma_part_at_the_end, lemma_part_behind, lemma_part_in_front, lemma_part_of_itself, lemma_part_within,
};
use crate::plan::{attributed, cause_views, verdict_label, CauseView, Change, Diff, Forecast, Rebuild, Verdict};
use crate::program::Program;
use crate::replay::{Coverage, Divergence, Replay};
use crate::report::{
    can_be_planned, cause_json, cause_text, cause_texts, change_json, change_line, change_lines, changes_nothing,
    coverage_json, coverage_text, divergence_json, divergence_line, divergence_lines, divergence_text, edit_lines,
    edit_side, forecast_json, forecast_line, forecast_lines, is_assembled, is_replayed, plan_json, plan_text,
    rebuild_label, rebuilds, summary_line, verdicts, version_message, DIVERGENCE_LINES, EDIT_LINES, Plan,
};
use crate::text::{decimal, has_part, option_view, signed_decimal, stands_at, trimmed, views};

verus! {

// ---------------------------------------------------------------------------
// Parts
// ---------------------------------------------------------------------------

proof fn lemma_then_two(text: Seq<char>, a: Seq<char>, b: Seq<char>, part: Seq<char>)
    requires
        has_part(text, part),
    ensures
        has_part(text + a + b, part),
{
    lemma_part_in_front(text, a, part);
    lemma_part_in_front(text + a, b, part);
}

proof fn lemma_then_four(text: Seq<char>, a: Seq<char>, b: Seq<char>, c: Seq<char>, d: Seq<char>, part: Seq<char>)
    requires
        has_part(text, part),
    ensures
        has_part(text + a + b + c + d, part),
{
    lemma_then_two(text, a, b, part);
    lemma_then_two(text + a + b, c, d, part);
}

proof fn lemma_regroup(a: Seq<char>, b: Seq<char>, c: Seq<char>)
    ensures
        a + (b + c) == a + b + c,
{
    assert(a + (b + c) =~= a + b + c);
}

/// What stands behind some text stands in it with the front cut off.
proof fn lemma_from(front: Seq<char>, a: Seq<char>, b: Seq<char>)
    ensures
        has_part(front + a + b, a + b),
{
    lemma_regroup(front, a, b);
    lemma_part_at_the_end(front, a + b);
}

proof fn lemma_from_four(front: Seq<char>, a: Seq<char>, b: Seq<char>, c: Seq<char>, d: Seq<char>)
    ensures
        has_part(front + a + b + c + d, a + b + c + d),
{
    lemma_regroup(front, a, b);
    lemma_regroup(front, a + b, c);
    lemma_regroup(front, a + b + c, d);
    lemma_part_at_the_end(front, a + b + c + d);
}

proof fn lemma_from_five(
    front: Seq<char>,
    a: Seq<char>,
    b: Seq<char>,
    c: Seq<char>,
    d: Seq<char>,
    e: Seq<char>,
)
    ensures
        has_part(front + a + b + c + d + e, a + b + c + d + e),
{
    lemma_regroup(front, a, b);
    lemma_regroup(front, a + b, c);
    lemma_regroup(front, a + b + c, d);
    lemma_regroup(front, a + b + c + d, e);
    lemma_part_at_the_end(front, a + b + c + d + e);
}

/// What stands in the middle of a text stands in it, though the text goes on.
proof fn lemma_middle(front: Seq<char>, a: Seq<char>, b: Seq<char>, c: Seq<char>, d: Seq<char>)
    ensures
        has_part(front + a + b + (c + d), a + b + c),
{
    lemma_regroup(front, a, b);
    lemma_regroup(front, a + b, c);
    lemma_regroup(front + a + b, c, d);
    lemma_part_at_the_end(front, a + b + c);
    lemma_part_in_front(front + a + b + c, d, a + b + c);
}

// ---------------------------------------------------------------------------
// Putting it together
// ---------------------------------------------------------------------------

/// A plan is made of what was found: its changes and its forecasts as they are, and its causes where
/// the two sides can be compared. It has a coverage exactly where a replay was asked for, and
/// divergences only where one was run.
pub proof fn law_a_plan_is_made_of_what_was_found(
    plan: Plan,
    diff: Diff,
    projectors: Vec<Forecast>,
    program: Program,
    replay: Replay,
    horizon_days: u32,
    replayed: Result<(Vec<Divergence>, Coverage), String>,
)
    requires
        is_assembled(plan, diff, projectors, program, replay, horizon_days, replayed),
    ensures
        plan.changes@ == diff.changes@,
        plan.projectors@ == projectors@,
        plan.declarations_compared == diff.declarations_compared,
        plan.digest_version_mismatch == diff.digest_version_mismatch,
        plan.coverage is Some <==> replay is On,
        plan.divergences.len() > 0 ==> is_replayed(diff.digest_version_mismatch, replay) && replayed is Ok,
        is_replayed(diff.digest_version_mismatch, replay) ==> (replayed matches Ok(found) ==> plan.divergences@
            == found.0@ && plan.coverage == Some(found.1)),
        is_replayed(diff.digest_version_mismatch, replay) ==> (replayed matches Err(message)
            ==> option_view(plan.coverage->0.unavailable) == Some(message@) && plan.coverage->0.replayed == 0),
        diff.digest_version_mismatch ==> plan.causes.len() == 0,
        !diff.digest_version_mismatch ==> cause_views(plan.causes@) == attributed(program, diff.changes@),
{
    assert(cause_views(plan.causes@).len() == plan.causes.len());
}

/// A plan is made only against what this build can read, and replays only where it is asked to and
/// the two sides can be compared.
pub proof fn law_a_plan_is_made_against_what_can_be_read(recorded: Option<i64>, mismatch: bool, replay: Replay)
    ensures
        can_be_planned(recorded) <==> (recorded matches Some(version) && version == crate::opdb::SCHEMA_VERSION),
        is_replayed(mismatch, replay) <==> !mismatch && replay is On,
{
}

// ---------------------------------------------------------------------------
// Counts
// ---------------------------------------------------------------------------

/// Every change is counted under its own verdict, and under no other.
pub proof fn law_a_change_is_counted_under_its_verdict(changes: Seq<Change>, change: Change, verdict: Verdict)
    ensures
        verdicts(Seq::empty(), verdict) == 0,
        verdicts(changes.push(change), verdict) == verdicts(changes, verdict) + (if change.verdict == verdict {
            1nat
        } else {
            0nat
        }),
        verdicts(changes, Verdict::Added) + verdicts(changes, Verdict::Removed) + verdicts(
            changes,
            Verdict::Behaviour,
        ) + verdicts(changes, Verdict::Contract) == changes.len(),
    decreases changes.len(),
{
    assert(changes.push(change).drop_last() =~= changes);
    if changes.len() > 0 {
        law_a_change_is_counted_under_its_verdict(changes.drop_last(), change, verdict);
    }
}

/// A projector is counted as rebuilding where it builds anew, whether or not it was there before.
pub proof fn law_a_rebuild_is_counted(projectors: Seq<Forecast>, forecast: Forecast)
    ensures
        rebuilds(Seq::empty()) == 0,
        rebuilds(projectors.push(forecast)) == rebuilds(projectors) + (if forecast.outcome is Rebuild
            || forecast.outcome is Fresh {
            1nat
        } else {
            0nat
        }),
{
    assert(projectors.push(forecast).drop_last() =~= projectors);
}

// ---------------------------------------------------------------------------
// For a reader
// ---------------------------------------------------------------------------

/// The line of a change names its verdict, its declaration and its module.
pub proof fn law_a_change_has_its_line(change: Change)
    ensures
        has_part(change_line(change), verdict_label(change.verdict)),
        has_part(change_line(change), " "@ + kind_name(change.kind) + " "@ + change.name@ + " ("@),
        change.module matches Some(module) ==> has_part(change_line(change), " ("@ + module@ + ")"@),
{
    let column = crate::report::verdict_column(change.verdict);
    let label = verdict_label(change.verdict);
    reveal_strlit("added");
    reveal_strlit("added    ");
    reveal_strlit("removed");
    reveal_strlit("removed  ");
    reveal_strlit("behaviour");
    reveal_strlit("contract");
    reveal_strlit("contract ");
    assert(column.subrange(0, label.len() as int) =~= label);
    assert(stands_at(column, label, 0));
    let module = match change.module {
        Some(module) => module@,
        None => "no module"@,
    };
    let front = "  "@ + column;
    let named = " "@ + kind_name(change.kind) + " "@ + change.name@ + " ("@;
    lemma_part_behind("  "@, column, label);
    lemma_then_four(front, " "@, kind_name(change.kind), " "@, change.name@, label);
    lemma_part_in_front(front + " "@ + kind_name(change.kind) + " "@ + change.name@, " ("@, label);
    lemma_then_two(
        front + " "@ + kind_name(change.kind) + " "@ + change.name@ + " ("@,
        module,
        ")\n"@,
        label,
    );
    lemma_from_five(front, " "@, kind_name(change.kind), " "@, change.name@, " ("@);
    lemma_then_two(
        front + " "@ + kind_name(change.kind) + " "@ + change.name@ + " ("@,
        module,
        ")\n"@,
        named,
    );
    reveal_strlit(")\n");
    reveal_strlit(")");
    assert(")\n"@ =~= ")"@ + seq!['\n']);
    lemma_middle(
        front + " "@ + kind_name(change.kind) + " "@ + change.name@,
        " ("@,
        module,
        ")"@,
        seq!['\n'],
    );
}

proof fn lemma_change_lines(changes: Seq<Change>, at: int)
    requires
        0 <= at < changes.len(),
    ensures
        has_part(change_lines(changes), change_line(changes[at])),
    decreases changes.len(),
{
    let rest = changes.drop_last();
    if at == rest.len() {
        lemma_part_at_the_end(change_lines(rest), change_line(changes[at]));
    } else {
        lemma_change_lines(rest, at);
        lemma_part_in_front(change_lines(rest), change_line(changes.last()), change_line(changes[at]));
    }
}

proof fn lemma_forecast_lines(projectors: Seq<Forecast>, at: int)
    requires
        0 <= at < projectors.len(),
    ensures
        has_part(forecast_lines(projectors), forecast_line(projectors[at])),
    decreases projectors.len(),
{
    let rest = projectors.drop_last();
    if at == rest.len() {
        lemma_part_at_the_end(forecast_lines(rest), forecast_line(projectors[at]));
    } else {
        lemma_forecast_lines(rest, at);
        lemma_part_in_front(
            forecast_lines(rest),
            forecast_line(projectors.last()),
            forecast_line(projectors[at]),
        );
    }
}

proof fn lemma_cause_texts(causes: Seq<CauseView>, at: int)
    requires
        0 <= at < causes.len(),
    ensures
        has_part(cause_texts(causes), cause_text(causes[at])),
    decreases causes.len(),
{
    let rest = causes.drop_last();
    if at == rest.len() {
        lemma_part_at_the_end(cause_texts(rest), cause_text(causes[at]));
    } else {
        lemma_cause_texts(rest, at);
        lemma_part_in_front(cause_texts(rest), cause_text(causes.last()), cause_text(causes[at]));
    }
}

/// A plan that can be read lists every change, every forecast, every cause and what its replay spoke
/// for.
pub proof fn law_a_plan_lists_what_it_found(plan: Plan, change: int, projector: int, cause: int)
    requires
        !plan.digest_version_mismatch,
    ensures
        0 <= change < plan.changes.len() ==> has_part(plan_text(plan), change_line(plan.changes@[change])),
        0 <= projector < plan.projectors.len() ==> has_part(
            plan_text(plan),
            forecast_line(plan.projectors@[projector]),
        ),
        0 <= cause < plan.causes.len() ==> has_part(
            plan_text(plan),
            cause_text(cause_views(plan.causes@)[cause]),
        ),
        has_part(plan_text(plan), divergence_text(plan.divergences@)),
        plan.coverage matches Some(coverage) ==> has_part(plan_text(plan), coverage_text(coverage)),
        has_part(plan_text(plan), "compared "@ + decimal(plan.declarations_compared as nat)),
{
    let head = "compared "@ + decimal(plan.declarations_compared as nat)
        + " declaration(s) against what is deployed\n"@;
    let a = change_lines(plan.changes@);
    let b = forecast_lines(plan.projectors@);
    let c = cause_texts(cause_views(plan.causes@));
    let d = divergence_text(plan.divergences@);
    let e = match plan.coverage {
        Some(coverage) => coverage_text(coverage),
        None => Seq::empty(),
    };
    let f = if changes_nothing(plan) {
        "ok: nothing would change"@
    } else {
        summary_line(plan)
    };
    let whole = plan_text(plan);
    assert(whole == head + a + b + c + d + e + f);
    if 0 <= change < plan.changes.len() {
        let part = change_line(plan.changes@[change]);
        lemma_change_lines(plan.changes@, change);
        lemma_part_behind(head, a, part);
        lemma_part_in_front(head + a, b, part);
        lemma_then_four(head + a + b, c, d, e, f, part);
    }
    if 0 <= projector < plan.projectors.len() {
        let part = forecast_line(plan.projectors@[projector]);
        lemma_forecast_lines(plan.projectors@, projector);
        lemma_part_behind(head + a, b, part);
        lemma_then_four(head + a + b, c, d, e, f, part);
    }
    if 0 <= cause < plan.causes.len() {
        let part = cause_text(cause_views(plan.causes@)[cause]);
        lemma_cause_texts(cause_views(plan.causes@), cause);
        lemma_part_behind(head + a + b, c, part);
        lemma_part_in_front(head + a + b + c, d, part);
        lemma_then_two(head + a + b + c + d, e, f, part);
    }
    lemma_part_at_the_end(head + a + b + c, d);
    lemma_then_two(head + a + b + c + d, e, f, d);
    lemma_part_at_the_end(head + a + b + c + d, e);
    lemma_part_in_front(head + a + b + c + d + e, f, e);
    let front = "compared "@ + decimal(plan.declarations_compared as nat);
    lemma_part_of_itself(front);
    lemma_part_in_front(front, " declaration(s) against what is deployed\n"@, front);
    lemma_then_four(head, a, b, c, d, front);
    lemma_then_two(head + a + b + c + d, e, f, front);
}

/// A plan ends by saying that nothing would change exactly where there is no change, no divergence and
/// every projector goes on where it stood.
pub proof fn law_a_plan_is_ok_where_nothing_would_change(plan: Plan)
    requires
        !plan.digest_version_mismatch,
    ensures
        ({
            let nothing = plan.changes.len() == 0 && plan.divergences.len() == 0 && forall|i: int|
                0 <= i < plan.projectors.len() ==> (#[trigger] plan.projectors@[i]).outcome is Resume;
            let text = plan_text(plan);
            let end = if nothing {
                "ok: nothing would change"@
            } else {
                summary_line(plan)
            };
            stands_at(text, end, text.len() - end.len())
        }),
        summary_line(plan).len() > 0,
{
    let text = plan_text(plan);
    let end = if changes_nothing(plan) {
        "ok: nothing would change"@
    } else {
        summary_line(plan)
    };
    if forall|i: int| 0 <= i < plan.projectors.len() ==> (#[trigger] plan.projectors@[i]).outcome is Resume {
        assert forall|i: int| 0 <= i < plan.projectors.len() implies (#[trigger] plan.projectors@[i]).outcome
            == Rebuild::Resume by {}
    }
    assert(text.subrange(text.len() - end.len(), text.len() as int) =~= end);
    reveal_strlit(" added, ");
}

/// A summary counts what is listed: additions, removals, changes of either kind, and rebuilds.
pub proof fn law_a_summary_counts_what_is_listed(plan: Plan)
    ensures
        ({
            let front = decimal(verdicts(plan.changes@, Verdict::Added)) + " added, "@ + decimal(
                verdicts(plan.changes@, Verdict::Removed),
            ) + " removed, "@ + decimal(
                (plan.changes.len() - verdicts(plan.changes@, Verdict::Added) - verdicts(
                    plan.changes@,
                    Verdict::Removed,
                )) as nat,
            ) + " changed; "@ + decimal(rebuilds(plan.projectors@)) + " projector(s) would rebuild"@;
            &&& stands_at(summary_line(plan), front, 0)
            &&& plan.coverage is None ==> summary_line(plan) == front
            &&& plan.coverage is Some ==> has_part(
                summary_line(plan),
                decimal(plan.divergences.len() as nat) + " recorded invocation(s) would diverge"@,
            )
        }),
{
    law_a_change_is_counted_under_its_verdict(
        plan.changes@,
        plan.changes@[0],
        Verdict::Added,
    );
    let front = decimal(verdicts(plan.changes@, Verdict::Added)) + " added, "@ + decimal(
        verdicts(plan.changes@, Verdict::Removed),
    ) + " removed, "@ + decimal(
        (plan.changes.len() - verdicts(plan.changes@, Verdict::Added) - verdicts(
            plan.changes@,
            Verdict::Removed,
        )) as nat,
    ) + " changed; "@ + decimal(rebuilds(plan.projectors@)) + " projector(s) would rebuild"@;
    let line = summary_line(plan);
    assert(line.subrange(0, front.len() as int) =~= front);
    if plan.coverage is Some {
        let end = decimal(plan.divergences.len() as nat) + " recorded invocation(s) would diverge"@;
        assert(line =~= front + ", "@ + end);
        lemma_part_at_the_end(front + ", "@, end);
    } else {
        assert(line =~= front);
    }
}

/// A projector that goes on where it stood is not told of, and any other is, by name. One that
/// rebuilds is told of with how far it had come.
pub proof fn law_a_forecast_tells_of_what_does_not_resume(forecast: Forecast)
    ensures
        forecast_line(forecast).len() == 0 <==> forecast.outcome is Resume,
        !(forecast.outcome is Resume) ==> has_part(forecast_line(forecast), "  projector "@ + forecast.name@),
        forecast.outcome is Rebuild ==> has_part(
            forecast_line(forecast),
            "redoing "@ + decimal(forecast.checkpoint as nat) + " position(s)"@,
        ),
{
    let front = "  projector "@ + forecast.name@;
    reveal_strlit("  projector ");
    let line = forecast_line(forecast);
    if !(forecast.outcome is Resume) {
        assert(line.subrange(0, front.len() as int) =~= front);
        assert(stands_at(line, front, 0));
    }
    if forecast.outcome is Rebuild {
        reveal_strlit(" rebuilds from zero, redoing ");
        reveal_strlit(" rebuilds from zero, ");
        reveal_strlit("redoing ");
        reveal_strlit(" position(s)\n");
        reveal_strlit(" position(s)");
        let part = "redoing "@ + decimal(forecast.checkpoint as nat) + " position(s)"@;
        assert(" rebuilds from zero, redoing "@ =~= " rebuilds from zero, "@ + "redoing "@);
        assert(" position(s)\n"@ =~= " position(s)"@ + seq!['\n']);
        assert(line =~= front + " rebuilds from zero, "@ + part + seq!['\n']);
        lemma_part_of_itself(part);
        lemma_part_within(front + " rebuilds from zero, "@, part, seq!['\n'], part);
    }
}

/// An edit shows its first lines, and says how many more there are where it does not show them all.
pub proof fn law_an_edit_says_how_many_lines_it_leaves_out(sign: Seq<char>, lines: Seq<Seq<char>>, at: int)
    ensures
        0 <= at < lines.len() && at < 3 ==> has_part(
            edit_side(sign, lines),
            "      "@ + sign + " "@ + trimmed(lines[at]) + "\n"@,
        ),
        lines.len() > 3 ==> has_part(
            edit_side(sign, lines),
            " ... and "@ + decimal((lines.len() - 3) as nat) + " more line(s)"@,
        ),
{
    let shown = if lines.len() < EDIT_LINES {
        lines.len()
    } else {
        EDIT_LINES as nat
    };
    let first = edit_lines(sign, lines, shown);
    let more = "      "@ + sign + " ... and "@ + decimal((lines.len() - EDIT_LINES) as nat) + " more line(s)\n"@;
    let rest = crate::report::line_if(lines.len() > EDIT_LINES, more);
    if 0 <= at < lines.len() && at < 3 {
        lemma_edit_lines(sign, lines, shown, at);
        lemma_part_in_front(first, rest, "      "@ + sign + " "@ + trimmed(lines[at]) + "\n"@);
    }
    if lines.len() > 3 {
        let part = " ... and "@ + decimal((lines.len() - 3) as nat) + " more line(s)"@;
        reveal_strlit(" more line(s)\n");
        reveal_strlit(" more line(s)");
        assert(" more line(s)\n"@ =~= " more line(s)"@ + seq!['\n']);
        assert(more =~= "      "@ + sign + part + seq!['\n']);
        lemma_part_of_itself(part);
        lemma_part_within("      "@ + sign, part, seq!['\n'], part);
        lemma_part_behind(first, more, part);
    }
}

proof fn lemma_edit_lines(sign: Seq<char>, lines: Seq<Seq<char>>, upto: nat, at: int)
    requires
        0 <= at < upto <= lines.len(),
    ensures
        has_part(edit_lines(sign, lines, upto), "      "@ + sign + " "@ + trimmed(lines[at]) + "\n"@),
    decreases upto,
{
    let before = edit_lines(sign, lines, (upto - 1) as nat);
    let own = "      "@ + sign + " "@ + trimmed(lines[upto - 1]) + "\n"@;
    assert(edit_lines(sign, lines, upto) =~= before + own);
    if at == upto - 1 {
        lemma_part_at_the_end(before, own);
    } else {
        lemma_edit_lines(sign, lines, (upto - 1) as nat, at);
        lemma_part_in_front(before, own, "      "@ + sign + " "@ + trimmed(lines[at]) + "\n"@);
    }
}

/// The first divergences are listed with their effect, their position and what they come to, and the
/// rest is counted.
pub proof fn law_divergences_are_listed_or_counted(divergences: Seq<Divergence>, at: int)
    ensures
        0 <= at < divergences.len() && at < 20 ==> has_part(
            divergence_text(divergences),
            "  effect "@ + divergences[at].effect@ + " @ "@ + decimal(divergences[at].position as nat) + ": "@
                + divergences[at].outcome.detail@ + "\n"@,
        ),
        divergences.len() > 20 ==> has_part(
            divergence_text(divergences),
            "  ... and "@ + decimal((divergences.len() - 20) as nat) + " more divergence(s)\n"@,
        ),
        divergences.len() == 0 ==> divergence_text(divergences).len() == 0,
{
    let shown = if divergences.len() < DIVERGENCE_LINES {
        divergences.len()
    } else {
        DIVERGENCE_LINES as nat
    };
    let first = divergence_lines(divergences, shown);
    let more = "  ... and "@ + decimal((divergences.len() - DIVERGENCE_LINES) as nat) + " more divergence(s)\n"@;
    let rest = crate::report::line_if(divergences.len() > DIVERGENCE_LINES, more);
    if 0 <= at < divergences.len() && at < 20 {
        lemma_divergence_lines(divergences, shown, at);
        lemma_part_in_front(first, rest, divergence_line(divergences[at]));
    }
    if divergences.len() > 20 {
        lemma_part_at_the_end(first, more);
    }
}

proof fn lemma_divergence_lines(divergences: Seq<Divergence>, upto: nat, at: int)
    requires
        0 <= at < upto <= divergences.len(),
    ensures
        has_part(divergence_lines(divergences, upto), divergence_line(divergences[at])),
    decreases upto,
{
    let before = divergence_lines(divergences, (upto - 1) as nat);
    let own = divergence_line(divergences[upto - 1]);
    if at == upto - 1 {
        lemma_part_at_the_end(before, own);
    } else {
        lemma_divergence_lines(divergences, (upto - 1) as nat, at);
        lemma_part_in_front(before, own, divergence_line(divergences[at]));
    }
}

/// A guard that is named as a cause is named with every command that changed through it.
pub proof fn law_a_cause_is_named_with_what_changed(name: Seq<char>, commands: Seq<Seq<char>>, at: int)
    requires
        0 <= at < commands.len(),
    ensures
        has_part(cause_text(CauseView::Guard(name, commands)), "`guard "@ + name + "`"@),
        has_part(cause_text(CauseView::Guard(name, commands)), commands[at]),
{
    let list = crate::text::joined(commands, ", "@);
    reveal_strlit("  because `guard ");
    reveal_strlit("  because ");
    reveal_strlit("`guard ");
    reveal_strlit("` changed: ");
    reveal_strlit("`");
    reveal_strlit(" changed: ");
    assert("  because `guard "@ =~= "  because "@ + "`guard "@);
    assert("` changed: "@ =~= "`"@ + " changed: "@);
    lemma_guard_text("  because "@, "`guard "@, name, "`"@, " changed: "@);
    let front = "  because `guard "@ + name + "` changed: "@;
    let part = "`guard "@ + name + "`"@;
    lemma_then_two(front, list, "\n"@, part);
    crate::laws::texts::lemma_joined_part(commands, ", "@, at);
    lemma_part_behind(front, list, commands[at]);
    lemma_part_in_front(front + list, "\n"@, commands[at]);
}

proof fn lemma_guard_text(a: Seq<char>, b: Seq<char>, name: Seq<char>, c: Seq<char>, d: Seq<char>)
    ensures
        has_part((a + b) + name + (c + d), b + name + c),
{
    lemma_part_of_itself(b + name + c);
    lemma_part_within(a, b + name + c, d, b + name + c);
    assert((a + b) + name + (c + d) =~= a + (b + name + c) + d);
}

/// What a replay could not speak for is owned up to: every invocation that was not compared stands in
/// the report with its reason and its number, and what was compared is told apart by whether it
/// reproduces.
pub proof fn law_a_replay_owns_up_to_what_it_did_not_see(coverage: Coverage)
    requires
        coverage.reproduced <= coverage.replayed,
    ensures
        ({
            let text = coverage_text(coverage);
            &&& has_part(
                text,
                decimal(coverage.reproduced as nat) + " reproduce, "@ + decimal(
                    (coverage.replayed - coverage.reproduced) as nat,
                ) + " diverge\n"@,
            )
            &&& coverage.subject_erased > 0 ==> has_part(
                text,
                decimal(coverage.subject_erased as nat) + " invocation(s) whose subject has been erased\n"@,
            )
            &&& coverage.operator_skipped > 0 ==> has_part(
                text,
                decimal(coverage.operator_skipped as nat)
                    + " invocation(s) an operator skipped, which nothing ran to an end\n"@,
            )
            &&& coverage.unreadable > 0 ==> has_part(
                text,
                decimal(coverage.unreadable as nat) + " invocation(s) whose record could not be read\n"@,
            )
            &&& coverage.reclaimed > 0 ==> has_part(
                text,
                decimal(coverage.reclaimed as nat)
                    + " invocation(s) whose record retention reclaimed while this was reading it\n"@,
            )
            &&& coverage.replayed == 0 && coverage.effects_affected > 0 ==> has_part(
                text,
                "this replay concluded nothing: no recorded invocation was compared\n"@,
            )
            &&& coverage.unavailable matches Some(err) ==> has_part(
                text,
                "the replay could not be started, so none of the history was read: "@ + err@ + "\n"@,
            )
        }),
{
    let b0 = "replayed "@ + decimal(coverage.replayed as nat) + " invocation(s) across "@ + decimal(
        coverage.effects_affected as nat,
    ) + " affected effect(s); "@;
    let b = b0 + decimal(coverage.reproduced as nat) + " reproduce, "@ + decimal(
        (coverage.replayed - coverage.reproduced) as nat,
    ) + " diverge\n"@;
    let c = crate::report::line_if(
        coverage.replayed == 0 && coverage.effects_affected > 0,
        "this replay concluded nothing: no recorded invocation was compared\n"@,
    );
    let d = match coverage.unavailable {
        Some(err) => "the replay could not be started, so none of the history was read: "@ + err@ + "\n"@,
        None => Seq::empty(),
    };
    let e = match coverage.unusable_master_key {
        Some(err) => "the configured master key cannot unwrap what is stored: "@ + err@ + "\n"@,
        None => Seq::empty(),
    };
    let f = crate::report::line_if(coverage.no_master_key > 0, crate::report::key_line(coverage));
    let g = counted(
        coverage.subject_erased > 0,
        coverage.subject_erased as nat,
        " invocation(s) whose subject has been erased\n"@,
    );
    let h = counted(
        coverage.no_journal > 0,
        coverage.no_journal as nat,
        " invocation(s) recorded before a skipped run could be told from one that called nothing, that journaled no call\n"@,
    );
    let i = counted(
        coverage.operator_skipped > 0,
        coverage.operator_skipped as nat,
        " invocation(s) an operator skipped, which nothing ran to an end\n"@,
    );
    let j = counted(
        coverage.unreadable > 0,
        coverage.unreadable as nat,
        " invocation(s) whose record could not be read\n"@,
    );
    let k = crate::report::line_if(
        coverage.unreadable_history.len() > 0,
        "history could not be read at all for: "@ + crate::text::joined(
            views(coverage.unreadable_history@),
            ", "@,
        ) + "\n"@,
    );
    let l = counted(
        coverage.reclaimed > 0,
        coverage.reclaimed as nat,
        " invocation(s) whose record retention reclaimed while this was reading it\n"@,
    );
    let m = crate::report::line_if(
        coverage.truncated.len() > 0,
        "capped at the "@ + decimal(coverage.limit as nat) + " most recent invocation(s) of: "@
            + crate::text::joined(views(coverage.truncated@), ", "@) + "\n"@,
    );
    let n = crate::report::line_if(
        coverage.effects_affected > 0,
        crate::report::counted_line(
            "this project retains "@,
            coverage.horizon_days as nat,
            " day(s) of journals; anything older was reclaimed before the replay could see it\n"@,
        ),
    );
    let text = coverage_text(coverage);
    assert(text == b + c + d + e + f + g + h + i + j + k + l + m + n);
    let first = decimal(coverage.reproduced as nat) + " reproduce, "@ + decimal(
        (coverage.replayed - coverage.reproduced) as nat,
    ) + " diverge\n"@;
    lemma_from_four(
        b0,
        decimal(coverage.reproduced as nat),
        " reproduce, "@,
        decimal((coverage.replayed - coverage.reproduced) as nat),
        " diverge\n"@,
    );
    lemma_then_four(b, c, d, e, f, first);
    lemma_then_four(b + c + d + e + f, g, h, i, j, first);
    lemma_then_four(b + c + d + e + f + g + h + i + j, k, l, m, n, first);
    lemma_part_at_the_end(b, c);
    lemma_then_two(b + c, d, e, c);
    lemma_part_in_front(b + c + d + e, f, c);
    lemma_then_four(b + c + d + e + f, g, h, i, j, c);
    lemma_then_four(b + c + d + e + f + g + h + i + j, k, l, m, n, c);
    lemma_part_at_the_end(b + c, d);
    lemma_then_two(b + c + d, e, f, d);
    lemma_then_four(b + c + d + e + f, g, h, i, j, d);
    lemma_then_four(b + c + d + e + f + g + h + i + j, k, l, m, n, d);
    if coverage.subject_erased > 0 {
        let part = decimal(coverage.subject_erased as nat) + " invocation(s) whose subject has been erased\n"@;
        lemma_from(
            "not replayable: "@,
            decimal(coverage.subject_erased as nat),
            " invocation(s) whose subject has been erased\n"@,
        );
        lemma_part_behind(b + c + d + e + f, g, part);
        lemma_part_in_front(b + c + d + e + f + g, h, part);
        lemma_then_two(b + c + d + e + f + g + h, i, j, part);
        lemma_then_four(b + c + d + e + f + g + h + i + j, k, l, m, n, part);
    }
    if coverage.operator_skipped > 0 {
        let part = decimal(coverage.operator_skipped as nat)
            + " invocation(s) an operator skipped, which nothing ran to an end\n"@;
        lemma_from(
            "not replayable: "@,
            decimal(coverage.operator_skipped as nat),
            " invocation(s) an operator skipped, which nothing ran to an end\n"@,
        );
        lemma_part_behind(b + c + d + e + f + g + h, i, part);
        lemma_part_in_front(b + c + d + e + f + g + h + i, j, part);
        lemma_then_four(b + c + d + e + f + g + h + i + j, k, l, m, n, part);
    }
    if coverage.unreadable > 0 {
        let part = decimal(coverage.unreadable as nat) + " invocation(s) whose record could not be read\n"@;
        lemma_from(
            "not replayable: "@,
            decimal(coverage.unreadable as nat),
            " invocation(s) whose record could not be read\n"@,
        );
        lemma_part_behind(b + c + d + e + f + g + h + i, j, part);
        lemma_then_four(b + c + d + e + f + g + h + i + j, k, l, m, n, part);
    }
    if coverage.reclaimed > 0 {
        let part = decimal(coverage.reclaimed as nat)
            + " invocation(s) whose record retention reclaimed while this was reading it\n"@;
        lemma_from(
            "not replayable: "@,
            decimal(coverage.reclaimed as nat),
            " invocation(s) whose record retention reclaimed while this was reading it\n"@,
        );
        lemma_part_behind(b + c + d + e + f + g + h + i + j + k, l, part);
        lemma_then_two(b + c + d + e + f + g + h + i + j + k + l, m, n, part);
    }
}

/// A line on invocations that are not replayable, where there are any.
spec fn counted(any: bool, n: nat, after: Seq<char>) -> Seq<char> {
    crate::report::line_if(any, crate::report::counted_line("not replayable: "@, n, after))
}

// ---------------------------------------------------------------------------
// For a program
// ---------------------------------------------------------------------------

proof fn lemma_change_names()
    ensures
        "kind"@ != "name"@,
        "kind"@ != "verdict"@,
        "kind"@ != "module"@,
        "kind"@ != "before"@,
        "kind"@ != "after"@,
        "kind"@ != "outcome"@,
        "kind"@ != "checkpoint"@,
        "kind"@ != "cause"@,
        "kind"@ != "guard"@,
        "kind"@ != "declarations"@,
        "kind"@ != "removed"@,
        "kind"@ != "added"@,
        "kind"@ != "likely"@,
        "kind"@ != "effect"@,
        "kind"@ != "position"@,
        "kind"@ != "detail"@,
        "kind"@ != "shared_edit"@,
        "kind"@ != "behaviour"@,
        "kind"@ != "contract"@,
        "kind"@ != "resume"@,
        "kind"@ != "fresh"@,
        "kind"@ != "rebuild"@,
        "kind"@ != "stale"@,
        "name"@ != "verdict"@,
        "name"@ != "module"@,
        "name"@ != "before"@,
        "name"@ != "after"@,
        "name"@ != "outcome"@,
        "name"@ != "checkpoint"@,
        "name"@ != "cause"@,
        "name"@ != "guard"@,
        "name"@ != "declarations"@,
        "name"@ != "removed"@,
        "name"@ != "added"@,
        "name"@ != "likely"@,
        "name"@ != "effect"@,
        "name"@ != "position"@,
        "name"@ != "detail"@,
        "name"@ != "shared_edit"@,
        "name"@ != "behaviour"@,
        "name"@ != "contract"@,
        "name"@ != "resume"@,
        "name"@ != "fresh"@,
        "name"@ != "rebuild"@,
        "name"@ != "stale"@,
        "verdict"@ != "module"@,
        "verdict"@ != "before"@,
        "verdict"@ != "after"@,
        "verdict"@ != "outcome"@,
        "verdict"@ != "checkpoint"@,
        "verdict"@ != "cause"@,
        "verdict"@ != "guard"@,
        "verdict"@ != "declarations"@,
        "verdict"@ != "removed"@,
        "verdict"@ != "added"@,
        "verdict"@ != "likely"@,
        "verdict"@ != "effect"@,
        "verdict"@ != "position"@,
        "verdict"@ != "detail"@,
        "verdict"@ != "shared_edit"@,
        "verdict"@ != "behaviour"@,
        "verdict"@ != "contract"@,
        "verdict"@ != "resume"@,
        "verdict"@ != "fresh"@,
        "verdict"@ != "rebuild"@,
        "verdict"@ != "stale"@,
        "module"@ != "before"@,
        "module"@ != "after"@,
        "module"@ != "outcome"@,
        "module"@ != "checkpoint"@,
        "module"@ != "cause"@,
        "module"@ != "guard"@,
        "module"@ != "declarations"@,
        "module"@ != "removed"@,
        "module"@ != "added"@,
        "module"@ != "likely"@,
        "module"@ != "effect"@,
        "module"@ != "position"@,
        "module"@ != "detail"@,
        "module"@ != "shared_edit"@,
        "module"@ != "behaviour"@,
        "module"@ != "contract"@,
        "module"@ != "resume"@,
        "module"@ != "fresh"@,
        "module"@ != "rebuild"@,
        "module"@ != "stale"@,
        "before"@ != "after"@,
        "before"@ != "outcome"@,
        "before"@ != "checkpoint"@,
        "before"@ != "cause"@,
        "before"@ != "guard"@,
        "before"@ != "declarations"@,
        "before"@ != "removed"@,
        "before"@ != "added"@,
        "before"@ != "likely"@,
        "before"@ != "effect"@,
        "before"@ != "position"@,
        "before"@ != "detail"@,
        "before"@ != "shared_edit"@,
        "before"@ != "behaviour"@,
        "before"@ != "contract"@,
        "before"@ != "resume"@,
        "before"@ != "fresh"@,
        "before"@ != "rebuild"@,
        "before"@ != "stale"@,
        "after"@ != "outcome"@,
        "after"@ != "checkpoint"@,
        "after"@ != "cause"@,
        "after"@ != "guard"@,
        "after"@ != "declarations"@,
        "after"@ != "removed"@,
        "after"@ != "added"@,
        "after"@ != "likely"@,
        "after"@ != "effect"@,
        "after"@ != "position"@,
        "after"@ != "detail"@,
        "after"@ != "shared_edit"@,
        "after"@ != "behaviour"@,
        "after"@ != "contract"@,
        "after"@ != "resume"@,
        "after"@ != "fresh"@,
        "after"@ != "rebuild"@,
        "after"@ != "stale"@,
        "outcome"@ != "checkpoint"@,
        "outcome"@ != "cause"@,
        "outcome"@ != "guard"@,
        "outcome"@ != "declarations"@,
        "outcome"@ != "removed"@,
        "outcome"@ != "added"@,
        "outcome"@ != "likely"@,
        "outcome"@ != "effect"@,
        "outcome"@ != "position"@,
        "outcome"@ != "detail"@,
        "outcome"@ != "shared_edit"@,
        "outcome"@ != "behaviour"@,
        "outcome"@ != "contract"@,
        "outcome"@ != "resume"@,
        "outcome"@ != "fresh"@,
        "outcome"@ != "rebuild"@,
        "outcome"@ != "stale"@,
        "checkpoint"@ != "cause"@,
        "checkpoint"@ != "guard"@,
        "checkpoint"@ != "declarations"@,
        "checkpoint"@ != "removed"@,
        "checkpoint"@ != "added"@,
        "checkpoint"@ != "likely"@,
        "checkpoint"@ != "effect"@,
        "checkpoint"@ != "position"@,
        "checkpoint"@ != "detail"@,
        "checkpoint"@ != "shared_edit"@,
        "checkpoint"@ != "behaviour"@,
        "checkpoint"@ != "contract"@,
        "checkpoint"@ != "resume"@,
        "checkpoint"@ != "fresh"@,
        "checkpoint"@ != "rebuild"@,
        "checkpoint"@ != "stale"@,
        "cause"@ != "guard"@,
        "cause"@ != "declarations"@,
        "cause"@ != "removed"@,
        "cause"@ != "added"@,
        "cause"@ != "likely"@,
        "cause"@ != "effect"@,
        "cause"@ != "position"@,
        "cause"@ != "detail"@,
        "cause"@ != "shared_edit"@,
        "cause"@ != "behaviour"@,
        "cause"@ != "contract"@,
        "cause"@ != "resume"@,
        "cause"@ != "fresh"@,
        "cause"@ != "rebuild"@,
        "cause"@ != "stale"@,
        "guard"@ != "declarations"@,
        "guard"@ != "removed"@,
        "guard"@ != "added"@,
        "guard"@ != "likely"@,
        "guard"@ != "effect"@,
        "guard"@ != "position"@,
        "guard"@ != "detail"@,
        "guard"@ != "shared_edit"@,
        "guard"@ != "behaviour"@,
        "guard"@ != "contract"@,
        "guard"@ != "resume"@,
        "guard"@ != "fresh"@,
        "guard"@ != "rebuild"@,
        "guard"@ != "stale"@,
        "declarations"@ != "removed"@,
        "declarations"@ != "added"@,
        "declarations"@ != "likely"@,
        "declarations"@ != "effect"@,
        "declarations"@ != "position"@,
        "declarations"@ != "detail"@,
        "declarations"@ != "shared_edit"@,
        "declarations"@ != "behaviour"@,
        "declarations"@ != "contract"@,
        "declarations"@ != "resume"@,
        "declarations"@ != "fresh"@,
        "declarations"@ != "rebuild"@,
        "declarations"@ != "stale"@,
        "removed"@ != "added"@,
        "removed"@ != "likely"@,
        "removed"@ != "effect"@,
        "removed"@ != "position"@,
        "removed"@ != "detail"@,
        "removed"@ != "shared_edit"@,
        "removed"@ != "behaviour"@,
        "removed"@ != "contract"@,
        "removed"@ != "resume"@,
        "removed"@ != "fresh"@,
        "removed"@ != "rebuild"@,
        "removed"@ != "stale"@,
        "added"@ != "likely"@,
        "added"@ != "effect"@,
        "added"@ != "position"@,
        "added"@ != "detail"@,
        "added"@ != "shared_edit"@,
        "added"@ != "behaviour"@,
        "added"@ != "contract"@,
        "added"@ != "resume"@,
        "added"@ != "fresh"@,
        "added"@ != "rebuild"@,
        "added"@ != "stale"@,
        "likely"@ != "effect"@,
        "likely"@ != "position"@,
        "likely"@ != "detail"@,
        "likely"@ != "shared_edit"@,
        "likely"@ != "behaviour"@,
        "likely"@ != "contract"@,
        "likely"@ != "resume"@,
        "likely"@ != "fresh"@,
        "likely"@ != "rebuild"@,
        "likely"@ != "stale"@,
        "effect"@ != "position"@,
        "effect"@ != "detail"@,
        "effect"@ != "shared_edit"@,
        "effect"@ != "behaviour"@,
        "effect"@ != "contract"@,
        "effect"@ != "resume"@,
        "effect"@ != "fresh"@,
        "effect"@ != "rebuild"@,
        "effect"@ != "stale"@,
        "position"@ != "detail"@,
        "position"@ != "shared_edit"@,
        "position"@ != "behaviour"@,
        "position"@ != "contract"@,
        "position"@ != "resume"@,
        "position"@ != "fresh"@,
        "position"@ != "rebuild"@,
        "position"@ != "stale"@,
        "detail"@ != "shared_edit"@,
        "detail"@ != "behaviour"@,
        "detail"@ != "contract"@,
        "detail"@ != "resume"@,
        "detail"@ != "fresh"@,
        "detail"@ != "rebuild"@,
        "detail"@ != "stale"@,
        "shared_edit"@ != "behaviour"@,
        "shared_edit"@ != "contract"@,
        "shared_edit"@ != "resume"@,
        "shared_edit"@ != "fresh"@,
        "shared_edit"@ != "rebuild"@,
        "shared_edit"@ != "stale"@,
        "behaviour"@ != "contract"@,
        "behaviour"@ != "resume"@,
        "behaviour"@ != "fresh"@,
        "behaviour"@ != "rebuild"@,
        "behaviour"@ != "stale"@,
        "contract"@ != "resume"@,
        "contract"@ != "fresh"@,
        "contract"@ != "rebuild"@,
        "contract"@ != "stale"@,
        "resume"@ != "fresh"@,
        "resume"@ != "rebuild"@,
        "resume"@ != "stale"@,
        "fresh"@ != "rebuild"@,
        "fresh"@ != "stale"@,
        "rebuild"@ != "stale"@,
{
    reveal_strlit("kind");
    reveal_strlit("name");
    reveal_strlit("verdict");
    reveal_strlit("module");
    reveal_strlit("before");
    reveal_strlit("after");
    reveal_strlit("outcome");
    reveal_strlit("checkpoint");
    reveal_strlit("cause");
    reveal_strlit("guard");
    reveal_strlit("declarations");
    reveal_strlit("removed");
    reveal_strlit("added");
    reveal_strlit("likely");
    reveal_strlit("effect");
    reveal_strlit("position");
    reveal_strlit("detail");
    reveal_strlit("shared_edit");
    reveal_strlit("behaviour");
    reveal_strlit("contract");
    reveal_strlit("resume");
    reveal_strlit("fresh");
    reveal_strlit("rebuild");
    reveal_strlit("stale");
    assert("kind"@.len() == 4);
    assert("name"@.len() == 4);
    assert("verdict"@.len() == 7);
    assert("module"@.len() == 6);
    assert("before"@.len() == 6);
    assert("after"@.len() == 5);
    assert("outcome"@.len() == 7);
    assert("checkpoint"@.len() == 10);
    assert("cause"@.len() == 5);
    assert("guard"@.len() == 5);
    assert("declarations"@.len() == 12);
    assert("removed"@.len() == 7);
    assert("added"@.len() == 5);
    assert("likely"@.len() == 6);
    assert("effect"@.len() == 6);
    assert("position"@.len() == 8);
    assert("detail"@.len() == 6);
    assert("shared_edit"@.len() == 11);
    assert("behaviour"@.len() == 9);
    assert("contract"@.len() == 8);
    assert("resume"@.len() == 6);
    assert("fresh"@.len() == 5);
    assert("rebuild"@.len() == 7);
    assert("stale"@.len() == 5);
    assert("kind"@[0] == 'k');
    assert("name"@[0] == 'n');
    assert("verdict"@[0] == 'v');
    assert("outcome"@[0] == 'o');
    assert("removed"@[0] == 'r');
    assert("rebuild"@[0] == 'r');
    assert("module"@[0] == 'm');
    assert("before"@[0] == 'b');
    assert("likely"@[0] == 'l');
    assert("effect"@[0] == 'e');
    assert("detail"@[0] == 'd');
    assert("resume"@[0] == 'r');
    assert("after"@[0] == 'a');
    assert("cause"@[0] == 'c');
    assert("guard"@[0] == 'g');
    assert("after"@[1] == 'f');
    assert("added"@[1] == 'd');
    assert("fresh"@[0] == 'f');
    assert("stale"@[0] == 's');
    assert("added"@[0] == 'a');
    assert("removed"@[2] == 'm');
    assert("rebuild"@[2] == 'b');
    assert("position"@[0] == 'p');
    assert("contract"@[0] == 'c');
}

/// A program reads of a change what it is of, what the verdict is, and both of its forms.
pub proof fn law_a_change_is_written_out(change: Change)
    ensures
        ({
            let json = change_json(change);
            &&& json.member("kind"@) == Some(JsonView::Text(kind_name(change.kind)))
            &&& json.member("name"@) == Some(JsonView::Text(change.name@))
            &&& json.member("verdict"@) == Some(JsonView::Text(verdict_label(change.verdict)))
            &&& change.module matches Some(module) ==> json.member("module"@) == Some(JsonView::Text(module@))
            &&& change.before matches Some(form) ==> json.member("before"@) == Some(JsonView::Text(form@))
            &&& change.before is None ==> json.member("before"@) == Some(JsonView::Null)
            &&& change.after matches Some(form) ==> json.member("after"@) == Some(JsonView::Text(form@))
            &&& change.after is None ==> json.member("after"@) == Some(JsonView::Null)
        }),
{
    lemma_change_names();
}

/// Verdicts and outcomes have words of their own.
pub proof fn law_verdicts_and_outcomes_are_told_apart(a: Verdict, b: Verdict, c: Rebuild, d: Rebuild)
    ensures
        verdict_label(a) == verdict_label(b) <==> a == b,
        rebuild_label(c) == rebuild_label(d) <==> c == d,
{
    lemma_change_names();
}

/// A program reads of a forecast, of a divergence and of a cause what they are of.
pub proof fn law_a_finding_is_written_out(
    forecast: Forecast,
    divergence: Divergence,
    name: Seq<char>,
    list: Seq<Seq<char>>,
    edit: (Seq<Seq<char>>, Seq<Seq<char>>),
    likely: Option<Seq<char>>,
)
    ensures
        ({
            let json = forecast_json(forecast);
            &&& json.member("name"@) == Some(JsonView::Text(forecast.name@))
            &&& json.member("outcome"@) == Some(JsonView::Text(rebuild_label(forecast.outcome)))
            &&& json.member("checkpoint"@) == Some(JsonView::Int(forecast.checkpoint as int))
        }),
        ({
            let json = divergence_json(divergence);
            &&& json.member("effect"@) == Some(JsonView::Text(divergence.effect@))
            &&& json.member("position"@) == Some(JsonView::Int(divergence.position as int))
            &&& json.member("outcome"@) == Some(JsonView::Text(divergence.outcome.label@))
            &&& json.member("detail"@) == Some(JsonView::Text(divergence.outcome.detail@))
        }),
        ({
            let json = cause_json(CauseView::Guard(name, list));
            &&& json.member("cause"@) == Some(JsonView::Text("guard"@))
            &&& json.member("guard"@) == Some(JsonView::Text(name))
            &&& json.member("declarations"@) == Some(JsonView::texts(list))
        }),
        ({
            let json = cause_json(CauseView::SharedEdit(edit, list, likely));
            &&& json.member("cause"@) == Some(JsonView::Text("shared_edit"@))
            &&& json.member("removed"@) == Some(JsonView::texts(edit.0))
            &&& json.member("added"@) == Some(JsonView::texts(edit.1))
            &&& json.member("declarations"@) == Some(JsonView::texts(list))
            &&& likely matches Some(one) ==> json.member("likely"@) == Some(JsonView::Text(one))
            &&& likely is None ==> json.member("likely"@) == Some(JsonView::Null)
        }),
{
    lemma_change_names();
}

proof fn lemma_plan_names()
    ensures
        "declarations_compared"@ != "digest_version_mismatch"@,
        "declarations_compared"@ != "changes"@,
        "declarations_compared"@ != "projectors"@,
        "declarations_compared"@ != "causes"@,
        "declarations_compared"@ != "divergences"@,
        "declarations_compared"@ != "coverage"@,
        "declarations_compared"@ != "effects_affected"@,
        "declarations_compared"@ != "replayed"@,
        "declarations_compared"@ != "reproduced"@,
        "declarations_compared"@ != "subject_erased"@,
        "declarations_compared"@ != "no_journal"@,
        "declarations_compared"@ != "operator_skipped"@,
        "declarations_compared"@ != "unreadable"@,
        "declarations_compared"@ != "unreadable_history"@,
        "declarations_compared"@ != "reclaimed"@,
        "declarations_compared"@ != "no_master_key"@,
        "declarations_compared"@ != "unusable_master_key"@,
        "declarations_compared"@ != "unavailable"@,
        "declarations_compared"@ != "truncated"@,
        "declarations_compared"@ != "limit"@,
        "declarations_compared"@ != "horizon_days"@,
        "declarations_compared"@ != "blind"@,
        "digest_version_mismatch"@ != "changes"@,
        "digest_version_mismatch"@ != "projectors"@,
        "digest_version_mismatch"@ != "causes"@,
        "digest_version_mismatch"@ != "divergences"@,
        "digest_version_mismatch"@ != "coverage"@,
        "digest_version_mismatch"@ != "effects_affected"@,
        "digest_version_mismatch"@ != "replayed"@,
        "digest_version_mismatch"@ != "reproduced"@,
        "digest_version_mismatch"@ != "subject_erased"@,
        "digest_version_mismatch"@ != "no_journal"@,
        "digest_version_mismatch"@ != "operator_skipped"@,
        "digest_version_mismatch"@ != "unreadable"@,
        "digest_version_mismatch"@ != "unreadable_history"@,
        "digest_version_mismatch"@ != "reclaimed"@,
        "digest_version_mismatch"@ != "no_master_key"@,
        "digest_version_mismatch"@ != "unusable_master_key"@,
        "digest_version_mismatch"@ != "unavailable"@,
        "digest_version_mismatch"@ != "truncated"@,
        "digest_version_mismatch"@ != "limit"@,
        "digest_version_mismatch"@ != "horizon_days"@,
        "digest_version_mismatch"@ != "blind"@,
        "changes"@ != "projectors"@,
        "changes"@ != "causes"@,
        "changes"@ != "divergences"@,
        "changes"@ != "coverage"@,
        "changes"@ != "effects_affected"@,
        "changes"@ != "replayed"@,
        "changes"@ != "reproduced"@,
        "changes"@ != "subject_erased"@,
        "changes"@ != "no_journal"@,
        "changes"@ != "operator_skipped"@,
        "changes"@ != "unreadable"@,
        "changes"@ != "unreadable_history"@,
        "changes"@ != "reclaimed"@,
        "changes"@ != "no_master_key"@,
        "changes"@ != "unusable_master_key"@,
        "changes"@ != "unavailable"@,
        "changes"@ != "truncated"@,
        "changes"@ != "limit"@,
        "changes"@ != "horizon_days"@,
        "changes"@ != "blind"@,
        "projectors"@ != "causes"@,
        "projectors"@ != "divergences"@,
        "projectors"@ != "coverage"@,
        "projectors"@ != "effects_affected"@,
        "projectors"@ != "replayed"@,
        "projectors"@ != "reproduced"@,
        "projectors"@ != "subject_erased"@,
        "projectors"@ != "no_journal"@,
        "projectors"@ != "operator_skipped"@,
        "projectors"@ != "unreadable"@,
        "projectors"@ != "unreadable_history"@,
        "projectors"@ != "reclaimed"@,
        "projectors"@ != "no_master_key"@,
        "projectors"@ != "unusable_master_key"@,
        "projectors"@ != "unavailable"@,
        "projectors"@ != "truncated"@,
        "projectors"@ != "limit"@,
        "projectors"@ != "horizon_days"@,
        "projectors"@ != "blind"@,
        "causes"@ != "divergences"@,
        "causes"@ != "coverage"@,
        "causes"@ != "effects_affected"@,
        "causes"@ != "replayed"@,
        "causes"@ != "reproduced"@,
        "causes"@ != "subject_erased"@,
        "causes"@ != "no_journal"@,
        "causes"@ != "operator_skipped"@,
        "causes"@ != "unreadable"@,
        "causes"@ != "unreadable_history"@,
        "causes"@ != "reclaimed"@,
        "causes"@ != "no_master_key"@,
        "causes"@ != "unusable_master_key"@,
        "causes"@ != "unavailable"@,
        "causes"@ != "truncated"@,
        "causes"@ != "limit"@,
        "causes"@ != "horizon_days"@,
        "causes"@ != "blind"@,
        "divergences"@ != "coverage"@,
        "divergences"@ != "effects_affected"@,
        "divergences"@ != "replayed"@,
        "divergences"@ != "reproduced"@,
        "divergences"@ != "subject_erased"@,
        "divergences"@ != "no_journal"@,
        "divergences"@ != "operator_skipped"@,
        "divergences"@ != "unreadable"@,
        "divergences"@ != "unreadable_history"@,
        "divergences"@ != "reclaimed"@,
        "divergences"@ != "no_master_key"@,
        "divergences"@ != "unusable_master_key"@,
        "divergences"@ != "unavailable"@,
        "divergences"@ != "truncated"@,
        "divergences"@ != "limit"@,
        "divergences"@ != "horizon_days"@,
        "divergences"@ != "blind"@,
        "coverage"@ != "effects_affected"@,
        "coverage"@ != "replayed"@,
        "coverage"@ != "reproduced"@,
        "coverage"@ != "subject_erased"@,
        "coverage"@ != "no_journal"@,
        "coverage"@ != "operator_skipped"@,
        "coverage"@ != "unreadable"@,
        "coverage"@ != "unreadable_history"@,
        "coverage"@ != "reclaimed"@,
        "coverage"@ != "no_master_key"@,
        "coverage"@ != "unusable_master_key"@,
        "coverage"@ != "unavailable"@,
        "coverage"@ != "truncated"@,
        "coverage"@ != "limit"@,
        "coverage"@ != "horizon_days"@,
        "coverage"@ != "blind"@,
        "effects_affected"@ != "replayed"@,
        "effects_affected"@ != "reproduced"@,
        "effects_affected"@ != "subject_erased"@,
        "effects_affected"@ != "no_journal"@,
        "effects_affected"@ != "operator_skipped"@,
        "effects_affected"@ != "unreadable"@,
        "effects_affected"@ != "unreadable_history"@,
        "effects_affected"@ != "reclaimed"@,
        "effects_affected"@ != "no_master_key"@,
        "effects_affected"@ != "unusable_master_key"@,
        "effects_affected"@ != "unavailable"@,
        "effects_affected"@ != "truncated"@,
        "effects_affected"@ != "limit"@,
        "effects_affected"@ != "horizon_days"@,
        "effects_affected"@ != "blind"@,
        "replayed"@ != "reproduced"@,
        "replayed"@ != "subject_erased"@,
        "replayed"@ != "no_journal"@,
        "replayed"@ != "operator_skipped"@,
        "replayed"@ != "unreadable"@,
        "replayed"@ != "unreadable_history"@,
        "replayed"@ != "reclaimed"@,
        "replayed"@ != "no_master_key"@,
        "replayed"@ != "unusable_master_key"@,
        "replayed"@ != "unavailable"@,
        "replayed"@ != "truncated"@,
        "replayed"@ != "limit"@,
        "replayed"@ != "horizon_days"@,
        "replayed"@ != "blind"@,
        "reproduced"@ != "subject_erased"@,
        "reproduced"@ != "no_journal"@,
        "reproduced"@ != "operator_skipped"@,
        "reproduced"@ != "unreadable"@,
        "reproduced"@ != "unreadable_history"@,
        "reproduced"@ != "reclaimed"@,
        "reproduced"@ != "no_master_key"@,
        "reproduced"@ != "unusable_master_key"@,
        "reproduced"@ != "unavailable"@,
        "reproduced"@ != "truncated"@,
        "reproduced"@ != "limit"@,
        "reproduced"@ != "horizon_days"@,
        "reproduced"@ != "blind"@,
        "subject_erased"@ != "no_journal"@,
        "subject_erased"@ != "operator_skipped"@,
        "subject_erased"@ != "unreadable"@,
        "subject_erased"@ != "unreadable_history"@,
        "subject_erased"@ != "reclaimed"@,
        "subject_erased"@ != "no_master_key"@,
        "subject_erased"@ != "unusable_master_key"@,
        "subject_erased"@ != "unavailable"@,
        "subject_erased"@ != "truncated"@,
        "subject_erased"@ != "limit"@,
        "subject_erased"@ != "horizon_days"@,
        "subject_erased"@ != "blind"@,
        "no_journal"@ != "operator_skipped"@,
        "no_journal"@ != "unreadable"@,
        "no_journal"@ != "unreadable_history"@,
        "no_journal"@ != "reclaimed"@,
        "no_journal"@ != "no_master_key"@,
        "no_journal"@ != "unusable_master_key"@,
        "no_journal"@ != "unavailable"@,
        "no_journal"@ != "truncated"@,
        "no_journal"@ != "limit"@,
        "no_journal"@ != "horizon_days"@,
        "no_journal"@ != "blind"@,
        "operator_skipped"@ != "unreadable"@,
        "operator_skipped"@ != "unreadable_history"@,
        "operator_skipped"@ != "reclaimed"@,
        "operator_skipped"@ != "no_master_key"@,
        "operator_skipped"@ != "unusable_master_key"@,
        "operator_skipped"@ != "unavailable"@,
        "operator_skipped"@ != "truncated"@,
        "operator_skipped"@ != "limit"@,
        "operator_skipped"@ != "horizon_days"@,
        "operator_skipped"@ != "blind"@,
        "unreadable"@ != "unreadable_history"@,
        "unreadable"@ != "reclaimed"@,
        "unreadable"@ != "no_master_key"@,
        "unreadable"@ != "unusable_master_key"@,
        "unreadable"@ != "unavailable"@,
        "unreadable"@ != "truncated"@,
        "unreadable"@ != "limit"@,
        "unreadable"@ != "horizon_days"@,
        "unreadable"@ != "blind"@,
        "unreadable_history"@ != "reclaimed"@,
        "unreadable_history"@ != "no_master_key"@,
        "unreadable_history"@ != "unusable_master_key"@,
        "unreadable_history"@ != "unavailable"@,
        "unreadable_history"@ != "truncated"@,
        "unreadable_history"@ != "limit"@,
        "unreadable_history"@ != "horizon_days"@,
        "unreadable_history"@ != "blind"@,
        "reclaimed"@ != "no_master_key"@,
        "reclaimed"@ != "unusable_master_key"@,
        "reclaimed"@ != "unavailable"@,
        "reclaimed"@ != "truncated"@,
        "reclaimed"@ != "limit"@,
        "reclaimed"@ != "horizon_days"@,
        "reclaimed"@ != "blind"@,
        "no_master_key"@ != "unusable_master_key"@,
        "no_master_key"@ != "unavailable"@,
        "no_master_key"@ != "truncated"@,
        "no_master_key"@ != "limit"@,
        "no_master_key"@ != "horizon_days"@,
        "no_master_key"@ != "blind"@,
        "unusable_master_key"@ != "unavailable"@,
        "unusable_master_key"@ != "truncated"@,
        "unusable_master_key"@ != "limit"@,
        "unusable_master_key"@ != "horizon_days"@,
        "unusable_master_key"@ != "blind"@,
        "unavailable"@ != "truncated"@,
        "unavailable"@ != "limit"@,
        "unavailable"@ != "horizon_days"@,
        "unavailable"@ != "blind"@,
        "truncated"@ != "limit"@,
        "truncated"@ != "horizon_days"@,
        "truncated"@ != "blind"@,
        "limit"@ != "horizon_days"@,
        "limit"@ != "blind"@,
        "horizon_days"@ != "blind"@,
{
    reveal_strlit("declarations_compared");
    reveal_strlit("digest_version_mismatch");
    reveal_strlit("changes");
    reveal_strlit("projectors");
    reveal_strlit("causes");
    reveal_strlit("divergences");
    reveal_strlit("coverage");
    reveal_strlit("effects_affected");
    reveal_strlit("replayed");
    reveal_strlit("reproduced");
    reveal_strlit("subject_erased");
    reveal_strlit("no_journal");
    reveal_strlit("operator_skipped");
    reveal_strlit("unreadable");
    reveal_strlit("unreadable_history");
    reveal_strlit("reclaimed");
    reveal_strlit("no_master_key");
    reveal_strlit("unusable_master_key");
    reveal_strlit("unavailable");
    reveal_strlit("truncated");
    reveal_strlit("limit");
    reveal_strlit("horizon_days");
    reveal_strlit("blind");
    assert("declarations_compared"@.len() == 21);
    assert("digest_version_mismatch"@.len() == 23);
    assert("changes"@.len() == 7);
    assert("projectors"@.len() == 10);
    assert("causes"@.len() == 6);
    assert("divergences"@.len() == 11);
    assert("coverage"@.len() == 8);
    assert("effects_affected"@.len() == 16);
    assert("replayed"@.len() == 8);
    assert("reproduced"@.len() == 10);
    assert("subject_erased"@.len() == 14);
    assert("no_journal"@.len() == 10);
    assert("operator_skipped"@.len() == 16);
    assert("unreadable"@.len() == 10);
    assert("unreadable_history"@.len() == 18);
    assert("reclaimed"@.len() == 9);
    assert("no_master_key"@.len() == 13);
    assert("unusable_master_key"@.len() == 19);
    assert("unavailable"@.len() == 11);
    assert("truncated"@.len() == 9);
    assert("limit"@.len() == 5);
    assert("horizon_days"@.len() == 12);
    assert("blind"@.len() == 5);
    assert("projectors"@[0] == 'p');
    assert("reproduced"@[0] == 'r');
    assert("no_journal"@[0] == 'n');
    assert("unreadable"@[0] == 'u');
    assert("divergences"@[0] == 'd');
    assert("unavailable"@[0] == 'u');
    assert("coverage"@[0] == 'c');
    assert("replayed"@[0] == 'r');
    assert("effects_affected"@[0] == 'e');
    assert("operator_skipped"@[0] == 'o');
    assert("reclaimed"@[0] == 'r');
    assert("truncated"@[0] == 't');
    assert("limit"@[0] == 'l');
    assert("blind"@[0] == 'b');
}

/// A program reads of a replay each of its counts under its own name, and whether it compared nothing.
pub proof fn law_a_coverage_is_written_out(coverage: Coverage)
    ensures
        ({
            let json = coverage_json(coverage);
            &&& json.member("effects_affected"@) == Some(JsonView::Int(coverage.effects_affected as int))
            &&& json.member("replayed"@) == Some(JsonView::Int(coverage.replayed as int))
            &&& json.member("reproduced"@) == Some(JsonView::Int(coverage.reproduced as int))
            &&& json.member("subject_erased"@) == Some(JsonView::Int(coverage.subject_erased as int))
            &&& json.member("no_journal"@) == Some(JsonView::Int(coverage.no_journal as int))
            &&& json.member("operator_skipped"@) == Some(JsonView::Int(coverage.operator_skipped as int))
            &&& json.member("unreadable"@) == Some(JsonView::Int(coverage.unreadable as int))
            &&& json.member("reclaimed"@) == Some(JsonView::Int(coverage.reclaimed as int))
            &&& json.member("no_master_key"@) == Some(JsonView::Int(coverage.no_master_key as int))
            &&& json.member("limit"@) == Some(JsonView::Int(coverage.limit as int))
            &&& json.member("horizon_days"@) == Some(JsonView::Int(coverage.horizon_days as int))
            &&& json.member("blind"@) == Some(JsonView::Bool(true)) <==> coverage.replayed == 0
            &&& json.member("truncated"@) == Some(JsonView::texts(views(coverage.truncated@)))
            &&& json.member("unreadable_history"@) == Some(JsonView::texts(views(coverage.unreadable_history@)))
        }),
{
    lemma_plan_names();
}

/// A program reads of a plan everything that it holds, each in its place. Where no replay was asked
/// for there is a null in place of its findings, and not an empty list.
pub proof fn law_a_plan_is_written_out(plan: Plan)
    ensures
        ({
            let json = plan_json(plan);
            &&& json.member("declarations_compared"@) == Some(JsonView::Int(plan.declarations_compared as int))
            &&& json.member("digest_version_mismatch"@) == Some(JsonView::Bool(plan.digest_version_mismatch))
            &&& json.member("changes"@) matches Some(JsonView::Array(list)) && list.len() == plan.changes.len()
                && forall|i: int|
                0 <= i < plan.changes.len() ==> #[trigger] list[i] == change_json(plan.changes@[i])
            &&& json.member("projectors"@) matches Some(JsonView::Array(list)) && list.len()
                == plan.projectors.len() && forall|i: int|
                0 <= i < plan.projectors.len() ==> #[trigger] list[i] == forecast_json(plan.projectors@[i])
            &&& json.member("causes"@) matches Some(JsonView::Array(list)) && list.len() == plan.causes.len()
                && forall|i: int|
                0 <= i < plan.causes.len() ==> #[trigger] list[i] == cause_json(
                    crate::plan::cause_view(plan.causes@[i]),
                )
            &&& plan.coverage matches Some(coverage) ==> json.member("coverage"@) == Some(coverage_json(coverage))
                && (json.member("divergences"@) matches Some(JsonView::Array(list)) && list.len()
                == plan.divergences.len() && forall|i: int|
                0 <= i < plan.divergences.len() ==> #[trigger] list[i] == divergence_json(plan.divergences@[i]))
            &&& plan.coverage is None ==> json.member("coverage"@) == Some(JsonView::Null) && json.member(
                "divergences"@,
            ) == Some(JsonView::Null)
        }),
{
    lemma_plan_names();
}

/// A data directory of another version is refused with both versions.
pub proof fn law_another_version_is_named(recorded: i64)
    ensures
        has_part(version_message(recorded), signed_decimal(recorded as int)),
        has_part(version_message(recorded), signed_decimal(crate::opdb::SCHEMA_VERSION as int)),
{
    let was = signed_decimal(recorded as int);
    let now = signed_decimal(crate::opdb::SCHEMA_VERSION as int);
    let a = "the data directory is at schema version "@ + was;
    let b = a + " and this build expects "@;
    let end =
        "; run `hekla serve` against it once to migrate, or plan against a directory this build wrote"@;
    lemma_part_of_itself(was);
    lemma_part_behind("the data directory is at schema version "@, was, was);
    lemma_part_in_front(a, " and this build expects "@, was);
    lemma_part_in_front(b, now, was);
    lemma_part_in_front(b + now, end, was);
    lemma_part_of_itself(now);
    lemma_part_behind(b, now, now);
    lemma_part_in_front(b + now, end, now);
}

} // verus!
