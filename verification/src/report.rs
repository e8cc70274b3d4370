//! A plan as a reader sees it: as text for a terminal, and as JSON for a gate.

use vstd::prelude::*;

use crate::digest::kind_name;
use crate::json::{items_view, json_view, lemma_items, Json, JsonView};
use crate::opdb::SCHEMA_VERSION;
use crate::plan::{
    attribute, attributed, cause_view, cause_views, verdict_label, Cause, CauseView, Change, Diff,
    Forecast, Rebuild, Verdict,
};
use crate::program::Program;
use crate::replay::{is_untouched, Coverage, Divergence, Replay};
use crate::text::{
    count, decimal, join, join3, joined, number, option_view, signed_decimal, signed_number, trim, trimmed,
    views,
};

verus! {

/// What deploying a project over a data directory would change.
///
/// `declarations_compared` is part of the result: a plan with no changes and nothing
/// compared is a directory that has never been deployed to.
pub struct Plan {
    pub changes: Vec<Change>,
    pub projectors: Vec<Forecast>,
    pub causes: Vec<Cause>,
    pub declarations_compared: usize,
    /// The deployment was written under another version of the digest, so nothing here is
    /// comparable.
    pub digest_version_mismatch: bool,
    /// Recorded invocations that the candidate would not reproduce. Empty unless a replay
    /// was asked for.
    pub divergences: Vec<Divergence>,
    /// How much history the replay spoke for. Absent where none was asked for.
    pub coverage: Option<Coverage>,
}

/// How many diverging invocations the report names before it sums up the rest.
pub const DIVERGENCE_LINES: usize = 20;

/// How many lines of one side of an edit the report prints before it sums up the rest.
pub const EDIT_LINES: usize = 3;

// ---------------------------------------------------------------------------
// Counting
// ---------------------------------------------------------------------------

/// How many changes have a verdict.
pub open spec fn verdicts(changes: Seq<Change>, verdict: Verdict) -> nat
    decreases changes.len(),
{
    if changes.len() == 0 {
        0
    } else {
        verdicts(changes.drop_last(), verdict) + if changes.last().verdict == verdict {
            1nat
        } else {
            0nat
        }
    }
}

/// How many projectors would build from the start of the log.
pub open spec fn rebuilds(projectors: Seq<Forecast>) -> nat
    decreases projectors.len(),
{
    if projectors.len() == 0 {
        0
    } else {
        rebuilds(projectors.drop_last()) + if projectors.last().outcome == Rebuild::Rebuild
            || projectors.last().outcome == Rebuild::Fresh {
            1nat
        } else {
            0nat
        }
    }
}

proof fn lemma_verdicts_bound(changes: Seq<Change>, a: Verdict, b: Verdict)
    requires
        a != b,
    ensures
        verdicts(changes, a) + verdicts(changes, b) <= changes.len(),
    decreases changes.len(),
{
    if changes.len() > 0 {
        lemma_verdicts_bound(changes.drop_last(), a, b);
    }
}

/// Whether deploying would change nothing at all.
pub open spec fn changes_nothing(plan: Plan) -> bool {
    &&& plan.changes.len() == 0
    &&& plan.divergences.len() == 0
    &&& forall|i: int|
        0 <= i < plan.projectors.len() ==> (#[trigger] plan.projectors@[i]).outcome
            == Rebuild::Resume
}

// ---------------------------------------------------------------------------
// The lines of the report
// ---------------------------------------------------------------------------

/// A line that is there or not.
pub open spec fn line_if(shown: bool, line: Seq<char>) -> Seq<char> {
    if shown {
        line
    } else {
        Seq::empty()
    }
}

/// A verdict filled up to the width of the longest.
pub open spec fn verdict_column(verdict: Verdict) -> Seq<char> {
    match verdict {
        Verdict::Added => "added    "@,
        Verdict::Removed => "removed  "@,
        Verdict::Behaviour => "behaviour"@,
        Verdict::Contract => "contract "@,
    }
}

pub open spec fn change_line(change: Change) -> Seq<char> {
    "  "@ + verdict_column(change.verdict) + " "@ + kind_name(change.kind) + " "@ + change.name@
        + " ("@ + (match change.module {
        Some(module) => module@,
        None => "no module"@,
    }) + ")\n"@
}

pub open spec fn change_lines(changes: Seq<Change>) -> Seq<char>
    decreases changes.len(),
{
    if changes.len() == 0 {
        Seq::empty()
    } else {
        change_lines(changes.drop_last()) + change_line(changes.last())
    }
}

pub open spec fn forecast_line(forecast: Forecast) -> Seq<char> {
    match forecast.outcome {
        Rebuild::Resume => Seq::empty(),
        Rebuild::Fresh => "  projector "@ + forecast.name@ + " builds from the start of the log\n"@,
        Rebuild::Rebuild => "  projector "@ + forecast.name@ + " rebuilds from zero, redoing "@
            + decimal(forecast.checkpoint as nat) + " position(s)\n"@,
        Rebuild::Stale => "  projector "@ + forecast.name@
            + " goes stale: auto_rebuild is off, so it serves rows the old logic built until it is replayed\n"@,
    }
}

pub open spec fn forecast_lines(projectors: Seq<Forecast>) -> Seq<char>
    decreases projectors.len(),
{
    if projectors.len() == 0 {
        Seq::empty()
    } else {
        forecast_lines(projectors.drop_last()) + forecast_line(projectors.last())
    }
}

/// The first lines of one side of an edit.
pub open spec fn edit_lines(sign: Seq<char>, lines: Seq<Seq<char>>, upto: nat) -> Seq<char>
    decreases upto,
{
    if upto == 0 {
        Seq::empty()
    } else {
        edit_lines(sign, lines, (upto - 1) as nat) + "      "@ + sign + " "@ + trimmed(lines[upto - 1])
            + "\n"@
    }
}

/// One side of an edit: its first lines, and how many more there are.
pub open spec fn edit_side(sign: Seq<char>, lines: Seq<Seq<char>>) -> Seq<char> {
    edit_lines(
        sign,
        lines,
        if lines.len() < EDIT_LINES {
            lines.len()
        } else {
            EDIT_LINES as nat
        },
    ) + line_if(
        lines.len() > EDIT_LINES,
        "      "@ + sign + " ... and "@ + decimal((lines.len() - EDIT_LINES) as nat)
            + " more line(s)\n"@,
    )
}

pub open spec fn cause_text(cause: CauseView) -> Seq<char> {
    match cause {
        CauseView::Guard(name, commands) => "  because `guard "@ + name + "` changed: "@ + joined(
            commands,
            ", "@,
        ) + "\n"@,
        CauseView::SharedEdit(edit, declarations, likely) => "  the same edit in "@ + decimal(
            declarations.len(),
        ) + " declaration(s)"@ + (match likely {
            Some(name) => ", likely `"@ + name + "`"@,
            None => Seq::empty(),
        }) + ": "@ + joined(declarations, ", "@) + "\n"@ + edit_side("-"@, edit.0) + edit_side(
            "+"@,
            edit.1,
        ),
    }
}

pub open spec fn cause_texts(causes: Seq<CauseView>) -> Seq<char>
    decreases causes.len(),
{
    if causes.len() == 0 {
        Seq::empty()
    } else {
        cause_texts(causes.drop_last()) + cause_text(causes.last())
    }
}

pub open spec fn divergence_line(divergence: Divergence) -> Seq<char> {
    "  effect "@ + divergence.effect@ + " @ "@ + decimal(divergence.position as nat) + ": "@
        + divergence.outcome.detail@ + "\n"@
}

/// The first divergences.
pub open spec fn divergence_lines(divergences: Seq<Divergence>, upto: nat) -> Seq<char>
    decreases upto,
{
    if upto == 0 {
        Seq::empty()
    } else {
        divergence_lines(divergences, (upto - 1) as nat) + divergence_line(divergences[upto - 1])
    }
}

/// The divergences: the first ones, and how many more there are.
pub open spec fn divergence_text(divergences: Seq<Divergence>) -> Seq<char> {
    divergence_lines(
        divergences,
        if divergences.len() < DIVERGENCE_LINES {
            divergences.len()
        } else {
            DIVERGENCE_LINES as nat
        },
    ) + line_if(
        divergences.len() > DIVERGENCE_LINES,
        "  ... and "@ + decimal((divergences.len() - DIVERGENCE_LINES) as nat)
            + " more divergence(s)\n"@,
    )
}

/// A line with a number in it.
pub open spec fn counted_line(before: Seq<char>, n: nat, after: Seq<char>) -> Seq<char> {
    before + decimal(n) + after
}

/// Why a key that was needed could not be used.
pub open spec fn key_line(coverage: Coverage) -> Seq<char> {
    counted_line(
        "not replayable: "@,
        coverage.no_master_key as nat,
        match coverage.unusable_master_key {
            Some(_) =>
                " invocation(s) of an effect that reveals, because the master key cannot unwrap what is stored\n"@,
            None =>
                " invocation(s) of an effect that reveals, because HEKLA_MASTER_KEY is not set\n"@,
        },
    )
}

/// What a replay looked at, then everything that it did not.
pub open spec fn coverage_text(coverage: Coverage) -> Seq<char> {
    "replayed "@ + decimal(coverage.replayed as nat) + " invocation(s) across "@ + decimal(
        coverage.effects_affected as nat,
    ) + " affected effect(s); "@ + decimal(coverage.reproduced as nat) + " reproduce, "@ + decimal(
        (coverage.replayed - coverage.reproduced) as nat,
    ) + " diverge\n"@ + line_if(
        coverage.replayed == 0 && coverage.effects_affected > 0,
        "this replay concluded nothing: no recorded invocation was compared\n"@,
    ) + (match coverage.unavailable {
        Some(err) => "the replay could not be started, so none of the history was read: "@ + err@
            + "\n"@,
        None => Seq::empty(),
    }) + (match coverage.unusable_master_key {
        Some(err) => "the configured master key cannot unwrap what is stored: "@ + err@ + "\n"@,
        None => Seq::empty(),
    }) + line_if(coverage.no_master_key > 0, key_line(coverage)) + line_if(
        coverage.subject_erased > 0,
        counted_line(
            "not replayable: "@,
            coverage.subject_erased as nat,
            " invocation(s) whose subject has been erased\n"@,
        ),
    ) + line_if(
        coverage.no_journal > 0,
        counted_line(
            "not replayable: "@,
            coverage.no_journal as nat,
            " invocation(s) recorded before a skipped run could be told from one that called nothing, that journaled no call\n"@,
        ),
    ) + line_if(
        coverage.operator_skipped > 0,
        counted_line(
            "not replayable: "@,
            coverage.operator_skipped as nat,
            " invocation(s) an operator skipped, which nothing ran to an end\n"@,
        ),
    ) + line_if(
        coverage.unreadable > 0,
        counted_line(
            "not replayable: "@,
            coverage.unreadable as nat,
            " invocation(s) whose record could not be read\n"@,
        ),
    ) + line_if(
        coverage.unreadable_history.len() > 0,
        "history could not be read at all for: "@ + joined(
            views(coverage.unreadable_history@),
            ", "@,
        ) + "\n"@,
    ) + line_if(
        coverage.reclaimed > 0,
        counted_line(
            "not replayable: "@,
            coverage.reclaimed as nat,
            " invocation(s) whose record retention reclaimed while this was reading it\n"@,
        ),
    ) + line_if(
        coverage.truncated.len() > 0,
        "capped at the "@ + decimal(coverage.limit as nat) + " most recent invocation(s) of: "@
            + joined(views(coverage.truncated@), ", "@) + "\n"@,
    ) + line_if(
        coverage.effects_affected > 0,
        counted_line(
            "this project retains "@,
            coverage.horizon_days as nat,
            " day(s) of journals; anything older was reclaimed before the replay could see it\n"@,
        ),
    )
}

/// The last line of a plan that changes something.
pub open spec fn summary_line(plan: Plan) -> Seq<char> {
    decimal(verdicts(plan.changes@, Verdict::Added)) + " added, "@ + decimal(
        verdicts(plan.changes@, Verdict::Removed),
    ) + " removed, "@ + decimal(
        verdicts(plan.changes@, Verdict::Behaviour) + verdicts(plan.changes@, Verdict::Contract),
    ) + " changed; "@ + decimal(rebuilds(plan.projectors@)) + " projector(s) would rebuild"@
        + line_if(
        plan.coverage is Some,
        ", "@ + decimal(plan.divergences.len() as nat) + " recorded invocation(s) would diverge"@,
    )
}

/// A plan as text. Under another version of the digest every hash differs for one reason,
/// so that is all it says. The coverage is printed whether or not anything diverged: a
/// replay that concluded nothing must not be taken for a clean one.
pub open spec fn plan_text(plan: Plan) -> Seq<char> {
    let head = "compared "@ + decimal(plan.declarations_compared as nat)
        + " declaration(s) against what is deployed\n"@;
    if plan.digest_version_mismatch {
        head
            + "failed: the deployment was recorded under a different digest version, so nothing here is comparable; deploy once with this build to re-record it"@
    } else {
        head + change_lines(plan.changes@) + forecast_lines(plan.projectors@) + cause_texts(
            cause_views(plan.causes@),
        ) + divergence_text(plan.divergences@) + (match plan.coverage {
            Some(coverage) => coverage_text(coverage),
            None => Seq::empty(),
        }) + (if changes_nothing(plan) {
            "ok: nothing would change"@
        } else {
            summary_line(plan)
        })
    }
}

// ---------------------------------------------------------------------------
// Writing the report
// ---------------------------------------------------------------------------

fn shown(cond: bool, line: String) -> (r: String)
    ensures
        r@ == line_if(cond, line@),
{
    if cond {
        line
    } else {
        String::new()
    }
}

fn counted(before: &str, n: u64, after: &str) -> (r: String)
    ensures
        r@ == counted_line(before@, n as nat, after@),
{
    let mut out = before.to_owned();
    out.append(&number(n));
    out.append(after);
    out
}

fn write_change(change: &Change) -> (r: String)
    ensures
        r@ == change_line(*change),
{
    let mut out = "  ".to_owned();
    out.append(
        match change.verdict {
            Verdict::Added => "added    ",
            Verdict::Removed => "removed  ",
            Verdict::Behaviour => "behaviour",
            Verdict::Contract => "contract ",
        },
    );
    out.append(" ");
    out.append(change.kind.name());
    out.append(" ");
    out.append(&change.name);
    out.append(" (");
    match &change.module {
        Some(module) => out.append(module),
        None => out.append("no module"),
    }
    out.append(")\n");
    out
}

fn write_forecast(forecast: &Forecast) -> (r: String)
    ensures
        r@ == forecast_line(*forecast),
{
    match forecast.outcome {
        Rebuild::Resume => String::new(),
        Rebuild::Fresh => {
            let mut out = "  projector ".to_owned();
            out.append(&forecast.name);
            out.append(" builds from the start of the log\n");
            out
        },
        Rebuild::Rebuild => {
            let mut out = "  projector ".to_owned();
            out.append(&forecast.name);
            out.append(" rebuilds from zero, redoing ");
            out.append(&number(forecast.checkpoint));
            out.append(" position(s)\n");
            out
        },
        Rebuild::Stale => {
            let mut out = "  projector ".to_owned();
            out.append(&forecast.name);
            out.append(
                " goes stale: auto_rebuild is off, so it serves rows the old logic built until it is replayed\n",
            );
            out
        },
    }
}

/// One side of an edit: its first lines, and how many more there are.
pub fn write_lines(sign: &str, lines: &Vec<String>) -> (r: String)
    ensures
        r@ == edit_side(sign@, views(lines@)),
{
    let mut out = String::new();
    let most: usize = if lines.len() < EDIT_LINES { lines.len() } else { EDIT_LINES };
    let mut i: usize = 0;
    while i < most
        invariant
            i <= most <= lines.len(),
            out@ == edit_lines(sign@, views(lines@), i as nat),
        decreases most - i,
    {
        assert(views(lines@)[i as int] == lines@[i as int]@);
        out.append("      ");
        out.append(sign);
        out.append(" ");
        out.append(&trim(&lines[i]));
        out.append("\n");
        i += 1;
    }
    if lines.len() > EDIT_LINES {
        let mut more = "      ".to_owned();
        more.append(sign);
        more.append(" ... and ");
        more.append(&count(lines.len() - EDIT_LINES));
        more.append(" more line(s)\n");
        out.append(&more);
    } else {
        assert(out@ + Seq::<char>::empty() =~= out@);
    }
    out
}

fn write_cause(cause: &Cause) -> (r: String)
    ensures
        r@ == cause_text(cause_view(*cause)),
{
    match cause {
        Cause::Guard { name, commands } => {
            let mut out = "  because `guard ".to_owned();
            out.append(name);
            out.append("` changed: ");
            out.append(&join(commands, ", "));
            out.append("\n");
            out
        },
        Cause::SharedEdit { removed, added, declarations, likely } => {
            let mut out = "  the same edit in ".to_owned();
            out.append(&count(declarations.len()));
            out.append(" declaration(s)");
            let hint = match likely {
                Some(name) => {
                    let mut hint = ", likely `".to_owned();
                    hint.append(name);
                    hint.append("`");
                    hint
                },
                None => String::new(),
            };
            out.append(&hint);
            out.append(": ");
            out.append(&join(declarations, ", "));
            out.append("\n");
            out.append(&write_lines("-", removed));
            out.append(&write_lines("+", added));
            out
        },
    }
}

fn write_divergences(divergences: &Vec<Divergence>) -> (r: String)
    ensures
        r@ == divergence_text(divergences@),
{
    let mut out = String::new();
    let most: usize = if divergences.len() < DIVERGENCE_LINES {
        divergences.len()
    } else {
        DIVERGENCE_LINES
    };
    let mut i: usize = 0;
    while i < most
        invariant
            i <= most <= divergences.len(),
            out@ == divergence_lines(divergences@, i as nat),
        decreases most - i,
    {
        let divergence = &divergences[i];
        let mut line = "  effect ".to_owned();
        line.append(&divergence.effect);
        line.append(" @ ");
        line.append(&number(divergence.position));
        line.append(": ");
        line.append(&divergence.outcome.detail);
        line.append("\n");
        out.append(&line);
        i += 1;
    }
    if divergences.len() > DIVERGENCE_LINES {
        let mut more = "  ... and ".to_owned();
        more.append(&count(divergences.len() - DIVERGENCE_LINES));
        more.append(" more divergence(s)\n");
        out.append(&more);
    } else {
        assert(out@ + Seq::<char>::empty() =~= out@);
    }
    out
}

/// What a replay looked at, then everything that it did not.
pub fn write_coverage(coverage: &Coverage) -> (r: String)
    requires
        coverage.reproduced <= coverage.replayed,
    ensures
        r@ == coverage_text(*coverage),
{
    let mut out = "replayed ".to_owned();
    out.append(&count(coverage.replayed));
    out.append(" invocation(s) across ");
    out.append(&count(coverage.effects_affected));
    out.append(" affected effect(s); ");
    out.append(&count(coverage.reproduced));
    out.append(" reproduce, ");
    out.append(&count(coverage.replayed - coverage.reproduced));
    out.append(" diverge\n");
    out.append(
        &shown(
            coverage.is_blind() && coverage.effects_affected > 0,
            "this replay concluded nothing: no recorded invocation was compared\n".to_owned(),
        ),
    );
    let unavailable = match &coverage.unavailable {
        Some(err) => {
            let mut line =
                "the replay could not be started, so none of the history was read: ".to_owned();
            line.append(err);
            line.append("\n");
            line
        },
        None => String::new(),
    };
    out.append(&unavailable);
    let unusable = match &coverage.unusable_master_key {
        Some(err) => {
            let mut line = "the configured master key cannot unwrap what is stored: ".to_owned();
            line.append(err);
            line.append("\n");
            line
        },
        None => String::new(),
    };
    out.append(&unusable);
    let key = match &coverage.unusable_master_key {
        Some(_) => counted(
            "not replayable: ",
            coverage.no_master_key as u64,
            " invocation(s) of an effect that reveals, because the master key cannot unwrap what is stored\n",
        ),
        None => counted(
            "not replayable: ",
            coverage.no_master_key as u64,
            " invocation(s) of an effect that reveals, because HEKLA_MASTER_KEY is not set\n",
        ),
    };
    out.append(&shown(coverage.no_master_key > 0, key));
    out.append(
        &shown(
            coverage.subject_erased > 0,
            counted(
                "not replayable: ",
                coverage.subject_erased as u64,
                " invocation(s) whose subject has been erased\n",
            ),
        ),
    );
    out.append(
        &shown(
            coverage.no_journal > 0,
            counted(
                "not replayable: ",
                coverage.no_journal as u64,
                " invocation(s) recorded before a skipped run could be told from one that called nothing, that journaled no call\n",
            ),
        ),
    );
    out.append(
        &shown(
            coverage.operator_skipped > 0,
            counted(
                "not replayable: ",
                coverage.operator_skipped as u64,
                " invocation(s) an operator skipped, which nothing ran to an end\n",
            ),
        ),
    );
    out.append(
        &shown(
            coverage.unreadable > 0,
            counted(
                "not replayable: ",
                coverage.unreadable as u64,
                " invocation(s) whose record could not be read\n",
            ),
        ),
    );
    let mut unlisted = "history could not be read at all for: ".to_owned();
    unlisted.append(&join(&coverage.unreadable_history, ", "));
    unlisted.append("\n");
    out.append(&shown(coverage.unreadable_history.len() > 0, unlisted));
    out.append(
        &shown(
            coverage.reclaimed > 0,
            counted(
                "not replayable: ",
                coverage.reclaimed as u64,
                " invocation(s) whose record retention reclaimed while this was reading it\n",
            ),
        ),
    );
    let mut capped = "capped at the ".to_owned();
    capped.append(&count(coverage.limit));
    capped.append(" most recent invocation(s) of: ");
    capped.append(&join(&coverage.truncated, ", "));
    capped.append("\n");
    out.append(&shown(coverage.truncated.len() > 0, capped));
    out.append(
        &shown(
            coverage.effects_affected > 0,
            counted(
                "this project retains ",
                coverage.horizon_days as u64,
                " day(s) of journals; anything older was reclaimed before the replay could see it\n",
            ),
        ),
    );
    out
}

impl Plan {
    /// Whether deploying would change nothing at all.
    pub fn is_empty(&self) -> (r: bool)
        ensures
            r == changes_nothing(*self),
    {
        if self.changes.len() > 0 || self.divergences.len() > 0 {
            return false;
        }
        let mut i: usize = 0;
        while i < self.projectors.len()
            invariant
                i <= self.projectors.len(),
                forall|k: int|
                    0 <= k < i ==> (#[trigger] self.projectors@[k]).outcome == Rebuild::Resume,
            decreases self.projectors.len() - i,
        {
            if self.projectors[i].outcome != Rebuild::Resume {
                return false;
            }
            i += 1;
        }
        true
    }

    /// How many projectors would build from the start of the log.
    pub fn rebuilding(&self) -> (r: usize)
        ensures
            r == rebuilds(self.projectors@),
    {
        let mut n: usize = 0;
        let mut i: usize = 0;
        assert(self.projectors@.take(0) =~= Seq::empty());
        while i < self.projectors.len()
            invariant
                i <= self.projectors.len(),
                n <= i,
                n == rebuilds(self.projectors@.take(i as int)),
            decreases self.projectors.len() - i,
        {
            assert(self.projectors@.take(i as int + 1).drop_last() =~= self.projectors@.take(i as int));
            if matches!(self.projectors[i].outcome, Rebuild::Rebuild | Rebuild::Fresh) {
                n += 1;
            }
            i += 1;
        }
        assert(self.projectors@.take(i as int) =~= self.projectors@);
        n
    }

    /// How many changes have a verdict.
    pub fn count(&self, verdict: Verdict) -> (r: usize)
        ensures
            r == verdicts(self.changes@, verdict),
    {
        let mut n: usize = 0;
        let mut i: usize = 0;
        assert(self.changes@.take(0) =~= Seq::empty());
        while i < self.changes.len()
            invariant
                i <= self.changes.len(),
                n <= i,
                n == verdicts(self.changes@.take(i as int), verdict),
            decreases self.changes.len() - i,
        {
            assert(self.changes@.take(i as int + 1).drop_last() =~= self.changes@.take(i as int));
            if self.changes[i].verdict == verdict {
                n += 1;
            }
            i += 1;
        }
        assert(self.changes@.take(i as int) =~= self.changes@);
        n
    }

    fn summary(&self) -> (r: String)
        ensures
            r@ == summary_line(*self),
    {
        proof {
            lemma_verdicts_bound(self.changes@, Verdict::Behaviour, Verdict::Contract);
        }
        let total: usize = self.changes.len();
        let behaviour: usize = self.count(Verdict::Behaviour);
        let contract: usize = self.count(Verdict::Contract);
        assert(behaviour + contract <= total);
        let mut out = count(self.count(Verdict::Added));
        out.append(" added, ");
        out.append(&count(self.count(Verdict::Removed)));
        out.append(" removed, ");
        out.append(&count(behaviour + contract));
        out.append(" changed; ");
        out.append(&count(self.rebuilding()));
        out.append(" projector(s) would rebuild");
        let mut diverged = ", ".to_owned();
        diverged.append(&count(self.divergences.len()));
        diverged.append(" recorded invocation(s) would diverge");
        out.append(&shown(self.coverage.is_some(), diverged));
        out
    }

    /// The plan as text.
    pub fn display(&self) -> (r: String)
        requires
            self.coverage matches Some(coverage) ==> coverage.reproduced <= coverage.replayed,
        ensures
            r@ == plan_text(*self),
    {
        let mut out = "compared ".to_owned();
        out.append(&count(self.declarations_compared));
        out.append(" declaration(s) against what is deployed\n");
        if self.digest_version_mismatch {
            out.append(
                "failed: the deployment was recorded under a different digest version, so nothing here is comparable; deploy once with this build to re-record it",
            );
            return out;
        }
        let mut part = String::new();
        let mut i: usize = 0;
        assert(self.changes@.take(0) =~= Seq::empty());
        while i < self.changes.len()
            invariant
                i <= self.changes.len(),
                part@ == change_lines(self.changes@.take(i as int)),
            decreases self.changes.len() - i,
        {
            assert(self.changes@.take(i as int + 1).drop_last() =~= self.changes@.take(i as int));
            part.append(&write_change(&self.changes[i]));
            i += 1;
        }
        assert(self.changes@.take(i as int) =~= self.changes@);
        out.append(&part);
        let mut part = String::new();
        let mut i: usize = 0;
        assert(self.projectors@.take(0) =~= Seq::empty());
        while i < self.projectors.len()
            invariant
                i <= self.projectors.len(),
                part@ == forecast_lines(self.projectors@.take(i as int)),
            decreases self.projectors.len() - i,
        {
            assert(self.projectors@.take(i as int + 1).drop_last() =~= self.projectors@.take(i as int));
            part.append(&write_forecast(&self.projectors[i]));
            i += 1;
        }
        assert(self.projectors@.take(i as int) =~= self.projectors@);
        out.append(&part);
        let mut part = String::new();
        let mut i: usize = 0;
        let ghost causes = cause_views(self.causes@);
        assert(causes.take(0) =~= Seq::empty());
        while i < self.causes.len()
            invariant
                i <= self.causes.len(),
                causes == cause_views(self.causes@),
                part@ == cause_texts(causes.take(i as int)),
            decreases self.causes.len() - i,
        {
            assert(causes.take(i as int + 1).drop_last() =~= causes.take(i as int));
            assert(causes.take(i as int + 1).last() == cause_view(self.causes@[i as int]));
            part.append(&write_cause(&self.causes[i]));
            i += 1;
        }
        assert(causes.take(i as int) =~= causes);
        out.append(&part);
        out.append(&write_divergences(&self.divergences));
        let covered = match &self.coverage {
            Some(coverage) => write_coverage(coverage),
            None => String::new(),
        };
        out.append(&covered);
        if self.is_empty() {
            out.append("ok: nothing would change");
        } else {
            out.append(&self.summary());
        }
        out
    }
}


// ---------------------------------------------------------------------------
// JSON
// ---------------------------------------------------------------------------

pub open spec fn change_json(change: Change) -> JsonView {
    JsonView::object().with("kind"@, JsonView::Text(kind_name(change.kind))).with(
        "name"@,
        JsonView::Text(change.name@),
    ).with("verdict"@, JsonView::Text(verdict_label(change.verdict))).with(
        "module"@,
        JsonView::text_or_null(option_view(change.module)),
    ).with("before"@, JsonView::text_or_null(option_view(change.before))).with(
        "after"@,
        JsonView::text_or_null(option_view(change.after)),
    )
}

pub open spec fn rebuild_label(outcome: Rebuild) -> Seq<char> {
    match outcome {
        Rebuild::Resume => "resume"@,
        Rebuild::Fresh => "fresh"@,
        Rebuild::Rebuild => "rebuild"@,
        Rebuild::Stale => "stale"@,
    }
}

pub open spec fn forecast_json(forecast: Forecast) -> JsonView {
    JsonView::object().with("name"@, JsonView::Text(forecast.name@)).with(
        "outcome"@,
        JsonView::Text(rebuild_label(forecast.outcome)),
    ).with("checkpoint"@, JsonView::Int(forecast.checkpoint as int))
}

pub open spec fn cause_json(cause: CauseView) -> JsonView {
    match cause {
        CauseView::Guard(name, commands) => JsonView::object().with(
            "cause"@,
            JsonView::Text("guard"@),
        ).with("guard"@, JsonView::Text(name)).with("declarations"@, JsonView::texts(commands)),
        CauseView::SharedEdit(edit, declarations, likely) => JsonView::object().with(
            "cause"@,
            JsonView::Text("shared_edit"@),
        ).with("removed"@, JsonView::texts(edit.0)).with("added"@, JsonView::texts(edit.1)).with(
            "declarations"@,
            JsonView::texts(declarations),
        ).with("likely"@, JsonView::text_or_null(likely)),
    }
}

pub open spec fn divergence_json(divergence: Divergence) -> JsonView {
    JsonView::object().with("effect"@, JsonView::Text(divergence.effect@)).with(
        "position"@,
        JsonView::Int(divergence.position as int),
    ).with("outcome"@, JsonView::Text(divergence.outcome.label@)).with(
        "detail"@,
        JsonView::Text(divergence.outcome.detail@),
    )
}

pub open spec fn coverage_json(coverage: Coverage) -> JsonView {
    JsonView::object().with("effects_affected"@, JsonView::Int(coverage.effects_affected as int)).with(
        "replayed"@,
        JsonView::Int(coverage.replayed as int),
    ).with("reproduced"@, JsonView::Int(coverage.reproduced as int)).with(
        "subject_erased"@,
        JsonView::Int(coverage.subject_erased as int),
    ).with("no_journal"@, JsonView::Int(coverage.no_journal as int)).with(
        "operator_skipped"@,
        JsonView::Int(coverage.operator_skipped as int),
    ).with("unreadable"@, JsonView::Int(coverage.unreadable as int)).with(
        "unreadable_history"@,
        JsonView::texts(views(coverage.unreadable_history@)),
    ).with("reclaimed"@, JsonView::Int(coverage.reclaimed as int)).with(
        "no_master_key"@,
        JsonView::Int(coverage.no_master_key as int),
    ).with(
        "unusable_master_key"@,
        JsonView::text_or_null(option_view(coverage.unusable_master_key)),
    ).with("unavailable"@, JsonView::text_or_null(option_view(coverage.unavailable))).with(
        "truncated"@,
        JsonView::texts(views(coverage.truncated@)),
    ).with("limit"@, JsonView::Int(coverage.limit as int)).with(
        "horizon_days"@,
        JsonView::Int(coverage.horizon_days as int),
    ).with("blind"@, JsonView::Bool(coverage.replayed == 0))
}

/// A plan as JSON. Without a replay there is no list of divergences: an empty one would
/// be a clean result for a check that nobody made.
pub open spec fn plan_json(plan: Plan) -> JsonView {
    JsonView::object().with(
        "declarations_compared"@,
        JsonView::Int(plan.declarations_compared as int),
    ).with("digest_version_mismatch"@, JsonView::Bool(plan.digest_version_mismatch)).with(
        "changes"@,
        JsonView::Array(Seq::new(plan.changes.len() as nat, |i: int| change_json(plan.changes@[i]))),
    ).with(
        "projectors"@,
        JsonView::Array(
            Seq::new(plan.projectors.len() as nat, |i: int| forecast_json(plan.projectors@[i])),
        ),
    ).with(
        "causes"@,
        JsonView::Array(
            Seq::new(plan.causes.len() as nat, |i: int| cause_json(cause_view(plan.causes@[i]))),
        ),
    ).with(
        "divergences"@,
        match plan.coverage {
            Some(_) => JsonView::Array(
                Seq::new(
                    plan.divergences.len() as nat,
                    |i: int| divergence_json(plan.divergences@[i]),
                ),
            ),
            None => JsonView::Null,
        },
    ).with(
        "coverage"@,
        match plan.coverage {
            Some(coverage) => coverage_json(coverage),
            None => JsonView::Null,
        },
    )
}

impl Change {
    pub fn json(&self) -> (r: Json)
        ensures
            r@ == change_json(*self),
    {
        Json::object().with("kind", Json::text(self.kind.name())).with(
            "name",
            Json::text(&self.name),
        ).with("verdict", Json::text(self.verdict.label())).with(
            "module",
            Json::text_or_null(&self.module),
        ).with("before", Json::text_or_null(&self.before)).with(
            "after",
            Json::text_or_null(&self.after),
        )
    }
}

impl Forecast {
    pub fn json(&self) -> (r: Json)
        ensures
            r@ == forecast_json(*self),
    {
        let outcome = match self.outcome {
            Rebuild::Resume => "resume",
            Rebuild::Fresh => "fresh",
            Rebuild::Rebuild => "rebuild",
            Rebuild::Stale => "stale",
        };
        Json::object().with("name", Json::text(&self.name)).with("outcome", Json::text(outcome)).with(
            "checkpoint",
            Json::uint(self.checkpoint),
        )
    }
}

impl Cause {
    pub fn json(&self) -> (r: Json)
        ensures
            r@ == cause_json(cause_view(*self)),
    {
        match self {
            Cause::Guard { name, commands } => Json::object().with("cause", Json::text("guard")).with(
                "guard",
                Json::text(name),
            ).with("declarations", Json::texts(commands)),
            Cause::SharedEdit { removed, added, declarations, likely } => Json::object().with(
                "cause",
                Json::text("shared_edit"),
            ).with("removed", Json::texts(removed)).with("added", Json::texts(added)).with(
                "declarations",
                Json::texts(declarations),
            ).with("likely", Json::text_or_null(likely)),
        }
    }
}

impl Divergence {
    pub fn json(&self) -> (r: Json)
        ensures
            r@ == divergence_json(*self),
    {
        Json::object().with("effect", Json::text(&self.effect)).with(
            "position",
            Json::uint(self.position),
        ).with("outcome", Json::text(&self.outcome.label)).with(
            "detail",
            Json::text(&self.outcome.detail),
        )
    }
}

impl Coverage {
    pub fn json(&self) -> (r: Json)
        ensures
            r@ == coverage_json(*self),
    {
        Json::object().with("effects_affected", Json::size(self.effects_affected)).with(
            "replayed",
            Json::size(self.replayed),
        ).with("reproduced", Json::size(self.reproduced)).with(
            "subject_erased",
            Json::size(self.subject_erased),
        ).with("no_journal", Json::size(self.no_journal)).with(
            "operator_skipped",
            Json::size(self.operator_skipped),
        ).with("unreadable", Json::size(self.unreadable)).with(
            "unreadable_history",
            Json::texts(&self.unreadable_history),
        ).with("reclaimed", Json::size(self.reclaimed)).with(
            "no_master_key",
            Json::size(self.no_master_key),
        ).with("unusable_master_key", Json::text_or_null(&self.unusable_master_key)).with(
            "unavailable",
            Json::text_or_null(&self.unavailable),
        ).with("truncated", Json::texts(&self.truncated)).with("limit", Json::size(self.limit)).with(
            "horizon_days",
            Json::uint(self.horizon_days as u64),
        ).with("blind", Json::Bool(self.is_blind()))
    }
}

impl Plan {
    /// The plan as JSON, for a caller that gates a deploy on it.
    pub fn json(&self) -> (r: Json)
        ensures
            r@ == plan_json(*self),
    {
        let mut changes: Vec<Json> = Vec::new();
        let mut i: usize = 0;
        while i < self.changes.len()
            invariant
                i <= self.changes.len(),
                changes.len() == i,
                forall|k: int|
                    0 <= k < i ==> json_view(#[trigger] changes@[k]) == change_json(self.changes@[k]),
            decreases self.changes.len() - i,
        {
            changes.push(self.changes[i].json());
            i += 1;
        }
        let mut projectors: Vec<Json> = Vec::new();
        let mut i: usize = 0;
        while i < self.projectors.len()
            invariant
                i <= self.projectors.len(),
                projectors.len() == i,
                forall|k: int|
                    0 <= k < i ==> json_view(#[trigger] projectors@[k]) == forecast_json(
                        self.projectors@[k],
                    ),
            decreases self.projectors.len() - i,
        {
            projectors.push(self.projectors[i].json());
            i += 1;
        }
        let mut causes: Vec<Json> = Vec::new();
        let mut i: usize = 0;
        while i < self.causes.len()
            invariant
                i <= self.causes.len(),
                causes.len() == i,
                forall|k: int|
                    0 <= k < i ==> json_view(#[trigger] causes@[k]) == cause_json(
                        cause_view(self.causes@[k]),
                    ),
            decreases self.causes.len() - i,
        {
            causes.push(self.causes[i].json());
            i += 1;
        }
        let mut divergences: Vec<Json> = Vec::new();
        let mut i: usize = 0;
        while i < self.divergences.len()
            invariant
                i <= self.divergences.len(),
                divergences.len() == i,
                forall|k: int|
                    0 <= k < i ==> json_view(#[trigger] divergences@[k]) == divergence_json(
                        self.divergences@[k],
                    ),
            decreases self.divergences.len() - i,
        {
            divergences.push(self.divergences[i].json());
            i += 1;
        }
        proof {
            lemma_items(changes@);
            lemma_items(projectors@);
            lemma_items(causes@);
            lemma_items(divergences@);
            assert(items_view(changes@) =~= Seq::new(
                self.changes.len() as nat,
                |i: int| change_json(self.changes@[i]),
            ));
            assert(items_view(projectors@) =~= Seq::new(
                self.projectors.len() as nat,
                |i: int| forecast_json(self.projectors@[i]),
            ));
            assert(items_view(causes@) =~= Seq::new(
                self.causes.len() as nat,
                |i: int| cause_json(cause_view(self.causes@[i])),
            ));
            assert(items_view(divergences@) =~= Seq::new(
                self.divergences.len() as nat,
                |i: int| divergence_json(self.divergences@[i]),
            ));
        }
        let found = match &self.coverage {
            Some(_) => Json::Array(divergences),
            None => Json::Null,
        };
        let covered = match &self.coverage {
            Some(coverage) => coverage.json(),
            None => Json::Null,
        };
        Json::object().with("declarations_compared", Json::size(self.declarations_compared)).with(
            "digest_version_mismatch",
            Json::Bool(self.digest_version_mismatch),
        ).with("changes", Json::Array(changes)).with("projectors", Json::Array(projectors)).with(
            "causes",
            Json::Array(causes),
        ).with("divergences", found).with("coverage", covered)
    }
}

// ---------------------------------------------------------------------------
// Putting a plan together
// ---------------------------------------------------------------------------

/// The message for a data directory that another build wrote.
pub open spec fn version_message(recorded: i64) -> Seq<char> {
    "the data directory is at schema version "@ + signed_decimal(recorded as int)
        + " and this build expects "@ + signed_decimal(SCHEMA_VERSION as int)
        + "; run `hekla serve` against it once to migrate, or plan against a directory this build wrote"@
}

/// Checks that a data directory is at the schema version that this build reads. A plan
/// does not migrate one: that is a write nothing asked for.
pub fn check_version(recorded: i64) -> (r: Result<(), String>)
    ensures
        match r {
            Ok(()) => recorded == SCHEMA_VERSION,
            Err(message) => recorded != SCHEMA_VERSION && message@ == version_message(recorded),
        },
{
    if recorded == SCHEMA_VERSION {
        return Ok(());
    }
    let mut message = "the data directory is at schema version ".to_owned();
    message.append(&signed_number(recorded));
    message.append(" and this build expects ");
    message.append(&signed_number(SCHEMA_VERSION));
    message.append(
        "; run `hekla serve` against it once to migrate, or plan against a directory this build wrote",
    );
    Err(message)
}

/// Refuses to plan against a directory where nothing is deployed, or one that another
/// build's schema wrote. `recorded` is the schema version of the database at `db_path`, or
/// nothing where there is none.
pub fn check_deployed(db_path: &str, recorded: Option<i64>) -> (r: Result<(), String>)
    ensures
        match r {
            Ok(()) => recorded == Some(SCHEMA_VERSION),
            Err(message) => match recorded {
                None => message@ == "no operational database at "@ + db_path@
                    + "; nothing is deployed there to compare against"@,
                Some(version) => version != SCHEMA_VERSION && message@ == version_message(version),
            },
        },
        r is Ok <==> can_be_planned(recorded),
{
    match recorded {
        None => Err(
            join3(
                "no operational database at ",
                db_path,
                "; nothing is deployed there to compare against",
            ),
        ),
        Some(version) => check_version(version),
    }
}

/// Whether a data directory can be planned against: something is deployed there, by the schema
/// that this build reads.
pub open spec fn can_be_planned(recorded: Option<i64>) -> bool {
    recorded == Some(SCHEMA_VERSION)
}

/// Whether a replay is to be run: where it was asked for, and the two sides can be
/// compared.
pub open spec fn is_replayed(mismatch: bool, replay: Replay) -> bool {
    !mismatch && replay is On
}

/// Whether a replay is to be run: where it was asked for, and the two sides can be
/// compared.
pub fn runs_replay(mismatch: bool, replay: Replay) -> (r: bool)
    ensures
        r == (!mismatch && replay is On),
        r == is_replayed(mismatch, replay),
{
    match replay {
        Replay::Off => false,
        Replay::On { .. } => !mismatch,
    }
}

/// Whether a plan is put together from those parts.
pub open spec fn is_assembled(
    plan: Plan,
    diff: Diff,
    projectors: Vec<Forecast>,
    program: Program,
    replay: Replay,
    horizon_days: u32,
    replayed: Result<(Vec<Divergence>, Coverage), String>,
) -> bool {
    &&& plan.changes == diff.changes
    &&& plan.projectors == projectors
    &&& plan.declarations_compared == diff.declarations_compared
    &&& plan.digest_version_mismatch == diff.digest_version_mismatch
    &&& cause_views(plan.causes@) == if diff.digest_version_mismatch {
        Seq::empty()
    } else {
        attributed(program, diff.changes@)
    }
    &&& match replay {
        Replay::Off => plan.coverage is None && plan.divergences.len() == 0,
        Replay::On { limit } => if diff.digest_version_mismatch {
            plan.coverage is Some && is_untouched(plan.coverage->0, horizon_days, limit)
                && plan.divergences.len() == 0
        } else {
            match replayed {
                Ok(found) => plan.coverage == Some(found.1) && plan.divergences == found.0,
                Err(message) => {
                    &&& plan.divergences.len() == 0
                    &&& plan.coverage is Some
                    &&& option_view(plan.coverage->0.unavailable) == Some(message@)
                    &&& is_untouched(
                        Coverage { unavailable: None, ..plan.coverage->0 },
                        horizon_days,
                        limit,
                    )
                },
            }
        },
    }
}

/// Puts a plan together from its parts. `replayed` is what a replay found, or why it
/// could not be run; it counts only where one was to be run.
///
/// Causes are looked for only where the two sides can be compared. Where they cannot, a
/// replay that was asked for is answered with a coverage of nothing, which is not the
/// same as not having been asked; and one that could not be started costs the plan
/// nothing but its coverage.
pub fn assemble(
    diff: Diff,
    projectors: Vec<Forecast>,
    program: &Program,
    replay: Replay,
    horizon_days: u32,
    replayed: Result<(Vec<Divergence>, Coverage), String>,
) -> (r: Plan)
    ensures
        r.changes == diff.changes,
        r.projectors == projectors,
        r.declarations_compared == diff.declarations_compared,
        r.digest_version_mismatch == diff.digest_version_mismatch,
        cause_views(r.causes@) == if diff.digest_version_mismatch {
            Seq::empty()
        } else {
            attributed(*program, diff.changes@)
        },
        match replay {
            Replay::Off => r.coverage is None && r.divergences.len() == 0,
            Replay::On { limit } => if diff.digest_version_mismatch {
                r.coverage is Some && is_untouched(r.coverage->0, horizon_days, limit)
                    && r.divergences.len() == 0
            } else {
                match replayed {
                    Ok(found) => r.coverage == Some(found.1) && r.divergences == found.0,
                    Err(message) => {
                        &&& r.divergences.len() == 0
                        &&& r.coverage is Some
                        &&& option_view(r.coverage->0.unavailable) == Some(message@)
                        &&& is_untouched(
                            Coverage { unavailable: None, ..r.coverage->0 },
                            horizon_days,
                            limit,
                        )
                    },
                }
            },
        },
        is_assembled(r, diff, projectors, *program, replay, horizon_days, replayed),
{
    let causes: Vec<Cause> = if diff.digest_version_mismatch {
        Vec::new()
    } else {
        attribute(program, &diff.changes)
    };
    assert(diff.digest_version_mismatch ==> cause_views(causes@) =~= Seq::empty());
    let mut plan = Plan {
        changes: diff.changes,
        projectors,
        causes,
        declarations_compared: diff.declarations_compared,
        digest_version_mismatch: diff.digest_version_mismatch,
        divergences: Vec::new(),
        coverage: None,
    };
    if let Replay::On { limit } = replay {
        if plan.digest_version_mismatch {
            plan.coverage = Some(Coverage::none(horizon_days, limit));
        } else {
            match replayed {
                Ok(found) => {
                    plan.divergences = found.0;
                    plan.coverage = Some(found.1);
                },
                Err(message) => {
                    let mut coverage = Coverage::none(horizon_days, limit);
                    coverage.unavailable = Some(message);
                    plan.coverage = Some(coverage);
                },
            }
        }
    }
    plan
}

/// A plan that does not say that it changes nothing names a change, a divergence or a
/// projector that does not resume.
pub proof fn law_an_empty_plan_is_a_clean_one(plan: Plan)
    ensures
        changes_nothing(plan) ==> verdicts(plan.changes@, Verdict::Added) == 0 && verdicts(
            plan.changes@,
            Verdict::Removed,
        ) == 0 && rebuilds(plan.projectors@) == 0,
{
    if changes_nothing(plan) {
        lemma_no_rebuilds(plan.projectors@);
    }
}

proof fn lemma_no_rebuilds(projectors: Seq<Forecast>)
    requires
        forall|i: int|
            0 <= i < projectors.len() ==> (#[trigger] projectors[i]).outcome == Rebuild::Resume,
    ensures
        rebuilds(projectors) == 0,
    decreases projectors.len(),
{
    if projectors.len() > 0 {
        assert forall|i: int| 0 <= i < projectors.drop_last().len() implies (#[trigger] projectors.drop_last()[i]).outcome
            == Rebuild::Resume by {
            assert(projectors.drop_last()[i] == projectors[i]);
        }
        lemma_no_rebuilds(projectors.drop_last());
        assert(projectors[projectors.len() - 1].outcome == Rebuild::Resume);
    }
}

} // verus!
