//! What an editor is told: where a load points, what is reported and where, when the shared half
//! of a project is loaded again, and what a jump to a builtin finds.

use vstd::prelude::*;

use crate::laws::texts::{lemma_joined_part, lemma_part_behind, lemma_part_in_front, lemma_part_of_itself};
use crate::lsp::context::{candidates, completed, load_target, not_a_module, offered, written_load};
use crate::lsp::diagnostics::{
    binding, finding_view, first_binding, first_quoted, is_evaluated, lint_level, load_messages, load_problem, named_in,
    once, project_views, reported, shape_for, shown_lints, EvalSeverity, Evaluated, Finding, Load, MessageView, Severity,
    Shape, Span, Stmt,
};
use crate::lsp::env::{env_of, names_queries, Role};
use crate::lsp::project::{
    fingerprint_text, looks_like_root, stamp_view, step_for, still_holds, walk_parts, Listing, Meta, Shared, SnapshotStep,
    Walk,
};
use crate::lsp::stubs::{doc_text, item_source, member_fields, member_sources, unquoted, value_source, Doc, DocText};
use crate::schema::ModuleKind;
use crate::text::{decimal, has_part, lemma_decimal_value, next_at, stands_at, views};

verus! {

// ---------------------------------------------------------------------------
// Loads
// ---------------------------------------------------------------------------

/// A load points to the path that it comes to exactly where the document is in a project, the
/// path can be told, and it is shared. Otherwise it is refused, with the path and the role where
/// the path may not be loaded, and with the document where it has no place.
pub proof fn law_a_load_points_to_what_is_shared(
    placed: bool,
    uri: Seq<char>,
    path: Seq<char>,
    rel: Seq<char>,
    message: Seq<char>,
    shared: bool,
    label: Seq<char>,
)
    ensures
        load_target(placed, uri, path, Ok(rel), shared, label) == Ok::<Seq<char>, Seq<char>>(rel) <==> placed && shared,
        !placed ==> (load_target(placed, uri, path, Ok(rel), shared, label) matches Err(text) && has_part(text, uri)),
        placed ==> load_target(placed, uri, path, Err(message), shared, label) == Err::<Seq<char>, Seq<char>>(message),
        placed && !shared ==> (load_target(placed, uri, path, Ok(rel), shared, label) matches Err(text) && has_part(
            text,
            path,
        ) && has_part(text, label)),
{
    lemma_names_both(uri, path, label);
}

proof fn lemma_names_both(uri: Seq<char>, path: Seq<char>, label: Seq<char>)
    ensures
        has_part(not_a_module(uri), uri),
        has_part(crate::lsp::diagnostics::refused_load(path, label), path),
        has_part(crate::lsp::diagnostics::refused_load(path, label), label),
{
    lemma_part_of_itself(uri);
    lemma_part_behind("`"@, uri, uri);
    lemma_part_in_front("`"@ + uri, "` is not a module in a hekla project"@, uri);
    lemma_part_of_itself(path);
    lemma_part_of_itself(label);
    let a = "load(\""@ + path;
    let b = a + "\") is not allowed; a "@;
    lemma_part_behind("load(\""@, path, path);
    lemma_part_in_front(a, "\") is not allowed; a "@, path);
    lemma_part_in_front(b, label, path);
    lemma_part_in_front(b + label, " may only load from events/ or lib/"@, path);
    lemma_part_behind(b, label, label);
    lemma_part_in_front(b + label, " may only load from events/ or lib/"@, label);
}

/// A module is written as a load by its own path, exactly where both documents are in one project
/// and it is shared. Where one of them has no place, that one is named.
pub proof fn law_a_module_is_loaded_by_its_own_path(
    to: (Seq<char>, Seq<char>),
    from: (Seq<char>, Seq<char>),
    target_uri: Seq<char>,
    current_uri: Seq<char>,
    shared: bool,
    label: Seq<char>,
)
    ensures
        written_load(Some(to), Some(from), target_uri, current_uri, shared, label) == if to.0 == from.0 && shared {
            Ok::<Seq<char>, Seq<char>>(to.1)
        } else {
            Err(written_load(Some(to), Some(from), target_uri, current_uri, shared, label)->Err_0)
        },
        to.0 == from.0 && !shared ==> has_part(
            written_load(Some(to), Some(from), target_uri, current_uri, shared, label)->Err_0,
            label,
        ),
        written_load(None, Some(from), target_uri, current_uri, shared, label) matches Err(text) && has_part(
            text,
            target_uri,
        ),
        written_load(Some(to), None, target_uri, current_uri, shared, label) matches Err(text) && has_part(
            text,
            current_uri,
        ),
{
    lemma_names_both(target_uri, target_uri, label);
    lemma_names_both(current_uri, current_uri, label);
    lemma_part_of_itself(label);
    lemma_part_behind("a "@, label, label);
    lemma_part_in_front("a "@ + label, " may not be loaded; only events/ and lib/ may be"@, label);
}

/// A string may name a command, an internal command or a projector, tried in that order, and
/// before them itself where it is a shared path.
pub proof fn law_a_string_may_name_a_module(literal: Seq<char>)
    ensures
        candidates(literal, false).len() == 3,
        candidates(literal, false)[0] == "commands/"@ + literal + ".star"@,
        candidates(literal, false)[1] == "commands/internal/"@ + literal + ".star"@,
        candidates(literal, false)[2] == "projectors/"@ + literal + ".star"@,
        candidates(literal, true) == seq![literal] + candidates(literal, false),
{
    assert(candidates(literal, true) =~= seq![literal] + candidates(literal, false));
}

/// Inside a load exactly the paths that begin with what was typed are offered, and outside one
/// nothing is.
pub proof fn law_what_begins_as_typed_is_offered(paths: Seq<Seq<char>>, typed: Seq<char>, path: Seq<char>)
    ensures
        completed(paths, typed, true).contains(path) <==> paths.contains(path) && typed.is_prefix_of(path),
        completed(paths, typed, false).len() == 0,
    decreases paths.len(),
{
    let all = offered(paths, typed);
    if paths.len() > 0 {
        let rest = paths.drop_last();
        let before = offered(rest, typed);
        let last = paths.last();
        law_what_begins_as_typed_is_offered(rest, typed, path);
        assert(stands_at(last, typed, 0) <==> typed.is_prefix_of(last)) by {
            if typed.len() <= last.len() {
                assert(last.subrange(0, typed.len() as int) =~= last.take(typed.len() as int));
            }
        }
        assert(paths[paths.len() - 1] == last);
        if rest.contains(path) {
            let k = rest.index_of(path);
            assert(paths[k] == path);
        }
        if paths.contains(path) {
            let k = choose|k: int| 0 <= k < paths.len() && paths[k] == path;
            if k < rest.len() {
                assert(rest[k] == path);
            }
        }
        if stands_at(last, typed, 0) {
            assert(all[before.len() as int] == last);
            if before.contains(path) {
                let k = before.index_of(path);
                assert(all[k] == path);
            }
            if all.contains(path) {
                let k = choose|k: int| 0 <= k < all.len() && all[k] == path;
                if k < before.len() {
                    assert(before[k] == path);
                }
            }
        }
    }
}

// ---------------------------------------------------------------------------
// What is reported
// ---------------------------------------------------------------------------

/// Exactly the lints that tell of a mistake are shown, under the module's path and as loudly as
/// they deserve. What they say and where stays.
pub proof fn law_a_lint_is_shown_as_loudly_as_it_deserves(lints: Seq<MessageView>, rel: Seq<char>, at: int)
    requires
        0 <= at < lints.len(),
    ensures
        lint_level(lints[at].name) matches Some(severity) ==> shown_lints(lints, rel).contains(
            MessageView {
                path: rel,
                span: lints[at].span,
                severity,
                name: lints[at].name,
                description: lints[at].description,
            },
        ),
        lint_level("duplicate-top-level-assign"@) == Some(EvalSeverity::Error),
        lint_level("duplicate-key"@) == Some(EvalSeverity::Error),
        lint_level("using-unassigned"@) == Some(EvalSeverity::Error),
        lint_level("using-maybe-undefined"@) == Some(EvalSeverity::Warning),
        lint_level("missing-return-expression"@) == Some(EvalSeverity::Warning),
        lint_level("unreachable"@) == Some(EvalSeverity::Warning),
        lint_level("misplaced-load"@) == Some(EvalSeverity::Warning),
        forall|name: Seq<char>|
            name != "duplicate-top-level-assign"@ && name != "duplicate-key"@ && name != "using-unassigned"@ && name
                != "using-maybe-undefined"@ && name != "missing-return-expression"@ && name != "unreachable"@ && name
                != "misplaced-load"@ ==> #[trigger] lint_level(name) is None,
    decreases lints.len(),
{
    reveal_strlit("duplicate-top-level-assign");
    reveal_strlit("duplicate-key");
    reveal_strlit("using-unassigned");
    reveal_strlit("using-maybe-undefined");
    reveal_strlit("missing-return-expression");
    reveal_strlit("unreachable");
    reveal_strlit("misplaced-load");
    assert("duplicate-top-level-assign"@.len() == 26);
    assert("duplicate-key"@.len() == 13);
    assert("using-unassigned"@.len() == 16);
    assert("using-maybe-undefined"@.len() == 21);
    assert("missing-return-expression"@.len() == 25);
    assert("unreachable"@.len() == 11);
    assert("misplaced-load"@.len() == 14);
    let all = shown_lints(lints, rel);
    let rest = lints.drop_last();
    if let Some(severity) = lint_level(lints[at].name) {
        let shown = MessageView {
            path: rel,
            span: lints[at].span,
            severity,
            name: lints[at].name,
            description: lints[at].description,
        };
        if at < rest.len() {
            assert(rest[at] == lints[at]);
            law_a_lint_is_shown_as_loudly_as_it_deserves(rest, rel, at);
            let k = shown_lints(rest, rel).index_of(shown);
            assert(all[k] == shown);
        } else {
            assert(all.last() == shown);
        }
    }
}

/// Whether a load is as it may be: it comes to a shared path at which there is a file.
pub open spec fn loads_well(load: Load) -> bool {
    load.normalized is Ok && load.shared && load.exists
}

/// Exactly the loads that do not come to a shared file are reported, each as an error where it is
/// written and with why.
pub proof fn law_a_broken_load_is_reported_where_it_is_written(
    loads: Seq<Load>,
    rel: Seq<char>,
    label: Seq<char>,
    at: int,
)
    requires
        0 <= at < loads.len(),
    ensures
        load_problem(loads[at], label) is None <==> loads_well(loads[at]),
        !loads_well(loads[at]) ==> load_messages(loads, rel, label).contains(
            MessageView {
                path: rel,
                span: Some(loads[at].span),
                severity: EvalSeverity::Error,
                name: "kiln-load"@,
                description: load_problem(loads[at], label)->0,
            },
        ),
        loads[at].normalized matches Err(message) ==> load_problem(loads[at], label) == Some(message@),
        loads[at].normalized is Ok && !loads_well(loads[at]) ==> has_part(
            load_problem(loads[at], label)->0,
            loads[at].module_id@,
        ),
    decreases loads.len(),
{
    let all = load_messages(loads, rel, label);
    let rest = loads.drop_last();
    let path = loads[at].module_id@;
    lemma_names_both(path, path, label);
    lemma_part_of_itself(path);
    lemma_part_behind("load(\""@, path, path);
    lemma_part_in_front(
        "load(\""@ + path,
        "\") could not be resolved: no such file in this project"@,
        path,
    );
    if !loads_well(loads[at]) {
        let shown = MessageView {
            path: rel,
            span: Some(loads[at].span),
            severity: EvalSeverity::Error,
            name: "kiln-load"@,
            description: load_problem(loads[at], label)->0,
        };
        if at < rest.len() {
            assert(rest[at] == loads[at]);
            law_a_broken_load_is_reported_where_it_is_written(rest, rel, label, at);
            let k = load_messages(rest, rel, label).index_of(shown);
            assert(all[k] == shown);
        } else {
            assert(all.last() == shown);
        }
    }
}

/// A buffer with a broken load is not evaluated, and another one is exactly where that is wanted.
pub proof fn law_a_broken_load_stops_the_evaluation(messages: Seq<MessageView>, wanted: bool)
    ensures
        is_evaluated(messages, wanted) ==> wanted,
        is_evaluated(messages, true) <==> forall|i: int|
            0 <= i < messages.len() ==> (#[trigger] messages[i]).name != "kiln-load"@,
{
}

/// A module is checked as what its directory makes of it, in an environment of its own: shared
/// code alone has none and no shape.
pub proof fn law_a_module_is_checked_as_what_it_is(role: Role)
    ensures
        shape_for(role) == Shape::Module(ModuleKind::Command) <==> env_of(role) is Command,
        shape_for(role) == Shape::Module(ModuleKind::Projector) <==> env_of(role) is Projector,
        shape_for(role) == Shape::Module(ModuleKind::Effect) <==> env_of(role) is Effect,
        shape_for(role) == Shape::Cases <==> env_of(role) is Test,
        shape_for(role) == Shape::Shared <==> env_of(role) is Base,
        env_of(role) is Base <==> role is Events || role is Lib,
        env_of(role) is Command <==> role is Command,
        env_of(role) is Projector <==> role is Projector,
        env_of(role) is Effect <==> role is Effect,
        env_of(role) is Test <==> role is Test,
        names_queries(env_of(role)) <==> shape_for(role) is Module,
{
}

/// A name is bound where the first statement that binds it does, and nowhere where none does. A
/// definition and an assignment bind their own names and no others.
pub proof fn law_a_name_is_found_where_it_is_first_bound(stmts: Seq<Stmt>, name: Seq<char>, at: int)
    requires
        0 <= at <= stmts.len(),
        forall|i: int| 0 <= i < at ==> binding(#[trigger] stmts[i], name) is None,
        at < stmts.len() ==> binding(stmts[at], name) is Some,
    ensures
        first_binding(stmts, name) == if at < stmts.len() {
            binding(stmts[at], name)
        } else {
            None
        },
        forall|bound: String, span: Span|
            #[trigger] binding(Stmt::Def { name: bound, span }, name) == if bound@ == name {
                Some(span)
            } else {
                None
            },
        forall|bound: String, span: Span|
            #[trigger] binding(Stmt::Assign { name: Some(bound), span }, name) == if bound@ == name {
                Some(span)
            } else {
                None
            },
        forall|inner: Vec<Stmt>| #[trigger] binding(Stmt::Block(inner), name) == first_binding(inner@, name),
        binding(Stmt::Other, name) is None,
    decreases stmts.len(),
{
    if stmts.len() > 0 {
        let rest = stmts.drop_last();
        assert forall|i: int| 0 <= i < at && i < rest.len() implies binding(#[trigger] rest[i], name) is None by {
            assert(rest[i] == stmts[i]);
        }
        if at < rest.len() {
            assert(rest[at] == stmts[at]);
            law_a_name_is_found_where_it_is_first_bound(rest, name, at);
        } else {
            law_a_name_is_found_where_it_is_first_bound(rest, name, rest.len() as int);
            if at == stmts.len() {
                assert(binding(stmts[stmts.len() - 1], name) is None);
            }
        }
    }
}

proof fn lemma_next(text: Seq<char>, c: char, from: int, at: int)
    requires
        0 <= from <= at <= text.len(),
        forall|i: int| from <= i < at ==> #[trigger] text[i] != c,
        at < text.len() ==> text[at] == c,
    ensures
        next_at(text, c, from) == at,
    decreases at - from,
{
    if from < at {
        assert(text[from] != c);
        lemma_next(text, c, from + 1, at);
    }
}

/// Whether a text can be a name: it starts with a letter or an underscore, and goes on with
/// those and with digits.
pub open spec fn can_be_a_name(text: Seq<char>) -> bool {
    &&& text.len() > 0
    &&& !('0' <= text[0] <= '9')
    &&& forall|i: int|
        0 <= i < text.len() ==> 'a' <= #[trigger] text[i] <= 'z' || 'A' <= text[i] <= 'Z' || '0' <= text[i] <= '9'
            || text[i] == '_'
}

/// A message names what stands between its first two backticks, where that can be a name.
pub proof fn law_a_message_names_what_it_first_quotes(before: Seq<char>, name: Seq<char>, after: Seq<char>)
    requires
        !before.contains('`'),
        !name.contains('`'),
    ensures
        first_quoted(before + seq!['`'] + name + seq!['`'] + after) == Some(name),
        named_in(before + seq!['`'] + name + seq!['`'] + after) == if can_be_a_name(name) {
            Some(name)
        } else {
            None
        },
        named_in(before) is None,
        named_in(before + seq!['`'] + name) is None,
{
    let text = before + seq!['`'] + name + seq!['`'] + after;
    let open = before.len() as int;
    let close = open + 1 + name.len();
    assert forall|i: int| 0 <= i < open implies #[trigger] text[i] != '`' by {
        assert(text[i] == before[i]);
    }
    assert(text[open] == '`');
    lemma_next(text, '`', 0, open);
    assert forall|i: int| open + 1 <= i < close implies #[trigger] text[i] != '`' by {
        assert(text[i] == name[i - open - 1]);
    }
    assert(text[close] == '`');
    lemma_next(text, '`', open + 1, close);
    assert(text.subrange(open + 1, close) =~= name);
    assert forall|i: int| 0 <= i < before.len() implies #[trigger] before[i] != '`' by {
        assert(before.contains(before[i]));
    }
    lemma_next(before, '`', 0, before.len() as int);
    let half = before + seq!['`'] + name;
    assert forall|i: int| 0 <= i < open implies #[trigger] half[i] != '`' by {
        assert(half[i] == before[i]);
    }
    assert(half[open] == '`');
    lemma_next(half, '`', 0, open);
    assert forall|i: int| open + 1 <= i < half.len() implies #[trigger] half[i] != '`' by {
        assert(half[i] == name[i - open - 1]);
    }
    lemma_next(half, '`', open + 1, half.len() as int);
}

/// A finding is reported in its file, as loudly as it is bad and in its own words: where it says
/// it is, or else where the name that it quotes is bound.
pub proof fn law_a_finding_is_reported_where_it_is(finding: Finding, module: Stmt)
    ensures
        finding_view(finding, module).path == finding.location@,
        finding_view(finding, module).description == finding.message@,
        finding_view(finding, module).severity == EvalSeverity::Error <==> finding.severity == Severity::Error,
        finding_view(finding, module).severity == EvalSeverity::Warning <==> finding.severity == Severity::Warning,
        finding.span is Some ==> finding_view(finding, module).span == finding.span,
        finding.span is None && named_in(finding.message@) is Some ==> finding_view(finding, module).span == binding(
            module,
            named_in(finding.message@)->0,
        ),
        finding.span is None && named_in(finding.message@) is None ==> finding_view(finding, module).span is None,
{
}

/// Every finding of an evaluated module is reported, in order. A module that could not be read is
/// reported once, as an error in its file.
pub proof fn law_an_evaluation_reports_what_it_found(
    findings: Vec<Finding>,
    reason: String,
    rel: Seq<char>,
    module: Stmt,
    at: int,
)
    ensures
        project_views(Evaluated::Checked(findings), rel, module).len() == findings@.len(),
        0 <= at < findings@.len() ==> project_views(Evaluated::Checked(findings), rel, module)[at] == finding_view(
            findings@[at],
            module,
        ),
        project_views(Evaluated::Unreadable(reason), rel, module).len() == 1,
        project_views(Evaluated::Unreadable(reason), rel, module)[0].path == rel,
        project_views(Evaluated::Unreadable(reason), rel, module)[0].description == reason@,
        project_views(Evaluated::Unreadable(reason), rel, module)[0].severity == EvalSeverity::Error,
        named_in(reason@) is Some ==> project_views(Evaluated::Unreadable(reason), rel, module)[0].span == binding(
            module,
            named_in(reason@)->0,
        ),
{
}

/// A document that does not parse is reported with that error alone. Of another one, something is
/// reported at a place exactly where some tier said it there, and what is reported was said.
pub proof fn law_a_report_says_what_was_found(
    error: MessageView,
    resolved: Seq<MessageView>,
    project: Seq<MessageView>,
    message: MessageView,
)
    ensures
        reported(Err(error), project) == seq![error],
        reported(Ok(resolved), project).contains(message) ==> resolved.contains(message) || project.contains(message),
        resolved.contains(message) || project.contains(message) ==> exists|i: int|
            0 <= i < reported(Ok(resolved), project).len() && (#[trigger] reported(Ok(resolved), project)[i]).span
                == message.span && reported(Ok(resolved), project)[i].description == message.description,
        forall|i: int, j: int|
            0 <= i < j < reported(Ok(resolved), project).len() ==> (#[trigger] reported(
                Ok(resolved),
                project,
            )[i]).span != (#[trigger] reported(Ok(resolved), project)[j]).span || reported(
                Ok(resolved),
                project,
            )[i].description != reported(Ok(resolved), project)[j].description,
{
    let all = resolved + project;
    let out = once(all);
    crate::lsp::diagnostics::law_everything_is_reported_once(all);
    assert forall|i: int, j: int| 0 <= i < j < out.len() implies (#[trigger] out[i]).span != (#[trigger] out[j]).span
        || out[i].description != out[j].description by {
        assert(!crate::lsp::diagnostics::alike(out[i], out[j]));
    }
    lemma_once_within(all, message);
    if all.contains(message) {
        let k = all.index_of(message);
        assert(crate::lsp::diagnostics::said(out, all[k]));
        let i = choose|i: int| 0 <= i < out.len() && crate::lsp::diagnostics::alike(#[trigger] out[i], message);
        assert(out[i].span == message.span);
    }
    if out.contains(message) {
        let k = all.index_of(message);
        if k < resolved.len() {
            assert(resolved[k] == message);
        } else {
            assert(project[k - resolved.len()] == message);
        }
    }
    if resolved.contains(message) {
        let k = resolved.index_of(message);
        assert(all[k] == message);
    }
    if project.contains(message) {
        let k = project.index_of(message);
        assert(all[resolved.len() + k] == message);
    }
}

proof fn lemma_once_within(messages: Seq<MessageView>, message: MessageView)
    ensures
        once(messages).contains(message) ==> messages.contains(message),
    decreases messages.len(),
{
    if messages.len() > 0 {
        let rest = messages.drop_last();
        lemma_once_within(rest, message);
        if once(messages).contains(message) {
            let k = once(messages).index_of(message);
            if k < once(rest).len() {
                assert(once(rest)[k] == message);
                let i = rest.index_of(message);
                assert(messages[i] == message);
            } else {
                assert(messages[messages.len() - 1] == message);
            }
        }
    }
}

// ---------------------------------------------------------------------------
// Projects
// ---------------------------------------------------------------------------

/// A directory is a project's root where it holds the configuration or a directory that only a
/// project has.
pub proof fn law_a_root_holds_what_only_a_project_has(listing: Listing)
    ensures
        looks_like_root(listing) <==> listing.config || exists|i: int|
            0 <= i < listing.dirs@.len() && marks_a_project((#[trigger] listing.dirs@[i])@),
{
    let dirs = views(listing.dirs@);
    assert forall|name: Seq<char>| marks_a_project(name) implies (dirs.contains(name) ==> exists|i: int|
        0 <= i < listing.dirs@.len() && marks_a_project((#[trigger] listing.dirs@[i])@)) by {
        if dirs.contains(name) {
            let i = dirs.index_of(name);
            assert(marks_a_project(listing.dirs@[i]@));
        }
    }
    assert(marks_a_project("events"@) && marks_a_project("commands"@) && marks_a_project("projectors"@)
        && marks_a_project("effects"@));
    if exists|i: int| 0 <= i < listing.dirs@.len() && marks_a_project((#[trigger] listing.dirs@[i])@) {
        let i = choose|i: int| 0 <= i < listing.dirs@.len() && marks_a_project((#[trigger] listing.dirs@[i])@);
        assert(dirs[i] == listing.dirs@[i]@);
        assert(dirs.contains(dirs[i]));
    }
}

/// Whether a directory of that name is one that only a project has.
pub open spec fn marks_a_project(name: Seq<char>) -> bool {
    name == "events"@ || name == "commands"@ || name == "projectors"@ || name == "effects"@
}

/// A root that was found is remembered for good, and that there was none for five seconds.
pub proof fn law_a_missing_root_is_looked_for_again(age_ms: u64)
    ensures
        still_holds(true, age_ms),
        still_holds(false, age_ms) <==> age_ms < 5000,
{
}

/// The shared half of a project is used as it is for a quarter of a second. Then its files are
/// looked at, and it is loaded again exactly where they have changed.
pub proof fn law_a_shared_half_is_loaded_where_its_files_changed(kept: Seq<char>, age_ms: u64, now: Seq<char>)
    ensures
        step_for(Some((kept, age_ms)), None) == if age_ms < 250 {
            SnapshotStep::Use
        } else {
            SnapshotStep::Look
        },
        step_for(None, None) == SnapshotStep::Look,
        step_for(Some((kept, age_ms)), Some(now)) == SnapshotStep::Load <==> kept != now,
        step_for(Some((kept, age_ms)), Some(now)) == SnapshotStep::Confirm <==> kept == now,
        step_for(None, Some(now)) == SnapshotStep::Load,
{
}

/// A file that is gone, grows or is written again is told apart by its stamp.
pub proof fn law_a_changed_file_has_another_stamp(label: Seq<char>, before: Meta, after: Meta)
    ensures
        before.len != after.len && before.modified == after.modified ==> stamp_view(label, Some(before)) != stamp_view(
            label,
            Some(after),
        ),
        before.len == after.len && before.modified != after.modified ==> stamp_view(label, Some(before)) != stamp_view(
            label,
            Some(after),
        ),
        has_part(stamp_view(label, Some(before)), decimal(before.len as nat)),
        has_part(stamp_view(label, Some(before)), decimal(before.modified as nat)),
        has_part(stamp_view(label, Some(before)), label),
        stamp_view(label, None) == label + ":absent"@,
{
    let size = decimal(before.len as nat);
    let time = decimal(before.modified as nat);
    let a = label + ":"@;
    let b = a + size;
    let c = b + ":"@;
    lemma_part_of_itself(label);
    lemma_part_in_front(label, ":"@, label);
    lemma_part_in_front(a, size, label);
    lemma_part_in_front(b, ":"@, label);
    lemma_part_in_front(c, time, label);
    lemma_part_of_itself(size);
    lemma_part_behind(a, size, size);
    lemma_part_in_front(b, ":"@, size);
    lemma_part_in_front(c, time, size);
    lemma_part_of_itself(time);
    lemma_part_behind(c, time, time);
    let other_size = decimal(after.len as nat);
    let other_time = decimal(after.modified as nat);
    lemma_decimal_value(before.len as nat);
    lemma_decimal_value(after.len as nat);
    lemma_decimal_value(before.modified as nat);
    lemma_decimal_value(after.modified as nat);
    if before.len == after.len && before.modified != after.modified {
        if c + time == c + other_time {
            lemma_same_end(c, time, other_time);
        }
    }
    if before.len != after.len && before.modified == after.modified {
        if c + time == a + other_size + ":"@ + time {
            lemma_same_middle(a, size, other_size, ":"@, time);
        }
    }
}

proof fn lemma_same_end(start: Seq<char>, a: Seq<char>, b: Seq<char>)
    requires
        start + a == start + b,
    ensures
        a == b,
{
    assert((start + a).skip(start.len() as int) =~= a);
    assert((start + b).skip(start.len() as int) =~= b);
}

proof fn lemma_same_middle(start: Seq<char>, a: Seq<char>, b: Seq<char>, sign: Seq<char>, end: Seq<char>)
    requires
        start + a + sign + end == start + b + sign + end,
    ensures
        a == b,
{
    let whole = start + a + sign + end;
    assert(whole.len() == start.len() + a.len() + sign.len() + end.len());
    assert((start + b + sign + end).len() == start.len() + b.len() + sign.len() + end.len());
    assert(whole.subrange(start.len() as int, (start.len() + a.len()) as int) =~= a);
    assert((start + b + sign + end).subrange(start.len() as int, (start.len() + b.len()) as int) =~= b);
}

/// A fingerprint is taken of the configuration, and of every file and every finding of the events
/// and the libraries.
pub proof fn law_a_fingerprint_is_of_every_shared_file(shared: Shared, walk: Walk, file: int, finding: int)
    requires
        shared.events == Some(walk) || shared.lib == Some(walk),
    ensures
        has_part(fingerprint_text(shared), stamp_view("hekla.toml"@, shared.config)),
        0 <= file < walk.files@.len() ==> has_part(
            fingerprint_text(shared),
            stamp_view(walk.files@[file].0@, walk.files@[file].1),
        ),
        0 <= finding < walk.findings@.len() ==> has_part(
            fingerprint_text(shared),
            "!"@ + walk.findings@[finding].0@ + ":"@ + walk.findings@[finding].1@,
        ),
{
    let first = seq![stamp_view("hekla.toml"@, shared.config)];
    let events = walk_parts(shared.events);
    let lib = walk_parts(shared.lib);
    let all = first + events + lib;
    let parts = walk_parts(Some(walk));
    let start: int = if shared.events == Some(walk) {
        1
    } else {
        1 + events.len() as int
    };
    lemma_joined_part(all, "\n"@, 0);
    if 0 <= file < walk.files@.len() {
        assert(parts[file] == stamp_view(walk.files@[file].0@, walk.files@[file].1));
        assert(all[start + file] == parts[file]);
        lemma_joined_part(all, "\n"@, start + file);
    }
    if 0 <= finding < walk.findings@.len() {
        let at = walk.files@.len() + finding;
        assert(parts[at] == "!"@ + walk.findings@[finding].0@ + ":"@ + walk.findings@[finding].1@);
        assert(all[start + at] == parts[at]);
        lemma_joined_part(all, "\n"@, start + at);
    }
}

// ---------------------------------------------------------------------------
// Stubs
// ---------------------------------------------------------------------------

/// Whether three double quotes stand in a text at a place.
pub open spec fn closes_at(text: Seq<char>, at: int) -> bool {
    0 <= at && at + 3 <= text.len() && text[at] == '"' && text[at + 1] == '"' && text[at + 2] == '"'
}

proof fn lemma_first_quotes(text: Seq<char>)
    ensures
        unquoted(text).len() == text.len(),
        text.len() >= 1 && unquoted(text)[0] == '"' ==> text[0] == '"',
        text.len() >= 2 && unquoted(text)[0] == '"' && unquoted(text)[1] == '"' ==> text[0] == '"' && text[1] == '"',
    decreases text.len(),
{
    if text.len() > 0 {
        if closes_at(text, 0) {
            lemma_first_quotes(text.skip(3));
        } else {
            lemma_first_quotes(text.skip(1));
            if text.len() >= 2 {
                assert(unquoted(text)[1] == unquoted(text.skip(1))[0]);
            }
        }
    }
}

/// Documentation never ends the literal that it stands in: no three double quotes are left in it.
/// It keeps its length, and stays as it is where there were none.
pub proof fn law_documentation_does_not_end_its_literal(text: Seq<char>)
    ensures
        unquoted(text).len() == text.len(),
        forall|at: int| !#[trigger] closes_at(unquoted(text), at),
        (forall|at: int| !#[trigger] closes_at(text, at)) ==> unquoted(text) == text,
    decreases text.len(),
{
    lemma_first_quotes(text);
    if text.len() > 0 {
        let out = unquoted(text);
        if closes_at(text, 0) {
            let rest = unquoted(text.skip(3));
            law_documentation_does_not_end_its_literal(text.skip(3));
            assert forall|at: int| !#[trigger] closes_at(out, at) by {
                if closes_at(out, at) {
                    assert(at >= 3);
                    assert(out[at] == rest[at - 3] && out[at + 1] == rest[at - 2] && out[at + 2] == rest[at - 1]);
                    assert(closes_at(rest, at - 3));
                }
            }
        } else {
            let rest = unquoted(text.skip(1));
            law_documentation_does_not_end_its_literal(text.skip(1));
            lemma_first_quotes(text.skip(1));
            assert forall|at: int| !#[trigger] closes_at(out, at) by {
                if closes_at(out, at) {
                    if at >= 1 {
                        assert(out[at] == rest[at - 1] && out[at + 1] == rest[at] && out[at + 2] == rest[at + 1]);
                        assert(closes_at(rest, at - 1));
                    } else {
                        assert(out[1] == rest[0] && out[2] == rest[1]);
                        assert(text.skip(1)[0] == text[1] && text.skip(1)[1] == text[2]);
                        assert(closes_at(text, 0));
                    }
                }
            }
            if forall|at: int| !#[trigger] closes_at(text, at) {
                assert forall|at: int| !#[trigger] closes_at(text.skip(1), at) by {
                    if closes_at(text.skip(1), at) {
                        assert(closes_at(text, at + 1));
                    }
                }
                assert(out =~= text);
            }
        }
    }
}

/// A value's source binds its name, and holds its documentation where it has some.
pub proof fn law_a_value_is_documented(name: Seq<char>, docs: DocText)
    ensures
        has_part(value_source(name, Some(docs)), unquoted(doc_text(docs))),
        has_part(value_source(name, Some(docs)), name),
        value_source(name, None) == name + " = None\n"@,
        docs.summary@.is_prefix_of(doc_text(docs)),
        docs.details matches Some(details) ==> has_part(doc_text(docs), details@),
{
    let text = unquoted(doc_text(docs));
    let a = "\"\"\"\n"@ + text;
    let b = a + "\n\"\"\"\n"@;
    lemma_part_of_itself(text);
    lemma_part_behind("\"\"\"\n"@, text, text);
    lemma_part_in_front(a, "\n\"\"\"\n"@, text);
    lemma_part_in_front(b, name, text);
    lemma_part_in_front(b + name, " = None\n"@, text);
    lemma_part_of_itself(name);
    lemma_part_behind(b, name, name);
    lemma_part_in_front(b + name, " = None\n"@, name);
    if let Some(details) = docs.details {
        lemma_part_of_itself(details@);
        lemma_part_behind("\n\n"@, details@, details@);
        lemma_part_behind(docs.summary@, "\n\n"@ + details@, details@);
    }
}

/// A namespace's source holds that of each of its members under a private name, and binds each
/// member to it.
pub proof fn law_a_namespace_holds_its_members(name: Seq<char>, members: Vec<(String, Doc)>, at: int)
    requires
        0 <= at < members@.len(),
    ensures
        has_part(
            item_source(name, Doc::Namespace(members)),
            item_source("_"@ + members@[at].0@, members@[at].1),
        ),
        has_part(
            item_source(name, Doc::Namespace(members)),
            "    "@ + members@[at].0@ + " = _"@ + members@[at].0@ + ",\n"@,
        ),
{
    let source = item_source("_"@ + members@[at].0@, members@[at].1);
    let field = "    "@ + members@[at].0@ + " = _"@ + members@[at].0@ + ",\n"@;
    lemma_member(members@, at);
    let a = member_sources(members@);
    let fields = member_fields(members@);
    let b = a + name;
    let c = b + " = struct(\n"@;
    lemma_part_in_front(a, name, source);
    lemma_part_in_front(b, " = struct(\n"@, source);
    lemma_part_in_front(c, fields, source);
    lemma_part_in_front(c + fields, ")\n"@, source);
    lemma_part_behind(c, fields, field);
    lemma_part_in_front(c + fields, ")\n"@, field);
}

proof fn lemma_member(members: Seq<(String, Doc)>, at: int)
    requires
        0 <= at < members.len(),
    ensures
        has_part(member_sources(members), item_source("_"@ + members[at].0@, members[at].1)),
        has_part(member_fields(members), "    "@ + members[at].0@ + " = _"@ + members[at].0@ + ",\n"@),
    decreases members.len(),
{
    let rest = members.drop_last();
    let own = item_source("_"@ + members.last().0@, members.last().1);
    let name = members.last().0@;
    let source = item_source("_"@ + members[at].0@, members[at].1);
    let field = "    "@ + members[at].0@ + " = _"@ + members[at].0@ + ",\n"@;
    let before = member_fields(rest);
    lemma_behind(before, "    "@, name, " = _"@, name, ",\n"@);
    let last = "    "@ + name + " = _"@ + name + ",\n"@;
    if at < rest.len() {
        assert(rest[at] == members[at]);
        lemma_member(rest, at);
        lemma_part_in_front(member_sources(rest), own, source);
        lemma_part_in_front(member_sources(rest) + own, "\n\n"@, source);
        lemma_part_in_front(before, last, field);
    } else {
        lemma_part_of_itself(own);
        lemma_part_behind(member_sources(rest), own, own);
        lemma_part_in_front(member_sources(rest) + own, "\n\n"@, own);
        lemma_part_of_itself(last);
        lemma_part_behind(before, last, last);
    }
}

proof fn lemma_behind(start: Seq<char>, a: Seq<char>, b: Seq<char>, c: Seq<char>, d: Seq<char>, e: Seq<char>)
    ensures
        start + a + b + c + d + e == start + (a + b + c + d + e),
{
    assert(start + a + b + c + d + e =~= start + (a + b + c + d + e));
}

} // verus!
