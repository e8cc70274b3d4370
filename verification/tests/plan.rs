use hekla::digest::{
    any_node, declarations_reaching, references_of, reveals, Decl, Entry, Kind, Sexp,
};
use hekla::edit::line_edit;
use hekla::json::Json;
use hekla::opdb::DeclarationRow;
use hekla::plan::{
    affected_effects, attribute, compare, diff, forecast, read_rows, Cause, Change, Forecast,
    Observed, Rebuild, Verdict,
};
use hekla::program::{
    likely_inline, literal_text, message_changed, reaches, Command, ConstDef, Guard, Literal,
    MessagePart, Program, RefusalDef,
};
use hekla::replay::{
    deployed_hash, replayable, Affected, Coverage, Replay, Replayed, Replaying, Step, Uncovered,
};
use hekla::report::{assemble, check_deployed, check_version, runs_replay, write_coverage, Plan};

fn sexp(form: &heklang::digest::Sexp) -> Sexp {
    match form {
        heklang::digest::Sexp::Atom(text) => Sexp::Atom(text.clone()),
        heklang::digest::Sexp::Str(text) => Sexp::Str(text.clone()),
        heklang::digest::Sexp::List(items) => Sexp::List(items.iter().map(sexp).collect()),
    }
}

/// A declaration of the candidate, as its form reads.
fn entry(form: &str) -> Entry {
    let read = heklang::Entry::from_packed(form, None).unwrap();
    Entry {
        kind: Kind::lookup(read.kind.name()).unwrap(),
        name: read.name.clone(),
        hash: read.hash.to_string(),
        signature_hash: read.signature_hash.map(|hash| hash.to_string()),
        form: sexp(&read.form),
        packed: form.to_owned(),
        signature: None,
        expanded: read.form.expanded(),
        module: Some("shop.hekla".to_owned()),
    }
}

/// The same declaration as it was recorded at a deploy.
fn row(form: &str) -> DeclarationRow {
    let made = entry(form);
    DeclarationRow {
        kind: made.kind.name().to_owned(),
        name: made.name,
        hash: made.hash,
        signature_hash: made.signature_hash,
        form: made.packed,
        signature: None,
        module: made.module,
        first_seen: "t0".to_owned(),
        last_seen: "t0".to_owned(),
        current: true,
    }
}

const PLACED: &str = "(event @order.placed (f id Uuid))";
const PLACED_WIDER: &str = "(event @order.placed (f id Uuid) (f note String))";
const PAID: &str = "(event @order.paid (f id Uuid))";

#[test]
fn the_same_program_changes_nothing() {
    let found = diff(&vec![entry(PLACED)], &vec![row(PLACED)]).unwrap();
    assert!(found.changes.is_empty());
    assert_eq!(found.declarations_compared, 1);
    assert!(!found.digest_version_mismatch);
}

#[test]
fn a_diff_says_what_came_went_and_changed() {
    let found = diff(
        &vec![entry(PLACED_WIDER), entry(PAID)],
        &vec![row(PLACED), row("(event @order.gone (f id Uuid))")],
    )
    .unwrap();
    let named: Vec<(&str, &str)> = found
        .changes
        .iter()
        .map(|change| (change.name.as_str(), change.verdict.label()))
        .collect();
    assert!(named.contains(&("@order.paid", "added")), "{named:?}");
    assert!(named.contains(&("@order.gone", "removed")), "{named:?}");
    assert_eq!(named.len(), 3);
}

#[test]
fn a_form_that_does_not_read_back_is_named() {
    let mut broken = row(PLACED);
    broken.form = "(event".to_owned();
    let message = diff(&Vec::new(), &vec![broken]).err().unwrap();
    assert!(message.contains("does not read back"), "{message}");
    let mut unknown = row(PLACED);
    unknown.kind = "gizmo".to_owned();
    let message = read_rows(&vec![unknown]).err().unwrap();
    assert!(message.contains("gizmo"), "{message}");
}

/// Where no recorded hash is the one its form reads back as, nothing is comparable.
#[test]
fn another_digest_version_is_a_mismatch() {
    let mut old = row(PLACED);
    old.hash = "0000".to_owned();
    let rows = read_rows(&vec![old]).ok().unwrap();
    let found = compare(&vec![entry(PLACED)], rows);
    assert!(found.digest_version_mismatch);
}

#[test]
fn kinds_are_known_by_their_names() {
    assert!(matches!(Kind::lookup("event"), Some(Kind::Event)));
    assert!(Kind::lookup("gizmo").is_none());
    assert_eq!(Kind::Projector.name(), "projector");
}

fn atom(text: &str) -> Sexp {
    Sexp::Atom(text.to_owned())
}

fn list(items: Vec<Sexp>) -> Sexp {
    Sexp::List(items)
}

#[test]
fn a_form_is_searched_for_a_node() {
    let form = list(vec![atom("effect"), atom("Notify"), list(vec![atom("reveal"), atom("x")])]);
    assert!(any_node(&form, "reveal"));
    assert!(reveals(&form));
    assert!(!any_node(&form, "call"));
    assert_eq!(form.head(), Some("effect"));
    assert!(form.headed("effect"));
}

#[test]
fn an_edit_is_what_differs_by_line() {
    let (removed, added) = line_edit("a\nb\nc", "a\nB\nc");
    assert_eq!(removed, vec!["b".to_owned()]);
    assert_eq!(added, vec!["B".to_owned()]);
    let (removed, added) = line_edit("a\na", "a");
    assert_eq!(removed, vec!["a".to_owned()]);
    assert!(added.is_empty());
}

#[test]
fn a_change_taints_what_reaches_it() {
    let entries = vec![entry(PLACED), entry(PAID)];
    let changed = vec![Decl { kind: Kind::Event, name: "@order.placed".to_owned() }];
    let reached = declarations_reaching(&entries, changed);
    assert!(reached.iter().any(|decl| decl.name == "@order.placed"));
    assert!(!reached.iter().any(|decl| decl.name == "@order.paid"));
    assert!(declarations_reaching(&entries, Vec::new()).is_empty());
    let mut found: Vec<Decl> = Vec::new();
    references_of(&entries[0].form, &mut found);
    assert!(!found.iter().any(|decl| decl.name == "@order.paid"));
}

fn program() -> Program {
    Program {
        guards: vec![
            Guard { name: "Open".to_owned(), calls: vec!["Known".to_owned()] },
            Guard { name: "Known".to_owned(), calls: Vec::new() },
        ],
        commands: vec![
            Command { name: "Place".to_owned(), calls: vec!["Open".to_owned()] },
            Command { name: "Ping".to_owned(), calls: Vec::new() },
        ],
        refusals: vec![RefusalDef {
            name: "Closed".to_owned(),
            code: "closed".to_owned(),
            message: vec![MessagePart::Text("the shop is closed".to_owned())],
        }],
        consts: vec![ConstDef { name: "LIMIT".to_owned(), value: Literal::Int(40) }],
    }
}

#[test]
fn a_guard_is_reached_through_others() {
    let program = program();
    assert!(reaches(&program, &program.commands[0], "Known"));
    assert!(!reaches(&program, &program.commands[1], "Known"));
    assert_eq!(program.guard("Known"), Some(1));
    assert_eq!(program.guard("Nope"), None);
}

#[test]
fn a_shared_edit_is_traced_to_what_was_inlined() {
    let program = program();
    assert_eq!(literal_text(&Literal::Int(40)), Some("40".to_owned()));
    assert_eq!(literal_text(&Literal::Other), None);
    let said = vec!["(refuse closed \"the shop is closed\")".to_owned()];
    let now = vec!["(refuse closed \"we are closed\")".to_owned()];
    assert!(message_changed(&program.refusals[0], &now, &said));
    assert!(likely_inline(&program, &Vec::new(), &Vec::new()).is_none());
}

fn behaviour(name: &str, before: &str, after: &str) -> Change {
    Change {
        kind: Kind::Command,
        name: name.to_owned(),
        verdict: Verdict::Behaviour,
        module: None,
        before: Some(before.to_owned()),
        after: Some(after.to_owned()),
    }
}

#[test]
fn one_edit_in_many_declarations_has_one_cause() {
    let changes = vec![
        behaviour("Place", "a\nold\nb", "a\nnew\nb"),
        behaviour("Ping", "c\nold", "c\nnew"),
    ];
    let none = Program {
        guards: Vec::new(),
        commands: Vec::new(),
        refusals: Vec::new(),
        consts: Vec::new(),
    };
    let causes = attribute(&none, &changes);
    assert_eq!(causes.len(), 1);
    match &causes[0] {
        Cause::SharedEdit { removed, added, declarations, likely } => {
            assert_eq!(removed, &vec!["old".to_owned()]);
            assert_eq!(added, &vec!["new".to_owned()]);
            assert_eq!(declarations.len(), 2);
            assert!(likely.is_none());
        }
        Cause::Guard { .. } => panic!("there is no guard"),
    }
}

#[test]
fn a_forecast_says_what_a_deploy_does_to_each_projector() {
    let seen = |name: &str, previous: Option<&str>, checkpoint: u64| Observed {
        name: name.to_owned(),
        previous: previous.map(str::to_owned),
        checkpoint,
        definition: "new".to_owned(),
    };
    let projectors = vec![
        seen("same", Some("new"), 9),
        seen("fresh", None, 0),
        seen("changed", Some("old"), 9),
    ];
    let on = forecast(&projectors, true);
    assert!(matches!(on[0].outcome, Rebuild::Resume));
    assert!(matches!(on[1].outcome, Rebuild::Fresh));
    assert!(matches!(on[2].outcome, Rebuild::Rebuild));
    let off = forecast(&projectors, false);
    assert!(matches!(off[2].outcome, Rebuild::Stale));
}

const NOTIFY: &str = "(effect Notify (on @order.placed))";

#[test]
fn an_affected_effect_is_replayed_under_what_is_deployed() {
    let entries = vec![entry(PLACED), entry(NOTIFY)];
    let changes = vec![Change {
        kind: Kind::Effect,
        name: "Notify".to_owned(),
        verdict: Verdict::Behaviour,
        module: None,
        before: Some("(effect Notify)".to_owned()),
        after: Some(NOTIFY.to_owned()),
    }];
    let effects = vec!["Notify".to_owned()];
    let found = affected_effects(&entries, &effects, &changes).unwrap();
    assert_eq!(found, vec![(0, 1)]);
    let recorded = vec![row(NOTIFY)];
    assert_eq!(deployed_hash(&recorded, "Notify"), Some(recorded[0].hash.clone()));
    let listed = replayable(&entries, &effects, &found, &recorded);
    assert_eq!(listed.len(), 1);
    assert_eq!(listed[0].script_hash, recorded[0].hash);
    assert!(replayable(&entries, &effects, &found, &Vec::new()).is_empty());
}

fn affected(name: &str, reveals: bool) -> Affected {
    Affected { name: name.to_owned(), script_hash: "h".to_owned(), reveals }
}

fn outcome(reproduces: bool, uncovered: Option<Uncovered>) -> Replayed {
    Replayed {
        label: "differs".to_owned(),
        detail: "another call".to_owned(),
        reproduces,
        uncovered,
    }
}

#[test]
fn a_replay_goes_through_every_effect_to_its_end() {
    let mut replaying = Replaying::new(
        vec![affected("a", false), affected("b", true)],
        30,
        10,
        false,
        None,
    );
    let mut replayed: usize = 0;
    loop {
        match replaying.step() {
            Step::Count { .. } => replaying.counted(Some(2)),
            Step::List { limit, .. } => {
                assert_eq!(limit, 11, "one more, to tell whether there are more");
                replaying.listed(Some(vec![5, 4]));
            }
            Step::Replay { position, .. } => {
                replayed += 1;
                replaying.replayed(outcome(position == 5, None));
            }
            Step::Done => break,
        }
    }
    let (divergences, coverage) = replaying.finish();
    assert_eq!(replayed, 2, "the effect that reveals has no key to replay with");
    assert_eq!(coverage.replayed, 2);
    assert_eq!(coverage.reproduced, 1);
    assert_eq!(coverage.no_master_key, 2);
    assert_eq!(divergences.len(), 1);
    assert_eq!(divergences[0].position, 4);
}

#[test]
fn a_replay_that_concluded_nothing_says_so() {
    let mut coverage = Coverage::none(30, 1000);
    assert!(coverage.is_blind());
    coverage.effects_affected = 1;
    coverage.subject_erased = 3;
    let text = write_coverage(&coverage);
    assert!(text.starts_with(
        "replayed 0 invocation(s) across 1 affected effect(s); 0 reproduce, 0 diverge\n"
    ));
    assert!(text.contains("this replay concluded nothing"), "{text}");
    assert!(
        text.contains("not replayable: 3 invocation(s) whose subject has been erased"),
        "{text}"
    );
}

fn quiet() -> Plan {
    Plan {
        changes: Vec::new(),
        projectors: Vec::new(),
        causes: Vec::new(),
        declarations_compared: 4,
        digest_version_mismatch: false,
        divergences: Vec::new(),
        coverage: None,
    }
}

#[test]
fn a_plan_that_changes_nothing_is_ok() {
    let plan = quiet();
    assert!(plan.is_empty());
    assert_eq!(
        plan.display(),
        "compared 4 declaration(s) against what is deployed\nok: nothing would change"
    );
}

#[test]
fn a_plan_says_what_would_change() {
    let mut plan = quiet();
    plan.changes.push(behaviour("Place", "a", "b"));
    let text = plan.display();
    assert!(text.contains("  behaviour command Place (no module)\n"), "{text}");
    assert!(!text.contains("would diverge"), "nothing was replayed: {text}");
    assert_eq!(plan.count(Verdict::Behaviour), 1);
    assert_eq!(plan.rebuilding(), 0);
    match plan.json().get("changes") {
        Some(Json::Array(changes)) => assert_eq!(changes.len(), 1),
        _ => panic!("no changes"),
    }
}

#[test]
fn another_digest_version_fails_the_plan() {
    let mut plan = quiet();
    plan.digest_version_mismatch = true;
    assert!(plan.display().contains("failed: the deployment was recorded under"));
    assert!(!runs_replay(true, Replay::On { limit: 10 }));
    assert!(runs_replay(false, Replay::On { limit: 10 }));
    assert!(!runs_replay(false, Replay::Off));
}

#[test]
fn a_plan_is_assembled_of_what_was_found() {
    let found = diff(&vec![entry(PLACED)], &Vec::new()).ok().unwrap();
    let plan = assemble(
        found,
        Vec::new(),
        &program(),
        Replay::On { limit: 10 },
        30,
        Err("no log".to_owned()),
    );
    assert_eq!(plan.changes.len(), 1);
    assert!(plan.display().contains("the replay could not be started"), "{}", plan.display());
}

#[test]
fn a_plan_reads_only_a_current_directory() {
    assert!(check_version(7).is_ok());
    assert!(check_version(6).is_err());
    assert!(check_deployed("/data/hekla.db", Some(7)).is_ok());
    assert!(check_deployed("/data/hekla.db", Some(6)).is_err());
    assert_eq!(
        check_deployed("/data/hekla.db", None).err().unwrap(),
        "no operational database at /data/hekla.db; nothing is deployed there to compare against"
    );
}

/// A guard that changed moves two commands, and a projector's contract moved with it.
#[test]
fn a_plan_reads_as_a_report() {
    let change = |kind: Kind, name: &str, verdict: Verdict, module: &str| Change {
        kind,
        name: name.to_owned(),
        verdict,
        module: Some(module.to_owned()),
        before: Some("a".to_owned()),
        after: Some("b".to_owned()),
    };
    let plan = Plan {
        changes: vec![
            change(Kind::Command, "DoA", Verdict::Behaviour, "commands/a.hk"),
            change(Kind::Command, "DoB", Verdict::Behaviour, "commands/b.hk"),
            change(Kind::Projector, "UserStats", Verdict::Contract, "projectors/user-stats.hk"),
        ],
        projectors: vec![Forecast {
            name: "UserStats".to_owned(),
            outcome: Rebuild::Rebuild,
            checkpoint: 12481,
        }],
        causes: vec![Cause::Guard {
            name: "ShopIsConnected".to_owned(),
            commands: vec!["DoA".to_owned(), "DoB".to_owned()],
        }],
        declarations_compared: 6,
        digest_version_mismatch: false,
        divergences: Vec::new(),
        coverage: None,
    };
    assert_eq!(
        plan.display(),
        "compared 6 declaration(s) against what is deployed\n\
         \x20 behaviour command DoA (commands/a.hk)\n\
         \x20 behaviour command DoB (commands/b.hk)\n\
         \x20 contract  projector UserStats (projectors/user-stats.hk)\n\
         \x20 projector UserStats rebuilds from zero, redoing 12481 position(s)\n\
         \x20 because `guard ShopIsConnected` changed: DoA, DoB\n\
         0 added, 0 removed, 3 changed; 1 projector(s) would rebuild"
    );
}
