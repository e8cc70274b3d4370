use hekla::lsp::context::{
    completions, first_existing, literal_candidates, render_as_load, resolve_load,
};
use hekla::lsp::diagnostics::{
    check_lints, check_loads, diagnose, evaluates, finding_message, lint_severity, project_tier,
    quoted_name, resolve_tier, shape_of, unlocated, EvalSeverity, Evaluated, Finding, Load,
    Message, Severity, Shape, Span, Stmt, LOAD_RULE,
};
use hekla::lsp::env::{stub_path, Builtin, Env, Envs, Role};
use hekla::lsp::project::{
    find_root, fingerprint, locate, root_holds, snapshot_step, Listing, Located, Meta, Seen,
    Shared, SnapshotStep, Walk,
};
use hekla::lsp::stubs::{chosen_stub, render_item, render_stub, Doc, DocText};
use starlark::syntax::{AstModule, Dialect, DialectTypes};
use hekla::schema::ModuleKind;

fn located(rel: &str, role: Role) -> Located {
    Located { root: "/shop".to_owned(), rel: rel.to_owned(), role }
}

#[test]
fn a_load_resolves_against_the_project_root() {
    let from = located("commands/place-order.star", Role::Command { internal: false });
    let resolve = |path: &str, normalized: &str| {
        resolve_load(
            Some(&from),
            "file:///shop/commands/place-order.star",
            path,
            Ok(normalized.to_owned()),
            true,
            "command",
        )
    };
    assert_eq!(
        resolve("events/order.star", "events/order.star"),
        Ok("events/order.star".to_owned())
    );
    // Not relative to the importing file, and `./` is tolerated.
    assert_eq!(
        resolve("./lib/validation.star", "lib/validation.star"),
        Ok("lib/validation.star".to_owned())
    );
}

#[test]
fn an_illegal_load_explains_the_rule() {
    let from = located("commands/place-order.star", Role::Command { internal: false });
    let err = resolve_load(
        Some(&from),
        "file:///shop/commands/place-order.star",
        "projectors/orders.star",
        Ok("projectors/orders.star".to_owned()),
        false,
        "command",
    )
    .unwrap_err();
    assert!(err.contains("may only load from events/ or lib/"), "{err}");

    let err = resolve_load(
        Some(&from),
        "file:///shop/commands/place-order.star",
        "../escape.star",
        Err("load(\"../escape.star\") may not hold `..`".to_owned()),
        false,
        "command",
    )
    .unwrap_err();
    assert!(err.contains(".."), "{err}");

    let err = resolve_load(None, "scratch.star", "lib/a.star", Ok("lib/a.star".to_owned()), true, "x")
        .unwrap_err();
    assert_eq!(err, "`scratch.star` is not a module in a hekla project");
}

/// Refusing here is what stops completion offering a symbol whose inserted `load()` the
/// loader would reject.
#[test]
fn only_shared_modules_render_as_a_load() {
    let from = located("commands/place-order.star", Role::Command { internal: false });
    let event = located("events/order.star", Role::Events);
    assert_eq!(
        render_as_load(Some(&event), Some(&from), "event", "command", true, "event module"),
        Ok("events/order.star".to_owned())
    );
    assert!(
        render_as_load(Some(&from), Some(&from), "command", "command", false, "command").is_err()
    );
    let elsewhere = Located {
        root: "/other".to_owned(),
        rel: "events/order.star".to_owned(),
        role: Role::Events,
    };
    assert_eq!(
        render_as_load(Some(&elsewhere), Some(&from), "event", "command", true, "event module"),
        Err("a module may not load from another hekla project".to_owned())
    );
}

#[test]
fn load_path_completion_offers_exactly_the_loadable_paths() {
    let paths = vec!["events/order.star".to_owned(), "lib/validation.star".to_owned()];
    assert_eq!(completions(&paths, "", true), ["events/order.star", "lib/validation.star"]);
    // A prefix narrows it, and a plain string offers nothing.
    assert_eq!(completions(&paths, "lib/", true).len(), 1);
    assert!(completions(&paths, "", false).is_empty());
}

#[test]
fn a_string_may_name_a_shared_file_a_command_or_a_projector() {
    assert_eq!(
        literal_candidates("lib/a.star", true),
        vec![
            "lib/a.star",
            "commands/lib/a.star.star",
            "commands/internal/lib/a.star.star",
            "projectors/lib/a.star.star",
        ]
    );
    assert_eq!(literal_candidates("place", false).len(), 3);
    assert_eq!(first_existing(&vec![false, true, true]), Some(1));
    assert_eq!(first_existing(&vec![false]), None);
}

#[test]
fn the_environment_follows_the_directory() {
    assert!(matches!(Env::for_role(Role::Command { internal: true }), Env::Command));
    assert!(matches!(Env::for_role(Role::Projector), Env::Projector));
    assert!(matches!(Env::for_role(Role::Events), Env::Base));
    assert!(matches!(Env::for_role(Role::Lib), Env::Base));
    assert!(Env::Command.query_mode());
    assert!(!Env::Test.query_mode());
    for (at, env) in Env::ALL.into_iter().enumerate() {
        assert_eq!(env.index(), at);
    }
}

fn envs() -> Envs {
    let builtin = |env: Env, name: &str, source: &str| Builtin {
        env,
        name: name.to_owned(),
        source: source.to_owned(),
    };
    Envs {
        builtins: vec![
            builtin(Env::Command, "now", "now = None\n"),
            builtin(Env::Effect, "now", "def now(): pass\n"),
            builtin(Env::Effect, "http", "http = struct(\n)\n"),
        ],
    }
}

/// Goto-definition on a builtin: a path, whose contents hold the symbol.
#[test]
fn a_builtin_resolves_to_a_stub_that_parses() {
    let envs = envs();
    let target = envs.symbol_path(Env::Effect, "http").expect("a stub for http");
    let source = envs.stub(&target).expect("stub contents");
    assert!(source.contains("http = struct("), "{source}");

    // And scoping: `http` is an effect's alone.
    assert_eq!(envs.symbol_path(Env::Command, "http"), None);
}

#[test]
fn the_same_name_means_different_things_in_two_environments() {
    let envs = envs();
    assert_eq!(stub_path(Env::Command, "now"), "/kiln/command/now.star");
    let command = envs.symbol_path(Env::Command, "now").unwrap();
    let effect = envs.symbol_path(Env::Effect, "now").unwrap();
    assert_ne!(envs.stub(&command), envs.stub(&effect));
    assert_eq!(envs.stub("/kiln/base/now.star"), None);
}

fn dirs(names: &[&str]) -> Listing {
    Listing { config: false, dirs: names.iter().map(|name| (*name).to_owned()).collect() }
}

#[test]
fn a_document_is_placed_in_its_project_and_role() {
    let located = locate(
        Some("/shop".to_owned()),
        "commands/place-order.star".to_owned(),
        Some(Role::Command { internal: false }),
    )
    .expect("a located command");
    assert_eq!(located.root, "/shop");
    assert_eq!(located.rel, "commands/place-order.star");
    assert_eq!(located.role, Role::Command { internal: false });
}

/// `hekla.toml` is optional, so the directory convention alone has to place a document;
/// and where it is present it should place one on its own.
#[test]
fn a_root_is_found_with_or_without_a_config() {
    assert_eq!(find_root(&vec![dirs(&[]), dirs(&["events", "commands"])]), Some(1));
    let bare = Listing { config: true, dirs: vec!["tests".to_owned()] };
    assert_eq!(find_root(&vec![dirs(&[]), bare]), Some(1));
}

#[test]
fn the_deepest_project_wins() {
    let inner = dirs(&["events", "commands"]);
    let outer = dirs(&["events", "commands", "examples"]);
    assert_eq!(find_root(&vec![dirs(&[]), inner, dirs(&["inner"]), outer]), Some(1));
}

/// A repository that merely has `tests/` and `lib/` is not a project.
#[test]
fn an_ordinary_repository_is_not_a_project() {
    assert_eq!(find_root(&vec![dirs(&[]), dirs(&["tests", "lib", "src"])]), None);
}

#[test]
fn a_file_outside_the_convention_is_not_placed() {
    assert!(locate(Some("/shop".to_owned()), "scratch.star".to_owned(), None).is_none());
    assert!(locate(None, "commands/a.star".to_owned(), Some(Role::Projector)).is_none());
}

fn shared(modified: u128) -> Shared {
    Shared {
        config: None,
        events: Some(Walk {
            files: vec![("events/order.star".to_owned(), Some(Meta { len: 80, modified }))],
            findings: Vec::new(),
        }),
        lib: None,
    }
}

/// Editing a library moves the fingerprint; nothing else is in it to.
#[test]
fn only_the_shared_half_moves_the_fingerprint() {
    let before = fingerprint(&shared(1));
    assert_eq!(before, fingerprint(&shared(1)));
    assert_ne!(before, fingerprint(&shared(2)));
    assert_eq!(before.len(), 64);
    let mut failed = shared(1);
    failed.lib = Some(Walk {
        files: Vec::new(),
        findings: vec![("lib".to_owned(), "permission denied".to_owned())],
    });
    assert_ne!(before, fingerprint(&failed), "a walk error changes what was seen");
}

#[test]
fn a_snapshot_is_kept_until_its_files_change() {
    let seen = |age_ms: u64| Seen { fingerprint: "f".to_owned(), age_ms };
    assert_eq!(snapshot_step(None, None), SnapshotStep::Look);
    assert_eq!(snapshot_step(Some(&seen(10)), None), SnapshotStep::Use);
    assert_eq!(snapshot_step(Some(&seen(300)), None), SnapshotStep::Look);
    assert_eq!(snapshot_step(Some(&seen(300)), Some("f")), SnapshotStep::Confirm);
    assert_eq!(snapshot_step(Some(&seen(300)), Some("g")), SnapshotStep::Load);
    assert_eq!(snapshot_step(Some(&seen(10)), Some("f")), SnapshotStep::Confirm);
    assert_eq!(snapshot_step(Some(&seen(10)), Some("g")), SnapshotStep::Load);
    assert_eq!(snapshot_step(None, Some("f")), SnapshotStep::Load);
    assert!(root_holds(true, 1_000_000));
    assert!(root_holds(false, 4_999));
    assert!(!root_holds(false, 5_000));
}

const SPAN: Span = Span { begin_line: 0, begin_column: 0, end_line: 0, end_column: 10 };

fn load(module_id: &str, shared: bool, exists: bool) -> Load {
    Load {
        module_id: module_id.to_owned(),
        span: SPAN,
        normalized: Ok(module_id.to_owned()),
        shared,
        exists,
    }
}

#[test]
fn kilns_load_rules_are_reported_where_the_load_is_written() {
    let loads = vec![load("commands/other.star", false, true)];
    let messages = check_loads(&loads, "commands/a.star", "command");
    assert_eq!(messages.len(), 1);
    assert!(messages[0].description.contains("may only load from events/ or lib/"));
    assert_eq!(messages[0].span.expect("a span").begin_line, 0);
    assert_eq!(messages[0].name, LOAD_RULE);
    assert!(!evaluates(&messages, true), "a file with a broken load is not evaluated");
}

/// A path typo is caught as it is typed.
#[test]
fn a_load_of_a_missing_file_is_reported() {
    let loads = vec![load("events/odrer.star", true, false), load("lib/a.star", true, true)];
    let messages = check_loads(&loads, "commands/a.star", "command");
    assert_eq!(messages.len(), 1);
    assert!(messages[0].description.contains("no such file in this project"));
}

fn finding(message: &str) -> Finding {
    Finding {
        location: "commands/a.star".to_owned(),
        span: None,
        severity: Severity::Error,
        message: message.to_owned(),
    }
}

fn module() -> Stmt {
    let at = |line: usize| Span { begin_line: line, begin_column: 0, end_line: line, end_column: 7 };
    Stmt::Block(vec![
        Stmt::Assign { name: Some("input".to_owned()), span: at(0) },
        Stmt::Block(vec![Stmt::Assign { name: Some("initial".to_owned()), span: at(2) }]),
        Stmt::Other,
        Stmt::Def { name: "handle".to_owned(), span: at(4) },
    ])
}

#[test]
fn a_shape_error_is_reported_against_its_own_binding() {
    let message = finding_message(&finding("`initial` must be a value"), &module());
    assert_eq!(message.span.expect("a span").begin_line, 2);
    let message = finding_message(&finding("`handle` takes two arguments"), &module());
    assert_eq!(message.span.expect("a span").begin_line, 4);
}

#[test]
fn a_missing_handle_is_reported_for_the_file() {
    let message = finding_message(&finding("missing required `handler`"), &module());
    // Nothing to point at, so it stays at the top rather than guessing.
    assert_eq!(message.span, None);
    assert_eq!(message.name, "kiln");
}

#[test]
fn a_quoted_name_is_an_identifier() {
    assert_eq!(quoted_name("`initial` must be"), Some("initial".to_owned()));
    assert_eq!(quoted_name("`two words` and `one`"), None);
    assert_eq!(quoted_name("`2nd`"), None);
    assert_eq!(quoted_name("an `open tick"), None);
    assert_eq!(quoted_name("``"), None);
}

fn message(name: &str, description: &str) -> Message {
    Message {
        path: "commands/a.star".to_owned(),
        span: Some(SPAN),
        severity: EvalSeverity::Error,
        name: name.to_owned(),
        description: description.to_owned(),
    }
}

#[test]
fn a_syntax_error_is_the_only_thing_reported() {
    let messages = diagnose(Err(message("syntax", "unexpected end")), vec![message("kiln", "x")]);
    assert_eq!(messages.len(), 1);
    assert_eq!(messages[0].severity, EvalSeverity::Error);
}

#[test]
fn one_problem_is_reported_once() {
    let resolved = resolve_tier(
        Vec::new(),
        vec![message("scope", "`rejcet` is not defined")],
        vec![message("unreachable", "never runs")],
    );
    let evaluated = Evaluated::Failed(message("eval", "`rejcet` is not defined"));
    let project = project_tier(evaluated, "commands/a.star", &module());
    let messages = diagnose(Ok(resolved), project);
    assert_eq!(messages.len(), 2);
    assert_eq!(messages[0].name, "scope", "the first to say it is kept");
}

#[test]
fn a_definition_that_cannot_be_read_is_one_finding() {
    let evaluated = Evaluated::Unreadable("`initial` must be a value".to_owned());
    let messages = project_tier(evaluated, "commands/a.star", &module());
    assert_eq!(messages.len(), 1);
    assert_eq!(messages[0].span.expect("a span").begin_line, 2);
    let checked = Evaluated::Checked(vec![finding("a"), finding("b")]);
    assert_eq!(project_tier(checked, "commands/a.star", &module()).len(), 2);
}

/// Unused bindings are the product of a module, not a defect.
#[test]
fn the_noisy_lints_are_not_reported() {
    assert_eq!(lint_severity("unused"), None);
    assert_eq!(lint_severity("duplicate-key"), Some(EvalSeverity::Error));
    assert_eq!(lint_severity("unreachable"), Some(EvalSeverity::Warning));
    let lints = vec![message("unused", "x is unused"), message("unreachable", "never runs")];
    let shown = check_lints(&lints, "commands/a.star");
    assert_eq!(shown.len(), 1);
    assert_eq!(shown[0].severity, EvalSeverity::Warning);
}

#[test]
fn a_file_outside_a_project_gets_a_hint_and_nothing_else() {
    let hint = unlocated("scratch.star");
    assert_eq!(hint.name, "kiln-not-a-module");
    assert_eq!(hint.severity, EvalSeverity::Advice);
    assert_eq!(hint.span, None);
}

#[test]
fn a_module_is_checked_as_what_its_directory_says() {
    assert!(matches!(shape_of(Role::Projector), Shape::Module(ModuleKind::Projector)));
    assert_eq!(shape_of(Role::Test), Shape::Cases);
    assert_eq!(shape_of(Role::Lib), Shape::Shared);
}

/// The rendered namespace has to keep the exact shape goto-definition walks.
#[test]
fn a_namespace_renders_as_a_struct_over_its_members() {
    let http = Doc::Namespace(vec![
        ("get".to_owned(), Doc::Code("def _get(url): pass".to_owned())),
        ("post".to_owned(), Doc::Code("def _post(url): pass".to_owned())),
    ]);
    let rendered = render_item("http", &http);
    assert!(rendered.contains("def _get("), "{rendered}");
    assert!(rendered.contains("def _post("), "{rendered}");
    assert!(rendered.contains("http = struct("), "{rendered}");
    assert!(rendered.contains("    get = _get,"), "{rendered}");
}

#[test]
fn a_value_renders_as_a_documented_binding() {
    let docs = DocText {
        summary: "Says \"\"\"hi\"\"\".".to_owned(),
        details: Some("Twice.".to_owned()),
    };
    assert_eq!(
        render_item("hi", &Doc::Value(Some(docs))),
        "\"\"\"\nSays '''hi'''.\n\nTwice.\n\"\"\"\nhi = None\n"
    );
    assert_eq!(render_item("hi", &Doc::Value(None)), "hi = None\n");
}

#[test]
fn a_stub_whose_types_do_not_parse_is_rendered_without_them() {
    let typed = Doc::Code("def bytes(x: typing.Iterable[bytes]): pass".to_owned());
    let untyped = Doc::Code("def bytes(x): pass".to_owned());
    let dialect = Dialect {
        enable_positional_only_arguments: true,
        enable_keyword_only_arguments: true,
        enable_types: DialectTypes::ParseOnly,
        ..Dialect::Standard
    };
    assert!(AstModule::parse("bytes.star", render_item("bytes", &typed), &dialect).is_err());
    let rendered = render_stub("bytes", &typed, &untyped);
    assert!(!rendered.contains("typing.Iterable["), "{rendered}");
    assert!(AstModule::parse("bytes.star", rendered, &dialect).is_ok());
    let plain = Doc::Code("def bytes(x: int): pass".to_owned());
    assert!(render_stub("bytes", &plain, &untyped).contains(": int"));
    assert_eq!(chosen_stub("b", "typed".to_owned(), &untyped, true), "typed");
    assert_eq!(chosen_stub("b", "typed".to_owned(), &untyped, false), "def bytes(x): pass");
}

/// A stub separates its parameters, which the dialect of a module does not allow.
#[test]
fn a_stub_with_parameter_separators_needs_the_stub_dialect() {
    let typed = Doc::Code("def str(a, /, *, b = None): pass".to_owned());
    let untyped = Doc::Code("def str(a, b): pass".to_owned());
    let rendered = render_stub("str", &typed, &untyped);
    assert!(rendered.contains('/') && rendered.contains('*'), "{rendered}");
    assert!(AstModule::parse("str.star", rendered, &Dialect::Standard).is_err());
}
