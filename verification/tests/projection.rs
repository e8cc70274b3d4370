use hekla::json::Json;
use hekla::projection::{
    admits, opens, prepare, reported, reports, scanned, select, window, Admitted, Entity, Facts, Places,
    Project, Projection, ProjectorUnit, Request, Scanned, Shredded, Step, Stopped, Window,
    DEFAULT_ROWS,
};
use hekla::schema::{EntityDef, FieldKind, FieldMeta, ModuleDef};

fn entity(sealed: bool) -> EntityDef {
    EntityDef {
        name: "totals".to_owned(),
        key: "shop".to_owned(),
        fields: vec![
            ("shop".to_owned(), FieldMeta::plain(FieldKind::I64)),
            (
                "email".to_owned(),
                FieldMeta {
                    kind: FieldKind::Text { max_length: None },
                    indexed: false,
                    subject: if sealed { Some("shop".to_owned()) } else { None },
                    unique: false,
                },
            ),
        ],
        indexes: Vec::new(),
    }
}

fn unit(name: &str, path: &str, sealed: bool) -> ProjectorUnit {
    ProjectorUnit {
        def: ModuleDef::Projector {
            name: name.to_owned(),
            entities: Vec::new(),
            sources: Vec::new(),
        },
        rel_path: path.to_owned(),
        digest_hash: "d0".to_owned(),
        entities: vec![entity(sealed)],
        sources: vec!["order.placed".to_owned()],
    }
}

fn project(units: Vec<ProjectorUnit>) -> Project {
    Project { scratch: Some("ask.hekla".to_owned()), projectors: units }
}

#[test]
fn the_one_scratch_projector_is_selected() {
    let project = project(vec![unit("Orders", "shop.hekla", false), unit("Ask", "ask.hekla", false)]);
    assert_eq!(select(&project, None).ok().unwrap().def.name(), "Ask");
    assert_eq!(select(&project, Some("Ask")).ok().unwrap().def.name(), "Ask");
    let deployed = select(&project, Some("Orders")).err().unwrap();
    assert!(deployed.contains("is deployed, not declared in ask.hekla"), "{deployed}");
    let unknown = select(&project, Some("Nope")).err().unwrap();
    assert_eq!(
        unknown,
        "ask.hekla declares no `projector Nope`\n       declared here: Ask"
    );
}

#[test]
fn several_scratch_projectors_have_to_be_named() {
    let project = project(vec![unit("One", "ask.hekla", false), unit("Two", "ask.hekla", false)]);
    assert_eq!(
        select(&project, None).err().unwrap(),
        "ask.hekla declares 2 projector(s); name one with --projector\n       declared here: One, Two"
    );
    assert_eq!(select(&project, Some("Two")).ok().unwrap().def.name(), "Two");
}

#[test]
fn a_scratch_module_without_a_projector_is_refused() {
    let project = project(vec![unit("Orders", "shop.hekla", false)]);
    assert_eq!(
        select(&project, None).err().unwrap(),
        "ask.hekla declares no projector, so there is nothing to fold"
    );
}

fn places() -> Places {
    Places { database: "/data/hekla.db".to_owned(), log: "/data/events".to_owned() }
}

const UNKNOWN: Facts = Facts { database: None, log: None };

fn refusal(step: Step) -> String {
    match step {
        Step::Refuse(message) => message,
        _ => panic!("it was not refused"),
    }
}

#[test]
fn a_request_defaults_to_everything() {
    let request = Request::default();
    assert!(request.decrypt);
    assert_eq!(request.rows, DEFAULT_ROWS);
    assert_eq!(DEFAULT_ROWS, 50);
}

#[test]
fn a_plaintext_projection_looks_at_the_log_alone() {
    let ask = unit("Ask", "ask.hekla", false);
    let request = Request::default();
    assert!(matches!(prepare(&ask, &request, &places(), &UNKNOWN), Step::ReadLog));
    let facts = Facts { database: None, log: Some(Some(12)) };
    match prepare(&ask, &request, &places(), &facts) {
        Step::Fold { window, keyed } => {
            assert_eq!((window.from, window.upto), (0, 12));
            assert!(!keyed);
        }
        _ => panic!("it can be folded"),
    }
    let gone = Facts { database: None, log: Some(None) };
    assert_eq!(
        refusal(prepare(&ask, &request, &places(), &gone)),
        "no event log at /data/events, so there is nothing to project over"
    );
}

#[test]
fn a_sealed_projection_needs_its_keys_first() {
    let ask = unit("Ask", "ask.hekla", true);
    let bare = Request::default();
    assert!(refusal(prepare(&ask, &bare, &places(), &UNKNOWN)).contains("HEKLA_MASTER_KEY"));
    let keyed = Request { master: true, ..Request::default() };
    assert!(matches!(prepare(&ask, &keyed, &places(), &UNKNOWN), Step::ReadDatabase));
    let none = Facts { database: Some(None), log: None };
    assert!(refusal(prepare(&ask, &keyed, &places(), &none)).contains("/data/hekla.db"));
    let old = Facts { database: Some(Some(6)), log: None };
    assert!(refusal(prepare(&ask, &keyed, &places(), &old)).contains("at schema version 6"));
    let current = Facts { database: Some(Some(7)), log: Some(Some(3)) };
    assert!(matches!(
        prepare(&ask, &keyed, &places(), &current),
        Step::Fold { keyed: true, .. }
    ));
}

#[test]
fn a_question_without_an_answer_is_refused() {
    let mut silent = unit("Ask", "ask.hekla", false);
    silent.sources = Vec::new();
    assert_eq!(
        refusal(prepare(&silent, &Request::default(), &places(), &UNKNOWN)),
        "`projector Ask` declares no handler, so it selects no events"
    );
    let ask = unit("Ask", "ask.hekla", false);
    let other = Request { entity: Some("nope"), ..Request::default() };
    assert_eq!(
        refusal(prepare(&ask, &other, &places(), &UNKNOWN)),
        "`projector Ask` declares no entity `nope`\n       declared here: totals"
    );
    let mut command = unit("Ask", "ask.hekla", false);
    command.def = ModuleDef::Effect { name: "Ask".to_owned(), sources: Vec::new() };
    assert_eq!(
        refusal(prepare(&command, &Request::default(), &places(), &UNKNOWN)),
        "the scratch module is not a projector"
    );
}

#[test]
fn a_window_that_holds_nothing_is_refused() {
    let asked = |from: Option<u64>, upto: Option<u64>| Request { from, upto, ..Request::default() };
    assert_eq!(
        window(&asked(Some(9), Some(3)), 12).err().unwrap(),
        "--from 9 is above --upto 3, so the window holds nothing"
    );
    assert!(window(&asked(Some(13), None), 12).err().unwrap().contains("above position 12"));
    let clamped = window(&asked(Some(2), Some(99)), 12).ok().unwrap();
    assert_eq!((clamped.from, clamped.upto), (2, 12));
}

fn found(stopped: Option<Stopped>) -> Projection {
    let rows = vec![
        Json::object().with("shop", Json::Int(1)).with("email", Json::text("a@b.c")),
        Json::object().with("shop", Json::Int(20)),
    ];
    let scanned = Scanned { events: 1_200, position: 12, stopped };
    Projection::of(
        &unit("Ask", "ask.hekla", true),
        &Request::default(),
        &Window { from: 0, upto: 12, max_events: None },
        12,
        &scanned,
        vec![Entity::of(&entity(true), 3, rows, 1)],
        Shredded { writes: 4, subjects: 2 },
        1_500_000_000,
    )
}

#[test]
fn a_result_reads_as_a_table_and_says_what_bounds_it() {
    assert_eq!(
        found(None).display(),
        "folded 1,200 event(s) of @order.placed into `projector Ask` in 1.50s\n\
         \x20 entity totals, key shop, 3 row(s)\n\
         \x20   sealed: email under shop\n\
         \x20   shop  email\n\
         \x20   1     a@b.c\n\
         \x20   20    -\n\
         \x20   ... and 1 more row(s)\n\
         \x20   1 cell(s) of the 2 row(s) shown were written under a superseded key and will not open\n\
         4 sealed column write(s) dropped across 2 erased subject(s), so those cells read absent\n\
         a snapshot at position 12, the tip pinned when this opened; anything appended since is not in it\n\
         ok: 3 row(s) from 1,200 event(s)"
    );
}

#[test]
fn a_bounded_run_is_never_ok() {
    let text = found(Some(Stopped::MaxEvents)).display();
    assert!(text.contains("\npartial: 3 row(s) from 1,200 event(s); stopped at"), "{text}");
    assert!(!text.contains("ok:"), "{text}");
}

#[test]
fn a_result_for_a_program_carries_everything() {
    let result = found(None);
    assert!(result.truncated());
    let json = result.json();
    assert!(matches!(json.get("truncated"), Some(Json::Bool(true))));
    assert!(matches!(json.get("scanned").unwrap().get("stopped"), Some(Json::Null)));
    match json.get("entities") {
        Some(Json::Array(entities)) => {
            assert!(matches!(entities[0].get("row_count"), Some(Json::Int(3))));
        }
        _ => panic!("no entities"),
    }
}

/// What a document column prints as depends on what it holds.
#[test]
fn a_document_prints_as_what_it_is() {
    let column = EntityDef {
        name: "docs".to_owned(),
        key: "a".to_owned(),
        fields: vec![
            ("a".to_owned(), FieldMeta::plain(FieldKind::Json)),
            ("b".to_owned(), FieldMeta::plain(FieldKind::Json)),
            ("c".to_owned(), FieldMeta::plain(FieldKind::Json)),
        ],
        indexes: Vec::new(),
    };
    let embedded = |text: &str| Json::Embedded(text.to_owned());
    let row = Json::object()
        .with("a", embedded("\"bare\""))
        .with("b", embedded("null"))
        .with("c", embedded("{ \"x\" : 1 }"));
    let mut result = found(None);
    result.entities = vec![Entity::of(&column, 1, vec![row], 0)];
    let text = result.display();
    assert!(text.contains("    bare  -  {\"x\":1}\n"), "{text}");
}

#[test]
fn only_the_asked_for_entity_is_reported() {
    let request = Request { entity: Some("totals"), ..Request::default() };
    assert!(reports(&request, &entity(false)));
    let other = Request { entity: Some("other"), ..Request::default() };
    assert!(!reports(&other, &entity(false)));
    assert!(opens(&Request::default(), &entity(true), true));
    assert!(!opens(&Request::default(), &entity(false), true));
    assert!(!opens(&Request::default(), &entity(true), false));
}

#[test]
fn a_fold_stops_at_its_window_or_its_budget() {
    let window = Window { from: 2, upto: 9, max_events: Some(3) };
    assert_eq!(admits(&window, 0, 2), Admitted::Fold);
    assert_eq!(admits(&window, 2, 9), Admitted::Fold);
    assert_eq!(admits(&window, 2, 10), Admitted::PastWindow);
    assert_eq!(admits(&window, 3, 9), Admitted::OverBudget);
    let short = scanned(&window, 3, Some(7));
    assert_eq!(short.position, 6);
    assert!(short.stopped.is_some());
    let whole = scanned(&window, 2, None);
    assert_eq!(whole.position, 9);
    assert!(whole.stopped.is_none());
}

#[test]
fn all_entities_are_reported_or_the_one_asked_for() {
    let named = |name: &str| {
        let mut one = entity(false);
        one.name = name.to_owned();
        one
    };
    let entities = vec![named("totals"), named("lines"), named("shops")];
    let names = |request: &Request| -> Vec<String> {
        reported(request, &entities).iter().map(|entity| entity.name.clone()).collect()
    };
    assert_eq!(names(&Request::default()), ["totals", "lines", "shops"]);
    let one = Request { entity: Some("lines"), ..Request::default() };
    assert_eq!(names(&one), ["lines"]);
    let none = Request { entity: Some("nope"), ..Request::default() };
    assert!(names(&none).is_empty());
}
