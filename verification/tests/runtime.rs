use std::collections::HashSet;

use hekla::json::Json;
use hekla::order::by_name;
use hekla::projector::{ProjectorShared, Readiness};
use hekla::runtime::{
    adopt_progress, backoff_delay, boot, count_outcome, declarations, error_body, jitter_roll,
    jitter_seed, max_attempts, refuse_scratch, require_master, resolve_command, resolve_data_dir,
    respond, status, success_body, tag_strings, BootStep, CommandContext, CommandEntry,
    CommandOutcome, EffectStatus, PositionRange, ProjectorStatus, Purpose, RecoveredEvent,
    RecoveredOutcome, RuntimeStatus, BACKOFF_CAP_MS,
};
use hekla::schema::{EmittedEvent, EventDef, FieldKind, FieldMeta};

/// The property that matters is the ceiling, not the distribution: whatever the draw, a
/// single wait can never grow past the cap.
#[test]
fn backoff_is_capped_however_large_the_attempt() {
    let cap = BACKOFF_CAP_MS * 1_000;
    for attempt in 0..64 {
        for roll in [0, 1, u64::MAX / 2, u64::MAX] {
            let delay = backoff_delay(attempt, roll);
            assert!(delay <= cap, "attempt {attempt} roll {roll}: {delay:?}");
        }
    }
    assert!(backoff_delay(u32::MAX, u64::MAX) <= cap);
}

/// The cap must be a ceiling the schedule actually reaches, not one it collapses past.
#[test]
fn backoff_saturates_at_the_cap_rather_than_wrapping() {
    let cap = BACKOFF_CAP_MS * 1_000;
    for attempt in [8, 15, 22, 40, 63] {
        assert_eq!(
            backoff_delay(attempt, BACKOFF_CAP_MS * 1_000),
            cap,
            "attempt {attempt}"
        );
    }
}

/// Early attempts stay under the exponential, so the cap does not turn the first retry
/// into a 16 ms wait.
#[test]
fn backoff_follows_the_exponential_below_the_cap() {
    for attempt in 0..4 {
        let ceiling: u64 = (1 << attempt) * 1_000;
        for roll in [0, 7, u64::MAX] {
            assert!(
                backoff_delay(attempt, roll) <= ceiling,
                "attempt {attempt} roll {roll}"
            );
        }
    }
    assert_eq!(backoff_delay(0, 0), 0);
}

/// Full jitter means the draw actually moves the wait.
#[test]
fn backoff_spreads_across_the_window() {
    let waits: Vec<u64> = (0..64).map(|roll| backoff_delay(8, roll * 977)).collect();
    let distinct = waits.iter().collect::<HashSet<_>>();
    assert!(distinct.len() > 8, "{waits:?}");
}

#[test]
fn jitter_rolls_differ_within_a_thread() {
    let first = jitter_roll(jitter_seed(1, 2, 3));
    let second = jitter_roll(first);
    let rolls = [first, second, jitter_roll(second)];
    assert!(rolls[0] != rolls[1] || rolls[1] != rolls[2], "{rolls:?}");
}

fn context() -> CommandContext {
    CommandContext {
        correlation_id: "c-1".to_owned(),
        causation_id: "k-1".to_owned(),
    }
}

fn text<'a>(json: &'a Json, name: &str) -> &'a str {
    match json.get(name) {
        Some(Json::Text(text)) => text,
        _ => panic!("no text {name}"),
    }
}

fn integer(json: &Json, name: &str) -> i128 {
    match json.get(name) {
        Some(Json::Int(n)) => *n,
        _ => panic!("no integer {name}"),
    }
}

fn list<'a>(json: &'a Json, name: &str) -> &'a Vec<Json> {
    match json.get(name) {
        Some(Json::Array(items)) => items,
        _ => panic!("no list {name}"),
    }
}

fn texts(items: &[Json]) -> Vec<&str> {
    items
        .iter()
        .map(|item| match item {
            Json::Text(text) => text.as_str(),
            _ => panic!("not a text"),
        })
        .collect()
}

#[test]
fn attempts_are_read_and_capped() {
    assert_eq!(max_attempts(None), 5);
    assert_eq!(max_attempts(Some("7")), 7);
    assert_eq!(max_attempts(Some("9000")), 15);
    assert_eq!(max_attempts(Some("seven")), 5);
}

#[test]
fn an_error_body_carries_its_code_and_ids() {
    let body = error_body(&context(), "not_found", "no such command");
    assert_eq!(text(&body, "correlation_id"), "c-1");
    let error = body.get("error").unwrap();
    assert_eq!(text(error, "code"), "not_found");
    assert_eq!(text(error, "message"), "no such command");
}

fn order_placed() -> EmittedEvent {
    EmittedEvent {
        event_type: "order.placed".to_owned(),
        data: Json::Null,
        tags: vec![
            ("shop".to_owned(), Some("s1".to_owned())),
            ("email".to_owned(), Some("ciphertext".to_owned())),
            ("bare".to_owned(), None),
        ],
    }
}

fn definitions() -> Vec<EventDef> {
    vec![EventDef {
        event_type: "order.placed".to_owned(),
        fields: vec![
            ("shop".to_owned(), FieldMeta::plain(FieldKind::Uuid)),
            (
                "email".to_owned(),
                FieldMeta {
                    kind: FieldKind::Text { max_length: None },
                    indexed: true,
                    subject: Some("user_id".to_owned()),
                    unique: false,
                },
            ),
        ],
    }]
}

#[test]
fn tags_are_rendered_sorted() {
    let rendered = tag_strings(&vec![
        ("b".to_owned(), Some("2".to_owned())),
        ("a".to_owned(), None),
    ]);
    assert_eq!(rendered, vec!["a".to_owned(), "b:2".to_owned()]);
}

/// The stored form of an encrypted tag is ciphertext, which a recovered response could
/// not reconstruct.
#[test]
fn encrypted_tags_are_left_out_of_a_response() {
    let positions = Some(PositionRange { first: 4, last: 4 });
    let body = success_body(&context(), positions, &vec![order_placed()], &definitions());
    let events = list(&body, "events");
    assert_eq!(events.len(), 1);
    assert_eq!(text(&events[0], "type"), "order.placed");
    assert_eq!(texts(list(&events[0], "tags")), vec!["bare", "shop:s1"]);
    assert_eq!(integer(body.get("positions").unwrap(), "first"), 4);
}

#[test]
fn every_outcome_has_its_status() {
    let ctx = context();
    let defs = definitions();
    let committed = CommandOutcome::Committed {
        events: vec![order_placed()],
        positions: Some(PositionRange { first: 1, last: 1 }),
    };
    assert_eq!(respond(&ctx, &committed, &defs).status, 200);
    let recovered = CommandOutcome::AlreadyCommitted(RecoveredOutcome {
        correlation_id: "c-0".to_owned(),
        causation_id: "k-0".to_owned(),
        positions: PositionRange { first: 1, last: 1 },
        events: vec![RecoveredEvent {
            event_type: "order.placed".to_owned(),
            tags: vec!["shop:s1".to_owned()],
        }],
    });
    let again = respond(&ctx, &recovered, &defs);
    assert_eq!(again.status, 200);
    assert_eq!(text(&again.body, "correlation_id"), "c-0");
    let rejected = CommandOutcome::Rejected {
        code: "SoldOut".to_owned(),
        message: "none left".to_owned(),
    };
    let refusal = respond(&ctx, &rejected, &defs);
    assert_eq!(refusal.status, 422);
    assert_eq!(
        respond(&ctx, &CommandOutcome::InvalidInput { message: "bad".to_owned() }, &defs).status,
        400
    );
    assert_eq!(
        respond(&ctx, &CommandOutcome::Unavailable { message: "later".to_owned() }, &defs).status,
        503
    );
    assert_eq!(respond(&ctx, &CommandOutcome::Conflict, &defs).status, 409);
    assert!(!count_outcome("PlaceOrder", &rejected).is_empty());
}

#[test]
fn an_internal_command_is_off_the_surface() {
    let commands = vec![
        CommandEntry { name: "Open".to_owned(), internal: false },
        CommandEntry { name: "Hidden".to_owned(), internal: true },
    ];
    let ctx = context();
    assert!(matches!(resolve_command(&commands, "Open", false, &ctx), Ok(0)));
    assert!(matches!(resolve_command(&commands, "Hidden", true, &ctx), Ok(1)));
    match resolve_command(&commands, "Hidden", false, &ctx) {
        Err(refused) => assert_eq!(refused.status, 404),
        Ok(_) => panic!("an internal command was resolved"),
    }
    match resolve_command(&commands, "Nowhere", true, &ctx) {
        Err(refused) => assert_eq!(refused.status, 404),
        Ok(_) => panic!("an unknown command was resolved"),
    }
}

#[test]
fn a_boot_claims_the_directory_before_it_opens_the_log() {
    let steps = boot(Purpose::Serve, true);
    let place = |wanted: fn(&BootStep) -> bool| steps.iter().position(wanted);
    let claim = place(|step| matches!(step, BootStep::ClaimDirectory)).unwrap();
    let open = place(|step| matches!(step, BootStep::OpenLog)).unwrap();
    assert!(claim < open);
    let reading = boot(Purpose::Plan, false);
    assert!(!reading.iter().any(|step| matches!(step, BootStep::ClaimDirectory)));
}

#[test]
fn a_scratch_project_is_not_served() {
    assert!(refuse_scratch(&None).is_ok());
    assert!(refuse_scratch(&Some("ask.hekla".to_owned())).is_err());
}

#[test]
fn a_subject_needs_a_master_key() {
    assert!(require_master(false, false, Purpose::Serve).is_ok());
    assert!(require_master(true, true, Purpose::Serve).is_ok());
    assert!(require_master(true, false, Purpose::Serve).is_err());
}

#[test]
fn adoption_reports_every_so_often() {
    let mut last: u64 = 0;
    assert!(!adopt_progress(&mut last, 249_999));
    assert!(adopt_progress(&mut last, 250_000));
    assert_eq!(last, 250_000);
    assert!(!adopt_progress(&mut last, 250_001));
}

#[test]
fn the_data_directory_is_the_flag_or_the_projects_own() {
    assert_eq!(resolve_data_dir("/srv/shop", None), "/srv/shop/data");
    assert_eq!(resolve_data_dir("/srv/shop", Some("/var/shop")), "/var/shop");
}

#[test]
fn nothing_declared_records_nothing() {
    assert!(declarations(&Vec::new()).is_empty());
}

fn projector_status(name: &str, position: u64) -> ProjectorStatus {
    ProjectorStatus {
        shared: ProjectorShared {
            name: name.to_owned(),
            db_path: format!("{name}.db"),
            entities: Vec::new(),
            position,
            shutdown: false,
            replay: false,
            running: true,
            failed: false,
            readiness: Readiness::Ready as u8,
            last_error: None,
        },
        replays_completed: 2,
        replays_failed: 1,
    }
}

fn effect_status(name: &str, pinning: Option<(String, u64)>) -> EffectStatus {
    EffectStatus {
        name: name.to_owned(),
        state: "running".to_owned(),
        position: 4,
        consecutive_failures: 0,
        last_error: None,
        wedged_lanes: 0,
        pinning,
        quarantined: false,
        terminal_skips: 0,
        last_terminal_error: None,
    }
}

#[test]
fn a_status_lists_everything_by_name() {
    let command = |name: &str, internal| CommandEntry { name: name.to_owned(), internal };
    let report = status(RuntimeStatus {
        log_head: 9,
        uptime_seconds: 60,
        verify: true,
        commands: vec![command("b", false), command("c", true), command("a", false)],
        projectors: vec![
            projector_status("b", 3),
            projector_status("c", 9),
            projector_status("a", 12),
        ],
        effects: vec![
            effect_status("z", Some(("s1".to_owned(), 5))),
            effect_status("y", None),
        ],
        events: 7,
    });
    let names = |items: &Vec<Json>| -> Vec<String> {
        items.iter().map(|item| text(item, "name").to_owned()).collect()
    };
    let projectors = list(&report, "projectors");
    assert_eq!(names(projectors), ["a", "b", "c"]);
    assert_eq!(integer(&projectors[0], "lag"), 0);
    assert_eq!(integer(&projectors[1], "lag"), 6);
    assert_eq!(integer(&projectors[1], "replays_completed"), 2);
    assert_eq!(text(&projectors[1], "readiness"), "ready");
    let effects = list(&report, "effects");
    assert_eq!(names(effects), ["y", "z"]);
    assert!(matches!(effects[0].get("pinning_key"), Some(Json::Null)));
    assert_eq!(text(&effects[1], "pinning_key"), "s1");
    assert_eq!(integer(&effects[1], "pinning_position"), 5);
    let commands = report.get("commands").unwrap();
    assert_eq!(texts(list(commands, "public")), ["a", "b"]);
    assert_eq!(texts(list(commands, "internal")), ["c"]);
    assert_eq!(integer(&report, "events"), 7);
}

#[test]
fn places_come_in_the_order_of_their_names() {
    let names: Vec<String> = ["b", "a", "c", "a"].iter().map(|name| (*name).to_owned()).collect();
    assert_eq!(by_name(&names), [1, 3, 0, 2]);
    assert!(by_name(&Vec::new()).is_empty());
}
