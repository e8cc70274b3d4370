use hekla::projector::{
    after_fetch, definition_hash, definition_text, degraded, left, next_action, publish, rebuilt,
    reconcile_plan, sidecars, start, Action, EventSpec, Fetched, ModelState, ProjectorShared,
    Readiness, Reconcile, Start,
};
use hekla::schema::{EntityDef, FieldKind, FieldMeta};

fn entity() -> EntityDef {
    EntityDef {
        name: "rows".to_owned(),
        key: "id".to_owned(),
        fields: vec![("id".to_owned(), FieldMeta::plain(FieldKind::Uuid))],
        indexes: vec![],
    }
}

fn fresh() -> ModelState {
    ModelState { definition: None, checkpoint: 0 }
}

fn defined(definition: &str) -> ModelState {
    ModelState { definition: Some(definition.to_owned()), checkpoint: 0 }
}

/// Off zero, so the model counts as populated.
fn populated() -> ModelState {
    ModelState { definition: None, checkpoint: 7 }
}

#[test]
fn a_matching_definition_is_up_to_date() {
    assert_eq!(reconcile_plan(&defined("abc"), "abc", true), Reconcile::UpToDate);
}

#[test]
fn a_changed_definition_rebuilds_when_auto_rebuild_is_on() {
    assert_eq!(reconcile_plan(&defined("old"), "new", true), Reconcile::Rebuild);
}

#[test]
fn a_changed_definition_is_stale_when_auto_rebuild_is_off() {
    assert_eq!(reconcile_plan(&defined("old"), "new", false), Reconcile::Stale);
}

#[test]
fn a_fresh_model_takes_the_current_definition_as_its_baseline() {
    assert_eq!(reconcile_plan(&fresh(), "new", true), Reconcile::Stamp);
    assert_eq!(reconcile_plan(&fresh(), "new", false), Reconcile::Stamp);
}

#[test]
fn a_populated_model_with_no_recorded_definition_is_never_blessed() {
    assert_eq!(reconcile_plan(&populated(), "new", true), Reconcile::Rebuild);
    assert_eq!(reconcile_plan(&populated(), "new", false), Reconcile::Stale);
}

#[test]
fn readiness_follows_the_plan() {
    assert_eq!(Reconcile::UpToDate.readiness(), Readiness::Ready);
    assert_eq!(Reconcile::Stamp.readiness(), Readiness::Ready);
    assert_eq!(Reconcile::Rebuild.readiness(), Readiness::Rebuilding);
    assert_eq!(Reconcile::Stale.readiness(), Readiness::Stale);
}

#[test]
fn readiness_round_trips_through_its_atomic_form() {
    for readiness in [
        Readiness::Ready,
        Readiness::Rebuilding,
        Readiness::Stale,
        Readiness::Failed,
    ] {
        assert_eq!(Readiness::from_u8(readiness.as_u8()), readiness);
    }
}

/// A model the read API refuses to serve is one a batch cannot be applied to either.
/// `Rebuilding` is the exception, since the rebuild itself is what applies those batches.
#[test]
fn only_a_current_shape_takes_batches() {
    assert!(Readiness::Ready.applies_batches());
    assert!(Readiness::Rebuilding.applies_batches());
    assert!(!Readiness::Stale.applies_batches());
    assert!(!Readiness::Failed.applies_batches());
}

/// Reconciling never yields `Failed`: it is decided by a rebuild that ran.
#[test]
fn a_reconcile_plan_never_starts_out_failed() {
    for plan in [
        Reconcile::UpToDate,
        Reconcile::Stamp,
        Reconcile::Rebuild,
        Reconcile::Stale,
    ] {
        assert_ne!(plan.readiness(), Readiness::Failed);
    }
}

fn shared(plan: Reconcile) -> ProjectorShared {
    ProjectorShared::new("orders", "/data/orders.db", vec![entity()], 3, plan)
}

#[test]
fn a_projector_starts_as_its_plan_says() {
    assert!(matches!(start(Reconcile::UpToDate), Start::Resume));
    assert!(matches!(start(Reconcile::Stamp), Start::Stamp));
    assert!(matches!(start(Reconcile::Rebuild), Start::Rebuild));
    assert!(matches!(start(Reconcile::Stale), Start::Warn));
}

#[test]
fn a_replay_is_taken_once() {
    let mut state = shared(Reconcile::UpToDate);
    assert!(matches!(next_action(&mut state), Action::Poll));
    state.request_replay();
    assert!(matches!(next_action(&mut state), Action::Rebuild));
    assert!(matches!(next_action(&mut state), Action::Poll));
}

#[test]
fn a_stale_projector_only_waits() {
    let mut state = shared(Reconcile::Stale);
    assert!(matches!(next_action(&mut state), Action::Idle));
    state.stop();
    assert!(matches!(next_action(&mut state), Action::Stop));
}

#[test]
fn an_empty_fetch_catches_up() {
    let mut state = shared(Reconcile::UpToDate);
    assert!(matches!(after_fetch(&state, 4, 9), Fetched::Apply));
    match after_fetch(&state, 0, 9) {
        Fetched::CaughtUp { advance, stop } => {
            assert_eq!(advance, Some(9));
            assert!(!stop);
        }
        Fetched::Apply => panic!("nothing was fetched"),
    }
    publish(&mut state, 9);
    assert_eq!(state.position(), 9);
}

#[test]
fn a_rebuild_that_fails_is_reported_until_one_succeeds() {
    let mut state = shared(Reconcile::Rebuild);
    degraded(&mut state, "disk full", &defined("old"), "new");
    assert_eq!(state.last_error(), Some("disk full".to_owned()));
    assert_eq!(state.readiness(), Readiness::Failed);
    rebuilt(&mut state, 12);
    assert_eq!(state.readiness(), Readiness::Ready);
    assert_eq!(state.position(), 12);
    assert_eq!(state.last_error(), None);
}

#[test]
fn a_thread_that_leaves_is_no_longer_running() {
    let mut state = shared(Reconcile::UpToDate);
    left(&mut state, Some("panicked"));
    assert!(!state.running());
    assert!(state.failed());
}

#[test]
fn a_definition_is_hashed_of_its_sources_and_entities() {
    let sources = vec![
        EventSpec::All,
        EventSpec::Filter {
            event_type: "order.placed".to_owned(),
            constraints: vec![("shop".to_owned(), "s1".to_owned())],
        },
    ];
    let entities = vec![entity()];
    let text = definition_text(&sources, &entities);
    assert!(text.starts_with("all;order.placed("), "{text}");
    let hash = definition_hash(&sources, &entities);
    assert_eq!(hash.len(), 64);
    assert!(hash.chars().all(|c| c.is_ascii_hexdigit()));
    assert_ne!(hash, definition_hash(&Vec::new(), &entities));
    assert_eq!(hash, definition_hash(&sources, &entities));
}

#[test]
fn sqlite_keeps_two_files_beside_a_database() {
    assert_eq!(
        sidecars("/data/orders.db"),
        ("/data/orders.db-wal".to_owned(), "/data/orders.db-shm".to_owned())
    );
}
