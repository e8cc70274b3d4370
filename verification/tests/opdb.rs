use hekla::opdb::{
    clamp_i64, invocations_at_sql, migrate, DeclarationRow, EffectState, InvocationState,
    JournalError, OpDb, RewrapUpdate, GLOBAL_SUBJECT_FIELD, SCHEMA_V1, SCHEMA_V2, SCHEMA_V3,
    SCHEMA_V4, SCHEMA_VERSION, SWEEP_CHUNK,
};
use rusqlite::types::Value;
use rusqlite::{params_from_iter, Connection};

/// Brings a database to the current schema, one version in one transaction at a time.
fn migrated(conn: Connection) -> Result<Connection, String> {
    loop {
        let version = schema_version(&conn);
        match migrate(version)? {
            None => return Ok(conn),
            Some(batch) => {
                let tx = conn.unchecked_transaction().map_err(|err| err.to_string())?;
                tx.execute_batch(batch).map_err(|err| err.to_string())?;
                tx.pragma_update(None, "user_version", version + 1)
                    .map_err(|err| err.to_string())?;
                tx.commit().map_err(|err| err.to_string())?;
            }
        }
    }
}

fn schema_version(conn: &Connection) -> i64 {
    conn.query_row("PRAGMA user_version", [], |row| row.get(0)).unwrap()
}

fn in_memory() -> Connection {
    migrated(Connection::open_in_memory().unwrap()).unwrap()
}

#[test]
fn opens_at_current_schema_version() {
    assert_eq!(schema_version(&in_memory()), SCHEMA_VERSION);
}

#[test]
fn creates_every_table() {
    let db = in_memory();
    for table in [
        "effect_invocation",
        "effect_journal",
        "declaration",
        "effect_cursor",
        "subject_key",
    ] {
        let count: i64 = db
            .query_row(
                "SELECT count(*) FROM sqlite_master WHERE type = 'table' AND name = ?1",
                [table],
                |row| row.get(0),
            )
            .unwrap();
        assert_eq!(count, 1, "table `{table}` should exist");
    }
}

#[test]
fn reopening_is_idempotent() {
    let dir = tempfile::tempdir().unwrap();
    let path = dir.path().join("hekla.db");
    migrated(Connection::open(&path).unwrap()).unwrap();
    let reopened = migrated(Connection::open(&path).unwrap()).unwrap();
    assert_eq!(schema_version(&reopened), SCHEMA_VERSION);
}

#[test]
fn a_newer_schema_is_refused() {
    assert!(migrate(SCHEMA_VERSION + 1).is_err());
    assert!(migrate(-1).is_err());
    assert!(matches!(migrate(SCHEMA_VERSION), Ok(None)));
}

#[test]
fn begin_invocation_is_running_then_terminal_then_skipped() {
    let mut db = OpDb::open_in_memory();
    assert!(matches!(
        db.begin_invocation("e", 1, "h", "t0"),
        InvocationState::Running
    ));
    // A second begin before completion still runs (crash replay).
    assert!(matches!(
        db.begin_invocation("e", 1, "h", "t1"),
        InvocationState::Running
    ));
    db.complete_invocation("e", 1, "t2");
    assert!(matches!(
        db.begin_invocation("e", 1, "h", "t3"),
        InvocationState::AlreadyTerminal
    ));
}

#[test]
fn a_skipped_position_is_ended_and_says_so() {
    let mut db = OpDb::open_in_memory();
    db.begin_invocation("e", 1, "h", "t0");
    assert!(!db.invocation_skipped("e", 1));
    db.skip_invocation("e", 1, "t1");
    assert!(db.invocation_skipped("e", 1));
    assert!(matches!(
        db.begin_invocation("e", 1, "h", "t2"),
        InvocationState::AlreadyTerminal
    ));
}

#[test]
fn journal_round_trips_by_hash_and_disambiguator() {
    let mut db = OpDb::open_in_memory();
    db.begin_invocation("e", 1, "h", "t0");
    assert_eq!(db.journal_get("e", 1, "abc", 0), None);
    db.journal_put("e", 1, "abc", 0, "http", r#"{"n":1}"#, "t1").ok().unwrap();
    db.journal_put("e", 1, "abc", 1, "http", r#"{"n":2}"#, "t2").ok().unwrap();
    assert_eq!(
        db.journal_get("e", 1, "abc", 0).as_deref(),
        Some(r#"{"n":1}"#)
    );
    assert_eq!(
        db.journal_get("e", 1, "abc", 1).as_deref(),
        Some(r#"{"n":2}"#)
    );
}

#[test]
fn a_journaled_call_is_written_once_and_under_an_invocation() {
    let mut db = OpDb::open_in_memory();
    assert!(matches!(
        db.journal_put("e", 1, "abc", 0, "http", "{}", "t1"),
        Err(JournalError::NoInvocation)
    ));
    db.begin_invocation("e", 1, "h", "t0");
    db.journal_put("e", 1, "abc", 0, "http", "{}", "t1").ok().unwrap();
    assert!(matches!(
        db.journal_put("e", 1, "abc", 0, "http", "[]", "t2"),
        Err(JournalError::Duplicate)
    ));
    assert_eq!(db.journal_keys("e", 1), vec![("abc".to_owned(), 0)]);
}

#[test]
fn effect_cursor_defaults_to_zero_then_advances() {
    let mut db = OpDb::open_in_memory();
    assert_eq!(db.effect_resume_after("e"), 0);
    db.set_effect_watermark("e", 7);
    assert_eq!(db.effect_resume_after("e"), 7);
    db.set_effect_watermark("e", 12);
    assert_eq!(db.effect_resume_after("e"), 12);
}

#[test]
fn running_with_hash_mismatch_lists_only_stale_running() {
    let mut db = OpDb::open_in_memory();
    // Both versions of `e` are on record, which is what makes "old" a *known* other
    // version rather than an unrecognised hash.
    db.set_current_declarations(&vec![decl("effect", "e", "old")], "t0");
    db.set_current_declarations(&vec![decl("effect", "e", "new")], "t1");

    db.begin_invocation("e", 1, "old", "t0"); // running, stale hash
    db.begin_invocation("e", 2, "new", "t0"); // running, current hash
    db.begin_invocation("e", 3, "old", "t0");
    db.complete_invocation("e", 3, "t1"); // terminal, ignored
    assert_eq!(db.running_with_hash_mismatch("e", "new"), vec![1]);
}

/// A hash that the table never held is a different measurement, not evidence that
/// anything changed.
#[test]
fn an_unrecognised_script_hash_is_not_reported_as_a_change() {
    let mut db = OpDb::open_in_memory();
    db.set_current_declarations(&vec![decl("effect", "e", "new")], "t0");
    db.begin_invocation("e", 1, "a-hash-of-some-file-bytes", "t0");

    assert!(
        db.running_with_hash_mismatch("e", "new").is_empty(),
        "a hash this table never held says nothing about the code"
    );
    assert!(
        db.declaration_by_hash("effect", "e", "a-hash-of-some-file-bytes")
            .is_none(),
        "and it is distinguishable from a known older version by exactly that"
    );
}

fn rewrap(wrapped: &[u8], master: &str, expected: &str) -> RewrapUpdate {
    RewrapUpdate {
        subject_field: "customer_id".to_owned(),
        subject_value: "1".to_owned(),
        wrapped_key: wrapped.to_vec(),
        master_key_id: master.to_owned(),
        expected_master_id: expected.to_owned(),
    }
}

#[test]
fn rewrap_is_a_compare_and_set_on_the_master_id() {
    let mut db = OpDb::open_in_memory();
    db.get_or_insert_subject_key(
        "customer_id",
        "1",
        &b"wrapped-under-A".to_vec(),
        "master-A",
        "t0",
    );
    // The rewrap expects another master than the row's, so its compare-and-set misses.
    let rewrapped = db.rewrap_subject_keys(&vec![rewrap(b"stale-rewrap", "master-C", "master-B")]);
    assert_eq!(rewrapped, 0, "a mismatched expected master rewraps nothing");
    let (wrapped, master) = db.get_subject_key("customer_id", "1").unwrap();
    assert_eq!(
        master, "master-A",
        "a mismatched expected master is a no-op"
    );
    assert_eq!(wrapped, b"wrapped-under-A");
    // A rewrap that expects the row's real current master applies.
    let rewrapped =
        db.rewrap_subject_keys(&vec![rewrap(b"wrapped-under-C", "master-C", "master-A")]);
    assert_eq!(rewrapped, 1, "a matching expected master rewraps the row");
    let (wrapped, master) = db.get_subject_key("customer_id", "1").unwrap();
    assert_eq!(master, "master-C");
    assert_eq!(wrapped, b"wrapped-under-C");
}

#[test]
fn a_subject_key_is_made_once() {
    let mut db = OpDb::open_in_memory();
    let first = db.get_or_insert_subject_key("c", "1", &b"one".to_vec(), "m", "t0");
    let second = db.get_or_insert_subject_key("c", "1", &b"two".to_vec(), "n", "t1");
    assert_eq!(first, (b"one".to_vec(), "m".to_owned()));
    assert_eq!(second, first);
    assert_eq!(db.all_subject_keys().len(), 1);
    assert!(db.delete_subject_key("c", "1"));
    assert!(!db.delete_subject_key("c", "1"));
}

#[test]
fn distinct_master_key_ids_lists_each_once() {
    let mut db = OpDb::open_in_memory();
    db.get_or_insert_subject_key("customer_id", "1", &b"w".to_vec(), "master-A", "t0");
    db.get_or_insert_subject_key("customer_id", "2", &b"w".to_vec(), "master-A", "t0");
    db.get_or_insert_subject_key("customer_id", "3", &b"w".to_vec(), "master-B", "t0");
    let mut ids = db.distinct_master_key_ids();
    ids.sort();
    assert_eq!(ids, vec!["master-A".to_owned(), "master-B".to_owned()]);
}

/// A declaration row with only the columns a test cares about set.
fn decl(kind: &str, name: &str, hash: &str) -> DeclarationRow {
    DeclarationRow {
        kind: kind.to_owned(),
        name: name.to_owned(),
        hash: hash.to_owned(),
        signature_hash: None,
        form: format!("({kind} {name})"),
        signature: None,
        module: None,
        first_seen: String::new(),
        last_seen: String::new(),
        current: true,
    }
}

fn count_declarations(db: &OpDb) -> usize {
    db.declarations.len()
}

#[test]
fn a_declaration_that_did_not_change_writes_no_new_row() {
    let mut db = OpDb::open_in_memory();
    db.set_current_declarations(&vec![decl("effect", "m", "h1")], "t0");
    db.set_current_declarations(&vec![decl("effect", "m", "h1")], "t1");

    assert_eq!(
        count_declarations(&db),
        1,
        "the same declaration re-loaded is the same row, so a restart costs nothing"
    );
    let row = db.declaration_by_hash("effect", "m", "h1").unwrap();
    assert_eq!(
        row.first_seen, "t0",
        "the first sighting is not overwritten"
    );
    assert_eq!(row.last_seen, "t1", "the latest one is");
}

#[test]
fn a_changed_declaration_keeps_the_version_it_replaced() {
    let mut db = OpDb::open_in_memory();
    db.set_current_declarations(&vec![decl("effect", "m", "h1")], "t0");
    db.set_current_declarations(&vec![decl("effect", "m", "h2")], "t1");

    assert_eq!(count_declarations(&db), 2, "both versions are kept");
    let current = db.current_declarations();
    assert_eq!(
        current
            .iter()
            .map(|row| row.hash.as_str())
            .collect::<Vec<_>>(),
        vec!["h2"],
        "only the version this boot loaded is current"
    );
    assert!(db.declaration_by_hash("effect", "m", "h1").is_some());
    assert!(db.declaration_by_hash("effect", "m", "h9").is_none());
}

#[test]
fn a_declaration_that_is_gone_stops_being_current() {
    let mut db = OpDb::open_in_memory();
    db.set_current_declarations(
        &vec![decl("effect", "kept", "h1"), decl("effect", "gone", "h2")],
        "t0",
    );
    db.set_current_declarations(&vec![decl("effect", "kept", "h1")], "t1");

    let current = db.current_declarations();
    assert_eq!(
        current
            .iter()
            .map(|row| row.name.as_str())
            .collect::<Vec<_>>(),
        vec!["kept"],
        "a declaration deleted from the project is no longer deployed"
    );
    assert_eq!(
        count_declarations(&db),
        2,
        "but its row survives, so what it was is still answerable"
    );
}

/// The three bounds a replay against a live deployment needs, and the order it wants them
/// in.
#[test]
fn recent_terminal_invocations_stops_at_the_prefix_the_hash_and_the_limit() {
    let mut db = OpDb::open_in_memory();
    for position in 1..=5u64 {
        db.begin_invocation("e", position, "h", "t0");
        db.complete_invocation("e", position, "t1");
    }
    // Still running, so not a candidate at all.
    db.begin_invocation("e", 6, "h", "t0");
    // The same effect, one edit ago.
    db.begin_invocation("e", 7, "older", "t0");
    db.complete_invocation("e", 7, "t1");

    assert_eq!(
        db.recent_terminal_invocations("e", "h", 100, 100),
        vec![5, 4, 3, 2, 1],
        "newest first, and a running invocation is not one"
    );
    assert_eq!(
        db.recent_terminal_invocations("e", "h", 3, 100),
        vec![3, 2, 1],
        "nothing above the pinned prefix, however terminal it is"
    );
    assert_eq!(
        db.recent_terminal_invocations("e", "h", 100, 2),
        vec![5, 4],
        "the limit keeps the most recent, not the first it happens to read"
    );
    assert_eq!(
        db.recent_terminal_invocations("e", "older", 100, 100),
        vec![7],
        "a row belongs to the program that wrote it, not to the effect's name"
    );
    assert!(
        db.recent_terminal_invocations("other", "h", 100, 100)
            .is_empty()
    );

    assert_eq!(
        db.count_terminal_invocations("e", "h", 100),
        5,
        "the count answers the same question with no limit on it"
    );
    assert_eq!(db.count_terminal_invocations("e", "h", 3), 3);
    assert_eq!(db.count_terminal_invocations("e", "older", 100), 1);
    assert_eq!(db.terminal_invocations("e").len(), 6);
}

#[test]
fn sweep_removes_only_old_terminal_and_cascades_the_journal() {
    let mut db = OpDb::open_in_memory();
    // The cursor is past both completed positions, so age and status are the only things
    // under test here.
    db.set_effect_watermark("e", 2);
    // Old terminal: swept, journal cascades.
    db.begin_invocation("e", 1, "h", "t0");
    db.journal_put("e", 1, "abc", 0, "http", "{}", "t0").ok().unwrap();
    db.complete_invocation("e", 1, "2026-01-01T00:00:00Z");
    // Recent terminal: kept.
    db.begin_invocation("e", 2, "h", "t0");
    db.complete_invocation("e", 2, "2026-12-31T00:00:00Z");
    // Old but still running: kept (never sweep in-flight work).
    db.begin_invocation("e", 3, "h", "2026-01-01T00:00:00Z");

    let deleted = db.sweep_effect_journal("2026-06-01T00:00:00Z", SWEEP_CHUNK);
    assert_eq!(deleted, 1);
    assert_eq!(db.journal_get("e", 1, "abc", 0), None);
    assert!(matches!(
        db.begin_invocation("e", 2, "h", "t9"),
        InvocationState::AlreadyTerminal
    ));
    assert!(matches!(
        db.begin_invocation("e", 3, "h", "t9"),
        InvocationState::Running
    ));
}

/// Positions that are terminal above the effect's persisted watermark must survive, or the
/// next boot fires every side effect again.
#[test]
fn sweep_keeps_terminal_invocations_above_the_effect_watermark() {
    let mut db = OpDb::open_in_memory();
    db.set_effect_watermark("e", 0);
    db.begin_invocation("e", 5, "h", "t0");
    db.journal_put("e", 5, "abc", 0, "http", "{}", "t0").ok().unwrap();
    db.complete_invocation("e", 5, "2020-01-01T00:00:00Z");

    let deleted = db.sweep_effect_journal("2026-06-01T00:00:00Z", SWEEP_CHUNK);
    assert_eq!(
        deleted, 0,
        "a terminal invocation the cursor has not passed is still needed"
    );
    assert!(
        db.journal_get("e", 5, "abc", 0).is_some(),
        "the journal cascaded away under a watermark that never reached it"
    );
    assert!(
        matches!(
            db.begin_invocation("e", 5, "h", "t9"),
            InvocationState::AlreadyTerminal
        ),
        "the position re-runs after the sweep, so its side effects fire twice"
    );
}

/// One effect's cursor must not license sweeping another's positions.
#[test]
fn sweep_bounds_each_effect_by_its_own_cursor() {
    let mut db = OpDb::open_in_memory();
    db.set_effect_watermark("swept", 1);
    for effect in ["swept", "no-cursor"] {
        db.begin_invocation(effect, 1, "h", "t0");
        db.journal_put(effect, 1, "abc", 0, "http", "{}", "t0").ok().unwrap();
        db.complete_invocation(effect, 1, "2020-01-01T00:00:00Z");
    }

    let deleted = db.sweep_effect_journal("2026-06-01T00:00:00Z", SWEEP_CHUNK);
    assert_eq!(deleted, 1, "only the effect with a cursor past 1 is swept");
    assert_eq!(db.journal_get("swept", 1, "abc", 0), None);
    assert!(
        db.journal_get("no-cursor", 1, "abc", 0).is_some(),
        "an effect that has never persisted a cursor still replays position 1"
    );
}

#[test]
fn sweep_returns_exactly_the_limit_when_more_rows_remain() {
    let mut db = OpDb::open_in_memory();
    // The cursor is past every position here, so the chunk boundary is the only thing
    // under test.
    db.set_effect_watermark("e", 3);
    for position in 1..=3 {
        db.begin_invocation("e", position, "h", "t0");
        db.journal_put("e", position, "abc", 0, "http", "{}", "t0").ok().unwrap();
        db.complete_invocation("e", position, "2020-01-01T00:00:00Z");
    }

    let first = db.sweep_effect_journal("2026-06-01T00:00:00Z", 2);
    assert_eq!(first, 2, "a full chunk keeps `run_sweep` looping");
    let second = db.sweep_effect_journal("2026-06-01T00:00:00Z", 2);
    assert_eq!(second, 1, "a short chunk ends `run_sweep`'s loop");
    let third = db.sweep_effect_journal("2026-06-01T00:00:00Z", 2);
    assert_eq!(third, 0, "nothing is left to reclaim");
    assert_eq!(
        db.journal_get("e", 3, "abc", 0),
        None,
        "the last chunk cascaded its journal rows too"
    );
}

#[test]
fn a_journal_row_written_before_v5_reads_back_with_no_kind() {
    let dir = tempfile::tempdir().unwrap();
    let path = dir.path().join("hekla.db");
    {
        // A database at v4: the journal exists, but without the kind column.
        let conn = Connection::open(&path).unwrap();
        conn.execute_batch(SCHEMA_V1).unwrap();
        conn.execute_batch(SCHEMA_V2).unwrap();
        conn.execute_batch(SCHEMA_V3).unwrap();
        conn.execute_batch(SCHEMA_V4).unwrap();
        conn.pragma_update(None, "user_version", 4i64).unwrap();
        conn.execute(
            "INSERT INTO effect_invocation (effect, position, script_hash, status, created_at) \
             VALUES ('e', 1, 'h', 'running', 't0')",
            [],
        )
        .unwrap();
        conn.execute(
            "INSERT INTO effect_journal (effect, position, call_hash, disambiguator, result, created_at) \
             VALUES ('e', 1, 'old', 0, '{}', 't0')",
            [],
        )
        .unwrap();
    }

    let db = migrated(Connection::open(&path).unwrap()).unwrap();
    assert_eq!(schema_version(&db), SCHEMA_VERSION);
    db.execute(
        "INSERT INTO effect_journal (effect, position, call_hash, disambiguator, kind, result, created_at) \
         VALUES ('e', 1, 'new', 0, 'http', '{}', 't1')",
        [],
    )
    .unwrap();

    let calls: Vec<(String, Option<String>)> = db
        .prepare("SELECT call_hash, kind FROM effect_journal ORDER BY created_at")
        .unwrap()
        .query_map([], |row| Ok((row.get(0)?, row.get(1)?)))
        .unwrap()
        .map(Result::unwrap)
        .collect();
    assert_eq!(calls.len(), 2, "the migration preserves existing rows");
    assert_eq!(calls[0], ("old".to_owned(), None));
    assert_eq!(calls[1], ("new".to_owned(), Some("http".to_owned())));
}

/// A join constrained on `position` alone would scan a table that grows with traffic.
#[test]
fn the_invocation_join_reads_the_primary_key_rather_than_scanning() {
    let db = in_memory();
    let sql = format!("EXPLAIN QUERY PLAN {}", invocations_at_sql(2, 3));
    let binds = [
        Value::Text("a".to_owned()),
        Value::Text("b".to_owned()),
        Value::Integer(1),
        Value::Integer(2),
        Value::Integer(3),
        Value::Integer(6),
    ];
    let plan: Vec<String> = db
        .prepare(&sql)
        .unwrap()
        .query_map(params_from_iter(binds), |row| row.get(3))
        .unwrap()
        .map(Result::unwrap)
        .collect();
    let plan = plan.join("\n");
    assert!(
        plan.contains("SEARCH"),
        "the join must reach rows through the primary key: {plan}"
    );
    assert!(
        !plan.contains("SCAN effect_invocation"),
        "a full scan of a traffic-scaled table is forbidden: {plan}"
    );
}

fn names(list: &[&str]) -> Vec<String> {
    list.iter().map(|name| (*name).to_owned()).collect()
}

#[test]
fn the_invocation_join_returns_only_the_asked_for_pairs_in_a_stable_order() {
    let mut db = OpDb::open_in_memory();
    for effect in ["b-effect", "a-effect", "unasked"] {
        for position in 1..=4 {
            db.begin_invocation(effect, position, "h", "t0");
        }
    }
    db.complete_invocation("a-effect", 2, "t9");

    let found = db.invocations_at(&names(&["a-effect", "b-effect"]), &vec![2, 1]);
    let pairs: Vec<(&str, u64, &str)> = found
        .iter()
        .map(|row| (row.effect.as_str(), row.position, row.status.as_str()))
        .collect();
    assert_eq!(
        pairs,
        vec![
            ("a-effect", 1, "running"),
            ("b-effect", 1, "running"),
            ("a-effect", 2, "terminal"),
            ("b-effect", 2, "running"),
        ],
        "sorted by position then effect regardless of the order asked for"
    );
    assert!(
        !found.iter().any(|row| row.effect == "unasked"),
        "an effect the caller did not name must not leak in"
    );
}

#[test]
fn the_invocation_join_is_empty_rather_than_a_syntax_error_when_asked_for_nothing() {
    let mut db = OpDb::open_in_memory();
    db.begin_invocation("e", 1, "h", "t0");
    assert!(db.invocations_at(&names(&[]), &vec![1]).is_empty());
    assert!(db.invocations_at(&names(&["e"]), &vec![]).is_empty());
    assert!(db.invocations_at(&names(&[]), &vec![]).is_empty());
}

#[test]
fn invocations_page_newest_first_and_carry_their_lifecycle_timestamps() {
    let mut db = OpDb::open_in_memory();
    for position in 1..=5 {
        db.begin_invocation("e", position, "h", "t0");
    }
    db.complete_invocation("e", 2, "t9");

    let first = db.invocations("e", u64::MAX, 2);
    assert_eq!(
        first.iter().map(|row| row.position).collect::<Vec<_>>(),
        vec![5, 4],
        "u64::MAX must saturate rather than bind as -1 against a signed column"
    );

    let next = db.invocations("e", first.last().unwrap().position, 2);
    assert_eq!(
        next.iter().map(|row| row.position).collect::<Vec<_>>(),
        vec![3, 2],
        "the cursor is exclusive"
    );
    let completed = next.iter().find(|row| row.position == 2).unwrap();
    assert_eq!(completed.status, "terminal");
    assert_eq!(completed.completed_at.as_deref(), Some("t9"));

    let running = db.invocation("e", 1).unwrap();
    assert_eq!(running.status, "running");
    assert_eq!(running.completed_at, None);
    assert!(db.invocation("e", 99).is_none());
    assert!(db.invocation("other", 1).is_none());
}

fn state_of<'a>(states: &'a [(String, EffectState)], effect: &str) -> Option<&'a EffectState> {
    states.iter().find(|(name, _)| name == effect).map(|(_, state)| state)
}

#[test]
fn effect_state_distinguishes_never_ran_from_ran_to_zero() {
    let mut db = OpDb::open_in_memory();
    assert!(state_of(&db.effect_states(), "e").is_none());
    assert_eq!(db.effect_resume_after("e"), 0);

    db.set_effect_watermark("e", 0);
    let states = db.effect_states();
    assert_eq!(
        state_of(&states, "e").and_then(|state| state.watermark),
        Some(0),
        "the driver flattens both to zero; an operator needs them apart"
    );
    assert!(state_of(&states, "e").unwrap().quarantine.is_none());
    assert_eq!(db.effect_state("e").watermark, Some(0));
}

#[test]
fn effect_states_answers_both_tables_for_every_effect_at_once() {
    let mut db = OpDb::open_in_memory();
    db.set_effect_watermark("ran", 4);
    db.quarantine_effect("broken", 7, "replay diverged", "2026-01-01T00:00:00Z");

    let states = db.effect_states();
    assert_eq!(
        states.len(),
        2,
        "an effect appears if either table knows it"
    );
    assert_eq!(state_of(&states, "ran").unwrap().watermark, Some(4));
    assert!(state_of(&states, "ran").unwrap().quarantine.is_none());
    // Quarantined before it ever advanced: no cursor row, but a quarantine row.
    assert_eq!(state_of(&states, "broken").unwrap().watermark, None);
    let quarantine = state_of(&states, "broken").unwrap().quarantine.as_ref().unwrap();
    assert_eq!(quarantine.position, 7);
    assert_eq!(quarantine.reason, "replay diverged");
    assert!(!quarantine.at.is_empty());
    assert_eq!(
        db.effect_quarantine("broken"),
        Some((7, "replay diverged".to_owned()))
    );
}

#[test]
fn current_declarations_read_back_in_a_stable_order() {
    let mut db = OpDb::open_in_memory();
    db.set_current_declarations(
        &vec![
            decl("command", "zeta", "h1"),
            decl("projector", "alpha", "h2"),
            decl("command", "alpha", "h3"),
        ],
        "t0",
    );

    let rows = db.current_declarations();
    assert_eq!(
        rows.iter()
            .map(|row| (row.kind.as_str(), row.name.as_str()))
            .collect::<Vec<_>>(),
        vec![
            ("command", "alpha"),
            ("command", "zeta"),
            ("projector", "alpha")
        ],
        "a declaration is identified by kind and name together"
    );
    assert_eq!(rows[0].hash, "h3");
}

#[test]
fn the_subject_inventory_pages_and_excludes_the_global_secret() {
    let mut db = OpDb::open_in_memory();
    for (field, value) in [
        ("customer_id", "1"),
        ("customer_id", "2"),
        ("shop_id", "9"),
        (GLOBAL_SUBJECT_FIELD, "global"),
    ] {
        db.get_or_insert_subject_key(field, value, &b"wrapped".to_vec(), "m1", "t0");
    }

    assert_eq!(
        db.subject_key_counts(),
        vec![("customer_id".to_owned(), 2), ("shop_id".to_owned(), 1)],
        "the global uniqueness secret is not a subject and cannot be erased"
    );

    let first = db.subject_keys_page(None, 2);
    assert_eq!(
        first
            .iter()
            .map(|row| (row.subject_field.as_str(), row.subject_value.as_str()))
            .collect::<Vec<_>>(),
        vec![("customer_id", "1"), ("customer_id", "2")]
    );
    let last = first.last().unwrap();
    let next = db.subject_keys_page(Some((&last.subject_field, &last.subject_value)), 2);
    assert_eq!(
        next.iter()
            .map(|row| (row.subject_field.as_str(), row.subject_value.as_str()))
            .collect::<Vec<_>>(),
        vec![("shop_id", "9")],
        "the keyset cursor crosses a field boundary"
    );

    assert!(db.subject_key_exists("customer_id", "1"));
    assert!(!db.subject_key_exists("customer_id", "404"));
    db.delete_subject_key("customer_id", "1");
    assert!(
        !db.subject_key_exists("customer_id", "1"),
        "erasure deletes the row, so erased and never-existed are one state"
    );
}

/// A migration that fails mid-batch rolls its DDL and the version bump back together.
#[test]
fn a_migration_that_fails_partway_leaves_nothing_behind() {
    let dir = tempfile::tempdir().unwrap();
    let path = dir.path().join("hekla.db");
    {
        let conn = Connection::open(&path).unwrap();
        conn.execute_batch(SCHEMA_V1).unwrap();
        conn.execute_batch(SCHEMA_V2).unwrap();
        conn.pragma_update(None, "user_version", 2i64).unwrap();
        // Collides with the index v3 creates after its CREATE TABLE, so the batch fails
        // with one statement already applied.
        conn.execute_batch("CREATE INDEX subject_key_by_master ON module_metadata (kind);")
            .unwrap();
    }

    assert!(
        migrated(Connection::open(&path).unwrap()).is_err(),
        "the v3 batch cannot succeed"
    );

    let conn = Connection::open(&path).unwrap();
    assert_eq!(schema_version(&conn), 2, "a failed migration does not bump the version");
    let tables: i64 = conn
        .query_row(
            "SELECT count(*) FROM sqlite_master WHERE type = 'table' AND name = 'subject_key'",
            [],
            |row| row.get(0),
        )
        .unwrap();
    assert_eq!(tables, 0, "a failed migration rolls back its applied DDL");
}

#[test]
fn a_position_is_clamped_to_what_a_column_holds() {
    assert_eq!(clamp_i64(7), 7);
    assert_eq!(clamp_i64(u64::MAX), i64::MAX);
}

#[test]
fn journaled_calls_page_in_the_order_they_were_made() {
    let mut db = OpDb::open_in_memory();
    db.begin_invocation("e", 1, "h", "t0");
    for n in 0..4u64 {
        db.journal_put("e", 1, "abc", n, "http", "{}", "t1").ok().unwrap();
    }
    let page: Vec<u64> =
        db.journal_entries("e", 1, 1, 2).iter().map(|row| row.disambiguator).collect();
    assert_eq!(page, vec![1, 2]);
    assert!(db.journal_entries("e", 2, 0, 10).is_empty());
}

#[test]
fn tables_that_contradict_each_other_are_not_sound() {
    let mut db = OpDb::open_in_memory();
    db.begin_invocation("e", 1, "h", "t0");
    db.journal_put("e", 1, "abc", 0, "http", "{}", "t1").ok().unwrap();
    assert!(db.is_sound());
    let mut twice = OpDb::open_in_memory();
    twice.cursors = vec![("e".to_owned(), 1), ("e".to_owned(), 2)];
    assert!(!twice.is_sound());
    // A call without its invocation.
    db.invocations.clear();
    assert!(!db.is_sound());
}
