use hekla::json::Json;
use hekla::read_api::Filter;
use hekla::read_model::{
    apply_one, coerce_value, count, from_sql, get, parse_object, read_checkpoint, row_to_json, rows, scan,
    set_definition, write_checkpoint, ApplyError, SqlValue, Statement, Stored, INTERNAL_DDL,
    READ_CHECKPOINT, READ_DEFINITION,
};
use hekla::schema::{EntityDef, EntityOpKind, FieldKind, FieldMeta, IndexDef};
use hekla::sql::quote_ident;
use rusqlite::config::DbConfig;
use rusqlite::types::{Value, ValueRef};
use rusqlite::{params_from_iter, Connection, OpenFlags};
use tempfile::TempDir;

fn users_entity() -> EntityDef {
    EntityDef {
        name: "users".to_owned(),
        key: "user_id".to_owned(),
        fields: vec![
            ("user_id".to_owned(), FieldMeta::plain(FieldKind::Uuid)),
            (
                "email".to_owned(),
                FieldMeta::plain(FieldKind::Text { max_length: None }),
            ),
        ],
        indexes: vec![],
    }
}

/// A connection that runs what the library writes.
struct Model {
    conn: Connection,
}

fn reject_double_quoted_strings(conn: &Connection) {
    conn.set_db_config(DbConfig::SQLITE_DBCONFIG_DQS_DML, false).unwrap();
    conn.set_db_config(DbConfig::SQLITE_DBCONFIG_DQS_DDL, false).unwrap();
}

fn open(conn: Connection, entities: &[EntityDef]) -> Model {
    reject_double_quoted_strings(&conn);
    conn.execute_batch(INTERNAL_DDL).unwrap();
    for entity in entities {
        conn.execute_batch(&entity.create_table_sql()).unwrap();
        for stmt in entity.create_index_sql() {
            conn.execute_batch(&stmt).unwrap();
        }
    }
    Model { conn }
}

fn open_temp(entities: &[EntityDef]) -> (Model, TempDir) {
    let dir = tempfile::tempdir().unwrap();
    let conn = Connection::open(dir.path().join("m.db")).unwrap();
    (open(conn, entities), dir)
}

fn binds(values: Vec<SqlValue>) -> Vec<Value> {
    values
        .into_iter()
        .map(|value| match value {
            SqlValue::Null => Value::Null,
            SqlValue::Integer(n) => Value::Integer(n),
            SqlValue::Text(text) => Value::Text(text),
        })
        .collect()
}

impl Model {
    fn run(&self, statement: Statement) {
        self.conn
            .execute(&statement.sql, params_from_iter(binds(statement.binds)))
            .unwrap();
    }

    fn apply(&self, entity: &EntityDef, op: EntityOpKind) {
        if let Some(statement) = apply_one(entity, &op).ok().unwrap() {
            self.run(statement);
        }
    }

    fn put(&self, entity: &EntityDef, id: &str, email: &str) {
        let row = format!("{{\"user_id\":\"{id}\",\"email\":\"{email}\"}}");
        self.apply(entity, EntityOpKind::Put(row));
    }

    fn query(&self, entity: &EntityDef, statement: Statement) -> Vec<Json> {
        let mut stmt = self.conn.prepare(&statement.sql).unwrap();
        let mut found = stmt.query(params_from_iter(binds(statement.binds))).unwrap();
        let mut out = Vec::new();
        while let Some(row) = found.next().unwrap() {
            let stored = (0..entity.fields.len())
                .map(|at| match row.get_ref(at).unwrap() {
                    ValueRef::Null => Stored::Null,
                    ValueRef::Integer(n) => Stored::Integer(n),
                    ValueRef::Real(_) => Stored::Real(None),
                    ValueRef::Text(bytes) => Stored::Text(bytes.to_vec()),
                    ValueRef::Blob(_) => Stored::Blob,
                })
                .collect();
            out.push(row_to_json(entity, stored).unwrap());
        }
        out
    }

    fn get(&self, entity: &EntityDef, key: &str) -> Option<Json> {
        self.query(entity, get(entity, key)).pop()
    }

    fn scan(
        &self,
        entity: &EntityDef,
        filter: Option<(&str, &str)>,
        after: Option<&str>,
        limit: usize,
    ) -> Vec<Json> {
        let filter = Filter {
            equals: filter
                .into_iter()
                .map(|(column, value)| (column.to_owned(), value.to_owned()))
                .collect(),
            range: None,
        };
        self.query(entity, scan(entity, &filter, after, limit))
    }
}

fn text<'a>(row: &'a Json, name: &str) -> &'a str {
    match row.get(name) {
        Some(Json::Text(text)) => text,
        _ => panic!("no text {name}"),
    }
}

fn put_json(members: &[(&str, &str)]) -> EntityOpKind {
    let inner: Vec<String> = members
        .iter()
        .map(|(name, value)| format!("\"{name}\":{value}"))
        .collect();
    EntityOpKind::Put(format!("{{{}}}", inner.join(",")))
}

#[test]
fn checkpoint_round_trips() {
    let (model, _dir) = open_temp(&[users_entity()]);
    let read = || -> u64 {
        let stored: i64 = model.conn.query_row(READ_CHECKPOINT, [], |row| row.get(0)).unwrap();
        read_checkpoint(stored)
    };
    assert_eq!(read(), 0);
    let tx = model.conn.unchecked_transaction().unwrap();
    model.run(write_checkpoint(42));
    tx.commit().unwrap();
    assert_eq!(read(), 42);
    model.run(write_checkpoint(u64::MAX));
    assert_eq!(read(), u64::MAX);
}

#[test]
fn a_definition_reads_back() {
    let (model, _dir) = open_temp(&[users_entity()]);
    let read = || -> Option<String> {
        model.conn.query_row(READ_DEFINITION, [], |row| row.get(0)).unwrap()
    };
    assert_eq!(read(), None);
    model.run(set_definition("abc"));
    assert_eq!(read(), Some("abc".to_owned()));
}

#[test]
fn get_returns_none_then_the_row() {
    let entity = users_entity();
    let (model, _dir) = open_temp(&[users_entity()]);
    assert!(model.get(&entity, "u1").is_none());
    model.put(&entity, "u1", "a@b.c");
    let row = model.get(&entity, "u1").unwrap();
    assert_eq!(text(&row, "email"), "a@b.c");
    assert_eq!(text(&row, "user_id"), "u1");
}

#[test]
fn scan_paginates_by_key_covering_every_row_once() {
    let entity = users_entity();
    let (model, _dir) = open_temp(&[users_entity()]);
    for i in 0..5 {
        model.put(&entity, &format!("u{i}"), &format!("{i}@x"));
    }
    let mut seen = Vec::new();
    let mut after: Option<String> = None;
    loop {
        let page = model.scan(&entity, None, after.as_deref(), 2);
        if page.is_empty() {
            break;
        }
        for row in &page {
            seen.push(text(row, "user_id").to_owned());
        }
        after = Some(text(page.last().unwrap(), "user_id").to_owned());
        if page.len() < 2 {
            break;
        }
    }
    assert_eq!(seen, vec!["u0", "u1", "u2", "u3", "u4"]);
}

#[test]
fn scan_filters_on_a_column() {
    let entity = users_entity();
    let (model, _dir) = open_temp(&[users_entity()]);
    model.put(&entity, "u1", "match@x");
    model.put(&entity, "u2", "other@x");
    let rows = model.scan(&entity, Some(("email", "match@x")), None, 50);
    assert_eq!(rows.len(), 1);
    assert_eq!(text(&rows[0], "user_id"), "u1");
}

/// A bool filter must bind as INTEGER 0/1, matching how the column is stored.
#[test]
fn scan_filters_on_a_bool_column() {
    let entity = EntityDef {
        name: "flags".to_owned(),
        key: "user_id".to_owned(),
        fields: vec![
            ("user_id".to_owned(), FieldMeta::plain(FieldKind::Uuid)),
            ("active".to_owned(), FieldMeta::plain(FieldKind::Bool)),
        ],
        indexes: vec![],
    };
    let (model, _dir) = open_temp(&[entity.clone()]);
    for (id, active) in [("\"u1\"", "true"), ("\"u2\"", "false"), ("\"u3\"", "true")] {
        model.apply(&entity, put_json(&[("user_id", id), ("active", active)]));
    }
    let active = model.scan(&entity, Some(("active", "true")), None, 50);
    assert_eq!(active.len(), 2);
    let inactive = model.scan(&entity, Some(("active", "false")), None, 50);
    assert_eq!(inactive.len(), 1);
    assert_eq!(text(&inactive[0], "user_id"), "u2");
}

/// Table, key, filter column and plain column are all SQLite keywords, so a single
/// unquoted identifier in any statement is a syntax error.
#[test]
fn keyword_named_identifiers_survive_every_generated_statement() {
    let entity = EntityDef {
        name: "order".to_owned(),
        key: "group".to_owned(),
        fields: vec![
            ("group".to_owned(), FieldMeta::plain(FieldKind::Uuid)),
            (
                "select".to_owned(),
                FieldMeta::plain(FieldKind::Text { max_length: None }),
            ),
        ],
        indexes: vec![IndexDef {
            name: "by_select".to_owned(),
            columns: vec!["select".to_owned()],
        }],
    };
    let (model, _dir) = open_temp(&[entity.clone()]);

    for (key, value) in [("\"g1\"", "\"a\""), ("\"g2\"", "\"b\"")] {
        model.apply(&entity, put_json(&[("group", key), ("select", value)]));
    }
    assert_eq!(text(&model.get(&entity, "g1").unwrap(), "select"), "a");
    let filtered = model.scan(&entity, Some(("select", "b")), None, 50);
    assert_eq!(filtered.len(), 1);
    assert_eq!(text(&filtered[0], "group"), "g2");
    // The cursor branch adds `key > ?` and the ORDER BY on the keyword key.
    let after = model.scan(&entity, None, Some("g1"), 50);
    assert_eq!(after.len(), 1);
    assert_eq!(text(&after[0], "group"), "g2");

    model.apply(
        &entity,
        EntityOpKind::Patch {
            key: "g1".to_owned(),
            changes: "{\"select\":\"patched\"}".to_owned(),
        },
    );
    assert_eq!(text(&model.get(&entity, "g1").unwrap(), "select"), "patched");

    model.apply(&entity, EntityOpKind::Delete("g1".to_owned()));
    assert!(model.get(&entity, "g1").is_none());
    assert_eq!(model.query(&entity, rows(&entity)).len(), 1);
}

/// Quoting is a parsing change, not a schema change: SQLite resolves `"group"` and
/// `group` to the same column.
#[test]
fn a_read_model_created_with_unquoted_ddl_still_reads_and_writes() {
    let dir = tempfile::tempdir().unwrap();
    let path = dir.path().join("m.db");
    let mut entity = users_entity();
    entity.indexes.push(IndexDef {
        name: "by_email".to_owned(),
        columns: vec!["email".to_owned()],
    });
    {
        let conn = Connection::open(&path).unwrap();
        conn.execute_batch(
            "CREATE TABLE users (user_id TEXT PRIMARY KEY NOT NULL, email TEXT NOT NULL);
             CREATE INDEX users_by_email ON users (email);
             INSERT INTO users (user_id, email) VALUES ('u0', 'old@x');",
        )
        .unwrap();
    }

    // `IF NOT EXISTS` leaves the hand-built table and index alone; the quoted DDL must
    // resolve to the same names.
    let model = open(Connection::open(&path).unwrap(), &[entity.clone()]);
    assert_eq!(text(&model.get(&entity, "u0").unwrap(), "email"), "old@x");
    model.put(&entity, "u1", "new@x");
    assert_eq!(model.query(&entity, rows(&entity)).len(), 2);
    assert_eq!(model.scan(&entity, Some(("email", "old@x")), None, 50).len(), 1);

    let names: Vec<String> = model
        .conn
        .prepare("SELECT name FROM pragma_table_info('users')")
        .unwrap()
        .query_map([], |row| row.get(0))
        .unwrap()
        .map(Result::unwrap)
        .collect();
    assert_eq!(names, vec!["user_id", "email"]);
    let indexes: Vec<String> = model
        .conn
        .prepare(
            "SELECT name FROM sqlite_master \
             WHERE type = 'index' AND tbl_name = 'users' AND sql IS NOT NULL",
        )
        .unwrap()
        .query_map([], |row| row.get(0))
        .unwrap()
        .map(Result::unwrap)
        .collect();
    assert_eq!(
        indexes,
        vec!["users_by_email"],
        "the quoted CREATE INDEX names the existing index rather than adding one"
    );
}

#[test]
fn quote_ident_doubles_an_embedded_quote() {
    assert_eq!(quote_ident("group"), "\"group\"");
    assert_eq!(quote_ident("we\"ird"), "\"we\"\"ird\"");
}

/// Quoting identifiers is only safe with SQLite's double-quoted-string fallback off.
#[test]
fn an_unknown_quoted_column_errors_instead_of_becoming_a_string_literal() {
    let (model, _dir) = open_temp(&[users_entity()]);
    let err = model
        .conn
        .query_row(
            &format!("SELECT {} FROM users", quote_ident("nope")),
            [],
            |row| row.get::<_, String>(0),
        )
        .unwrap_err();
    assert!(
        err.to_string().contains("no such column"),
        "expected a missing column to fail loudly, got {err}"
    );
}

#[test]
fn a_read_only_connection_also_rejects_double_quoted_strings() {
    let (model, dir) = open_temp(&[users_entity()]);
    drop(model);
    let flags = OpenFlags::SQLITE_OPEN_READ_ONLY
        | OpenFlags::SQLITE_OPEN_NO_MUTEX
        | OpenFlags::SQLITE_OPEN_URI;
    let reopened = Connection::open_with_flags(dir.path().join("m.db"), flags).unwrap();
    reject_double_quoted_strings(&reopened);
    let err = reopened
        .query_row(
            &format!("SELECT {} FROM users", quote_ident("nope")),
            [],
            |row| row.get::<_, String>(0),
        )
        .unwrap_err();
    assert!(err.to_string().contains("no such column"), "{err}");
}

#[test]
fn coerce_value_rejects_type_mismatches() {
    assert!(coerce_value(&FieldKind::I64, "42").is_ok());
    assert!(coerce_value(&FieldKind::I64, "abc").is_err());
    assert!(coerce_value(&FieldKind::Bool, "true").is_ok());
    assert!(coerce_value(&FieldKind::Bool, "maybe").is_err());
    // Optional unwraps to the inner kind.
    let opt_int = FieldKind::Optional(Box::new(FieldKind::I64));
    assert!(coerce_value(&opt_int, "7").is_ok());
    assert!(coerce_value(&opt_int, "seven").is_err());
}

/// A column declared as text in one deploy and JSON in the next, with no rebuild: the
/// surviving rows must read back as the raw string, not as absent data.
#[test]
fn a_json_column_that_does_not_parse_reads_back_as_its_raw_text() {
    let as_text = EntityDef {
        name: "docs".to_owned(),
        key: "doc_id".to_owned(),
        fields: vec![
            ("doc_id".to_owned(), FieldMeta::plain(FieldKind::Uuid)),
            (
                "body".to_owned(),
                FieldMeta::plain(FieldKind::Text { max_length: None }),
            ),
        ],
        indexes: vec![],
    };
    let (model, _dir) = open_temp(&[as_text.clone()]);
    model.apply(&as_text, put_json(&[("doc_id", "\"d1\""), ("body", "\"not json\"")]));

    let mut as_json = as_text.clone();
    as_json.fields[1].1 = FieldMeta::plain(FieldKind::Json);
    let row = model.get(&as_json, "d1").unwrap();
    assert_eq!(text(&row, "body"), "not json");
}

#[test]
fn what_is_not_an_object_is_refused() {
    let entity = users_entity();
    match apply_one(&entity, &EntityOpKind::Put("[1]".to_owned())) {
        Err(err) => assert_eq!(err.message(), "put row is not a JSON object"),
        Ok(_) => panic!("a list is no row"),
    }
    let patch = EntityOpKind::Patch { key: "u1".to_owned(), changes: "7".to_owned() };
    match apply_one(&entity, &patch) {
        Err(err) => assert_eq!(err.message(), "patch changes are not a JSON object"),
        Ok(_) => panic!("a number is no change"),
    }
    assert!(matches!(
        apply_one(&entity, &EntityOpKind::Put("{".to_owned())),
        Err(ApplyError::Syntax(_))
    ));
}

#[test]
fn a_column_that_does_not_fit_its_kind_is_named() {
    let entity = EntityDef {
        name: "counts".to_owned(),
        key: "id".to_owned(),
        fields: vec![
            ("id".to_owned(), FieldMeta::plain(FieldKind::Uuid)),
            ("n".to_owned(), FieldMeta::plain(FieldKind::I64)),
        ],
        indexes: Vec::new(),
    };
    match apply_one(&entity, &put_json(&[("id", "\"a\""), ("n", "\"many\"")])) {
        Err(ApplyError::Column { name, .. }) => assert_eq!(name, "n"),
        _ => panic!("a text is no integer"),
    }
}

#[test]
fn a_patch_of_nothing_is_no_statement() {
    let patch = EntityOpKind::Patch { key: "u1".to_owned(), changes: "{}".to_owned() };
    assert!(matches!(apply_one(&users_entity(), &patch), Ok(None)));
}

#[test]
fn a_json_column_keeps_its_document() {
    let meta = FieldMeta::plain(FieldKind::Json);
    match from_sql(&meta, Stored::Text(b"{\"a\":1}".to_vec())) {
        Ok(Json::Embedded(text)) => assert_eq!(text, "{\"a\":1}"),
        _ => panic!("a document"),
    }
    assert!(from_sql(&meta, Stored::Text(vec![0xff])).is_err());
}

#[test]
fn what_was_read_of_a_document_reads_back() {
    let meta = FieldMeta::plain(FieldKind::Json);
    let members = match parse_object("{\"a\":{\"z\":[1,2.5],\"b\":\"$5\"},\"n\":-0.5,\"t\":\"x\"}") {
        Ok(Some(members)) => members,
        _ => panic!("an object"),
    };
    assert_eq!(members.len(), 3);
    for (name, member) in members {
        match (from_sql(&meta, Stored::Text(member.printed.clone().into_bytes())), name.as_str()) {
            (Ok(Json::Embedded(text)), "a") => assert_eq!(text, member.printed),
            (Ok(Json::Decimal(text)), "n") => assert_eq!(text, "-0.5"),
            (Ok(Json::Text(text)), "t") => assert_eq!(text, "x"),
            _ => panic!("{name} does not read back"),
        }
    }
}

#[test]
fn a_json_column_reads_as_the_value_its_document_is() {
    let meta = FieldMeta::plain(FieldKind::Json);
    let read = |text: &str| match from_sql(&meta, Stored::Text(text.as_bytes().to_vec())) {
        Ok(json) => json,
        Err(reason) => panic!("{reason}"),
    };
    assert!(matches!(read("null"), Json::Null));
    assert!(matches!(read("true"), Json::Bool(true)));
    assert!(matches!(read("42"), Json::Decimal(text) if text == "42"));
    assert!(matches!(read("\"x\""), Json::Text(text) if text == "x"));
    assert!(matches!(read("[1]"), Json::Embedded(text) if text == "[1]"));
    assert!(matches!(read("{oops"), Json::Text(text) if text == "{oops"));
}

/// A column whose document is `null` is left out of its row, as an absent one is.
#[test]
fn a_null_document_is_left_out_of_its_row() {
    let entity = EntityDef {
        name: "notes".to_owned(),
        key: "id".to_owned(),
        fields: vec![
            ("id".to_owned(), FieldMeta::plain(FieldKind::I64)),
            ("body".to_owned(), FieldMeta::plain(FieldKind::Json)),
        ],
        indexes: vec![],
    };
    let row = match row_to_json(&entity, vec![Stored::Integer(1), Stored::Text(b"null".to_vec())]) {
        Ok(row) => row,
        Err(_) => panic!("a row"),
    };
    assert!(row.get("body").is_none());
    assert!(matches!(row.get("id"), Some(Json::Int(1))));
}

#[test]
fn only_what_is_found_by_its_key_needs_one() {
    let mut keyless = users_entity();
    keyless.key = "nowhere".to_owned();
    assert!(apply_one(&keyless, &put_json(&[("user_id", "\"u1\""), ("email", "\"e\"")])).is_ok());
    let whole = scan(&keyless, &Filter::default(), None, 5);
    assert!(whole.sql.ends_with("ORDER BY \"nowhere\" LIMIT ?"), "{}", whole.sql);
    assert_eq!(rows(&keyless).binds.len(), 1);
    let counted = count(&keyless);
    assert_eq!(counted.sql, "SELECT count(*) FROM \"users\"");
    assert!(counted.binds.is_empty());
}
