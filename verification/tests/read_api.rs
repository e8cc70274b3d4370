use hekla::json::Json;
use hekla::read_api::{
    check_filter, choose_index, cursor_text, decode_cursor, encode_cursor, fetch_limit,
    filterable_fields, find_entity, is_filterable, next_sealed, open_cell, page, page_limit,
    typed_from_string, Access, Bound, Filter, FilterError, Opened, Range, Revealed,
};
use hekla::schema::{EntityDef, FieldKind, FieldMeta, IndexDef};

fn entity_with_index() -> EntityDef {
    EntityDef {
        name: "users".to_owned(),
        key: "user_id".to_owned(),
        fields: vec![
            ("user_id".to_owned(), FieldMeta::plain(FieldKind::Uuid)),
            (
                "email".to_owned(),
                FieldMeta::plain(FieldKind::Text { max_length: None }),
            ),
            (
                "name".to_owned(),
                FieldMeta::plain(FieldKind::Text { max_length: None }),
            ),
        ],
        indexes: vec![IndexDef {
            name: "by_email".to_owned(),
            columns: vec!["email".to_owned()],
        }],
    }
}

#[test]
fn only_the_key_and_indexed_columns_are_filterable() {
    let entity = entity_with_index();
    assert!(is_filterable(&entity, "user_id"));
    assert!(is_filterable(&entity, "email"));
    assert!(!is_filterable(&entity, "name"));
    assert!(!is_filterable(&entity, "nonexistent"));
}

#[test]
fn cursor_round_trips() {
    let cursor = encode_cursor("u1");
    assert_ne!(cursor, "u1");
    assert_eq!(decode_cursor(&cursor).unwrap(), "u1");
    assert!(decode_cursor("not valid base64!!").is_err());
}

#[test]
fn a_cursor_is_base64url_of_its_key() {
    assert_eq!(encode_cursor("u1"), "dTE");
    assert_eq!(encode_cursor(""), "");
    assert_eq!(encode_cursor("u"), "dQ");
    assert_eq!(encode_cursor("???"), "Pz8_");
    assert_eq!(encode_cursor("~~~u1"), "fn5-dTE");
    // Padding, a character too many, and bits that belong to no byte.
    for refused in ["dQ==", "d", "dR"] {
        assert!(decode_cursor(refused).is_err(), "{refused}");
    }
    assert!(cursor_text(vec![0xff]).is_err());
    assert_eq!(cursor_text(vec![0x75, 0x31]).unwrap(), "u1");
}

fn events() -> EntityDef {
    EntityDef {
        name: "events".to_owned(),
        key: "id".to_owned(),
        fields: vec![
            ("id".to_owned(), FieldMeta::plain(FieldKind::I64)),
            ("shop".to_owned(), FieldMeta::plain(FieldKind::I64)),
            ("at".to_owned(), FieldMeta::plain(FieldKind::Timestamp)),
            (
                "tier".to_owned(),
                FieldMeta::plain(FieldKind::OneOf(vec!["Free".to_owned(), "Paid".to_owned()])),
            ),
        ],
        indexes: vec![
            IndexDef {
                name: "by_shop_at".to_owned(),
                columns: vec!["shop".to_owned(), "at".to_owned()],
            },
            IndexDef { name: "by_shop".to_owned(), columns: vec!["shop".to_owned()] },
            IndexDef { name: "by_tier".to_owned(), columns: vec!["tier".to_owned()] },
        ],
    }
}

fn equals(pairs: &[(&str, &str)]) -> Filter {
    Filter {
        equals: pairs.iter().map(|(a, b)| ((*a).to_owned(), (*b).to_owned())).collect(),
        range: None,
    }
}

fn chosen(filter: &Filter) -> Option<String> {
    match choose_index(&events(), filter) {
        Some(Access::Key) => Some("(key)".to_owned()),
        Some(Access::Index(name)) => Some(name.to_owned()),
        None => None,
    }
}

#[test]
fn a_filter_is_served_by_the_narrowest_index() {
    assert_eq!(chosen(&equals(&[])), Some("(key)".to_owned()));
    assert_eq!(chosen(&equals(&[("id", "1")])), Some("(key)".to_owned()));
    assert_eq!(chosen(&equals(&[("shop", "1")])), Some("by_shop".to_owned()));
    assert_eq!(
        chosen(&equals(&[("at", "2024-01-01T00:00:00Z"), ("shop", "1")])),
        Some("by_shop_at".to_owned())
    );
    assert_eq!(chosen(&equals(&[("at", "2024-01-01T00:00:00Z")])), None);
}

#[test]
fn a_range_stands_behind_the_equalities() {
    let filter = Filter {
        equals: vec![("shop".to_owned(), "1".to_owned())],
        range: Some((
            "at".to_owned(),
            Range {
                lower: Some((Bound::Inclusive, "2024-01-01T00:00:00Z".to_owned())),
                upper: None,
            },
        )),
    };
    assert_eq!(chosen(&filter), Some("by_shop_at".to_owned()));
    assert!(check_filter(&events(), &filter).is_ok());
}

#[test]
fn a_filter_is_checked_against_the_kinds_of_its_columns() {
    match check_filter(&events(), &equals(&[("shop", "many")])) {
        Err(FilterError::Value { field, .. }) => assert_eq!(field, "shop"),
        _ => panic!("not an integer"),
    }
    let ordered = Filter {
        equals: Vec::new(),
        range: Some((
            "tier".to_owned(),
            Range { lower: Some((Bound::Exclusive, "Free".to_owned())), upper: None },
        )),
    };
    match check_filter(&events(), &ordered) {
        Err(err) => {
            assert!(matches!(&err, FilterError::Unordered { .. }));
            assert!(err.message().contains("tier"), "{}", err.message());
        }
        Ok(()) => panic!("an enum has no order"),
    }
}

#[test]
fn an_entity_is_found_by_its_name() {
    let entities = vec![entity_with_index(), events()];
    assert_eq!(find_entity(&entities, "events").unwrap().key, "id");
    assert!(find_entity(&entities, "nope").is_none());
    assert_eq!(filterable_fields(&entities[0]), vec!["user_id".to_owned(), "email".to_owned()]);
}

fn row(id: i128) -> Json {
    Json::object().with("id", Json::Int(id))
}

#[test]
fn a_page_carries_a_cursor_only_where_another_follows() {
    assert_eq!(fetch_limit(2), 3);
    let whole = page(&events(), vec![row(1), row(2)], 2, 9);
    assert_eq!(whole.items.len(), 2);
    assert!(whole.next_cursor.is_none());
    assert_eq!(whole.position, 9);
    let cut = page(&events(), vec![row(1), row(2), row(3)], 2, 9);
    assert_eq!(cut.items.len(), 2);
    assert_eq!(decode_cursor(&cut.next_cursor.unwrap()).unwrap(), "2");
    let held = |text: &str| Json::object().with("id", Json::Embedded(text.to_owned()));
    let cut = page(&events(), vec![held("41"), held("42")], 1, 9);
    assert_eq!(decode_cursor(&cut.next_cursor.unwrap()).unwrap(), "41");
    assert!(page(&events(), vec![held("true"), held("42")], 1, 9).next_cursor.is_none());
}

#[test]
fn a_page_size_is_held_to_its_range() {
    assert_eq!(page_limit(None), 50);
    assert_eq!(page_limit(Some(0)), 1);
    assert_eq!(page_limit(Some(7)), 7);
    assert_eq!(page_limit(Some(100_000)), 500);
}

#[test]
fn a_decrypted_column_reads_as_its_kind() {
    assert!(matches!(typed_from_string(&FieldKind::I64, "7".to_owned()), Json::Int(7)));
    assert!(matches!(typed_from_string(&FieldKind::I64, "x".to_owned()), Json::Text(_)));
    assert!(matches!(typed_from_string(&FieldKind::Bool, "true".to_owned()), Json::Bool(true)));
    assert!(matches!(
        typed_from_string(&FieldKind::Json, "{\"a\":1}".to_owned()),
        Json::Embedded(_)
    ));
    assert!(matches!(typed_from_string(&FieldKind::Json, "{".to_owned()), Json::Text(_)));
    assert!(matches!(typed_from_string(&FieldKind::Json, "null".to_owned()), Json::Null));
}

fn sealed() -> EntityDef {
    EntityDef {
        name: "users".to_owned(),
        key: "user_id".to_owned(),
        fields: vec![
            ("user_id".to_owned(), FieldMeta::plain(FieldKind::Uuid)),
            (
                "age".to_owned(),
                FieldMeta {
                    kind: FieldKind::I64,
                    indexed: false,
                    subject: Some("user_id".to_owned()),
                    unique: false,
                },
            ),
        ],
        indexes: Vec::new(),
    }
}

#[test]
fn a_sealed_column_is_opened_or_left_out() {
    let entity = sealed();
    let row = || {
        Json::object()
            .with("user_id", Json::text("u1"))
            .with("age", Json::text("ciphertext"))
    };
    let cell = next_sealed(&entity, &row(), 0).unwrap();
    assert_eq!(cell.field, 1);
    assert_eq!(cell.subject_field, "user_id");
    assert_eq!(cell.subject_value, Some("u1".to_owned()));
    assert_eq!(cell.ciphertext, "ciphertext");

    let mut tally = Revealed::default();
    let opened = open_cell(&entity, row(), 1, Opened::Plain("41".to_owned()), &mut tally);
    assert!(matches!(opened.get("age"), Some(Json::Int(41))));
    let stale = open_cell(&entity, row(), 1, Opened::Unreadable { key_present: true }, &mut tally);
    assert!(stale.get("age").is_none());
    let gone = open_cell(&entity, row(), 1, Opened::Unreadable { key_present: false }, &mut tally);
    assert!(gone.get("age").is_none());
    assert_eq!(tally.decrypted, 1);
    assert_eq!(tally.stale, 1);
}

#[test]
fn decrypting_a_row_opens_its_ciphertext_and_nothing_else() {
    let mut entity = sealed();
    for name in ["note", "nick"] {
        entity.fields.push((
            name.to_owned(),
            FieldMeta {
                kind: FieldKind::Text { max_length: None },
                indexed: false,
                subject: Some("user_id".to_owned()),
                unique: false,
            },
        ));
    }
    let mut row = Json::object()
        .with("user_id", Json::text("u1"))
        .with("age", Json::text("c1"))
        .with("note", Json::text("c2"))
        .with("elsewhere", Json::text("kept"));
    let mut tally = Revealed::default();
    let mut from = 0;
    let mut cells = Vec::new();
    while let Some(cell) = next_sealed(&entity, &row, from) {
        let opened = match cell.ciphertext.as_str() {
            "c1" => Opened::Plain("41".to_owned()),
            _ => Opened::Unreadable { key_present: true },
        };
        row = open_cell(&entity, row, cell.field, opened, &mut tally);
        from = cell.field + 1;
        cells.push(cell.ciphertext);
    }
    assert_eq!(cells, ["c1", "c2"]);
    assert!(matches!(row.get("age"), Some(Json::Int(41))));
    assert!(row.get("note").is_none() && row.get("nick").is_none());
    assert!(matches!(row.get("user_id"), Some(Json::Text(text)) if text == "u1"));
    assert!(matches!(row.get("elsewhere"), Some(Json::Text(text)) if text == "kept"));
    assert_eq!((tally.decrypted, tally.stale), (1, 1));
}
