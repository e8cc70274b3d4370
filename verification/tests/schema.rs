use hekla::ir::{EntityDecl, EnumDef, EventDecl, FieldDef, ParamDef, Type};
use hekla::json::Json;
use hekla::schema::{
    bounded, event_type, is_sql_identifier, scalar_to_string, EntityDef, EventDef, FieldKind,
    FieldMeta, IndexDef, InputSchema, ModuleDef, ModuleKind,
};

fn optional(inner: FieldKind) -> FieldKind {
    FieldKind::Optional(Box::new(inner))
}

/// `describe` is the vocabulary a field is reported in, so it has to be a declaration an
/// author would recognise as their own.
#[test]
fn an_optional_marks_the_type_rather_than_the_whole_declaration() {
    assert_eq!(
        FieldKind::Text {
            max_length: Some(500)
        }
        .describe(),
        "String @max(500)"
    );
    assert_eq!(
        optional(FieldKind::Text {
            max_length: Some(500)
        })
        .describe(),
        "String? @max(500)"
    );
    // Nothing follows the type, so the suffix is unambiguous where it lands.
    assert_eq!(optional(FieldKind::Uuid).describe(), "Uuid?");
    assert_eq!(
        optional(FieldKind::Money { scale: 3 }).describe(),
        "Money(3)?"
    );
    assert_eq!(
        optional(FieldKind::Text { max_length: None }).describe(),
        "String?"
    );
}

/// A variant list is not a name, so the `?` needs something to bind to that is not the
/// last variant.
#[test]
fn an_optional_enum_brackets_its_variants() {
    let status = FieldKind::OneOf(vec!["Active".to_owned(), "Claimed".to_owned()]);
    assert_eq!(status.describe(), "Active | Claimed");
    assert_eq!(optional(status).describe(), "(Active | Claimed)?");
}

#[test]
fn kinds_know_their_columns() {
    assert_eq!(FieldKind::I64.sql_type(), "INTEGER");
    assert_eq!(FieldKind::Bool.sql_type(), "INTEGER");
    assert_eq!(optional(FieldKind::I64).sql_type(), "INTEGER");
    assert_eq!(FieldKind::Money { scale: 2 }.sql_type(), "TEXT");
    assert!(FieldKind::Uuid.is_keyable());
    assert!(!FieldKind::Bool.is_keyable());
    assert!(!optional(FieldKind::Uuid).is_keyable());
    let tier = FieldKind::OneOf(vec!["Free".to_owned()]);
    assert!(tier.is_keyable());
    assert!(!tier.is_comparable());
}

#[test]
fn a_bound_reaches_through_an_optional() {
    let kind = bounded(optional(FieldKind::Text { max_length: None }), Some(12));
    assert_eq!(kind.describe(), "String? @max(12)");
}

fn plain(name: &str, kind: FieldKind) -> (String, FieldMeta) {
    (name.to_owned(), FieldMeta::plain(kind))
}

fn orders() -> EntityDef {
    EntityDef {
        name: "orders".to_owned(),
        key: "id".to_owned(),
        fields: vec![
            plain("id", FieldKind::Uuid),
            plain("shop", FieldKind::I64),
            plain("note", optional(FieldKind::Text { max_length: None })),
        ],
        indexes: vec![IndexDef {
            name: "by_shop".to_owned(),
            columns: vec!["shop".to_owned()],
        }],
    }
}

#[test]
fn a_table_is_made_of_its_columns() {
    let sql = orders().create_table_sql();
    assert!(sql.starts_with("CREATE TABLE IF NOT EXISTS \"orders\""), "{sql}");
    assert!(sql.contains("\"id\" TEXT PRIMARY KEY"), "{sql}");
    assert!(sql.contains("\"shop\" INTEGER"), "{sql}");
    let indexes = orders().create_index_sql();
    assert_eq!(indexes.len(), 1);
    assert!(indexes[0].contains("(\"shop\", \"id\")"), "{}", indexes[0]);
}

#[test]
fn a_valid_entity_passes() {
    assert_eq!(orders().validate(), Ok(()));
}

fn refusal(entity: EntityDef) -> String {
    match entity.validate() {
        Err(message) => message,
        Ok(()) => panic!("it was accepted"),
    }
}

#[test]
fn a_key_has_to_be_declared_present_and_plain() {
    let mut missing = orders();
    missing.key = "nope".to_owned();
    assert!(refusal(missing).contains("nope"));

    let mut optional_key = orders();
    optional_key.key = "note".to_owned();
    refusal(optional_key);

    let mut sealed = orders();
    sealed.fields[0].1.subject = Some("shop".to_owned());
    refusal(sealed);

    let mut flag = orders();
    flag.fields[0].1 = FieldMeta::plain(FieldKind::Bool);
    refusal(flag);
}

#[test]
fn an_index_has_to_cover_declared_plain_columns() {
    let mut unknown = orders();
    unknown.indexes[0].columns = vec!["nope".to_owned()];
    assert!(refusal(unknown).contains("nope"));

    let mut sealed = orders();
    sealed.fields[1].1.subject = Some("id".to_owned());
    refusal(sealed);
}

#[test]
fn a_filter_may_not_be_named_like_a_control() {
    let mut limit = orders();
    limit.fields.push(plain("limit", FieldKind::I64));
    limit.indexes[0].columns = vec!["limit".to_owned()];
    assert!(refusal(limit).contains("limit"));
}

#[test]
fn identifiers_are_plain_words() {
    assert!(is_sql_identifier("order_lines2"));
    assert!(!is_sql_identifier("2orders"));
    assert!(!is_sql_identifier("order lines"));
    assert!(!is_sql_identifier(""));
}

#[test]
fn an_index_may_not_be_named_like_the_key() {
    let mut clash = orders();
    clash.indexes[0].name = "id".to_owned();
    assert!(refusal(clash).contains("rename the key"));

    let mut odd = orders();
    odd.indexes[0].name = "by shop".to_owned();
    assert!(refusal(odd).contains("by shop"));

    let mut spaced = orders();
    spaced.name = "the orders".to_owned();
    assert!(refusal(spaced).contains("the orders"));
}

#[test]
fn a_declared_type_becomes_the_kind_it_is_stored_as() {
    let enums = vec![EnumDef {
        name: "Tier".to_owned(),
        variants: vec!["Free".to_owned(), "Paid".to_owned()],
    }];
    let of = |ty: Type| FieldKind::of(&ty, &enums).describe();
    assert_eq!(of(Type::Text), "String");
    assert_eq!(of(Type::Enum("Tier".to_owned())), "Free | Paid");
    assert_eq!(of(Type::Opt(Box::new(Type::Decimal(2)))), "Money(2)?");
    assert_eq!(of(Type::List(Box::new(Type::Int))), "Json");
    assert_eq!(of(Type::Sealed(Box::new(Type::Int), "user".to_owned())), "Int");
}

fn field(name: &str, ty: Type) -> FieldDef {
    FieldDef {
        name: name.to_owned(),
        ty,
        max_len: None,
        indexed: false,
        subject: None,
    }
}

#[test]
fn declarations_become_schemas() {
    let event = EventDecl {
        path: vec!["order".to_owned(), "placed".to_owned()],
        fields: vec![field("id", Type::Uuid)],
    };
    assert_eq!(event_type(&event.path), "order.placed");
    let defs = EventDef::all(&vec![event], &Vec::new());
    assert_eq!(defs[0].event_type, "order.placed");
    assert!(defs[0].field("id").is_some());
    assert!(!defs[0].is_subject("id"));

    let entity = EntityDecl {
        name: "orders".to_owned(),
        key: "id".to_owned(),
        fields: vec![field("id", Type::Uuid), field("shop", Type::Int), field("note", Type::Text)],
        indexes: vec![vec!["shop".to_owned()]],
    };
    let made = EntityDef::of(&entity, &Vec::new());
    assert_eq!(made.indexes[0].name, "by_shop");
    assert!(made.fields[0].1.indexed);
    assert!(made.fields[1].1.indexed);
    assert!(!made.fields[2].1.indexed);

    let input = InputSchema::of(
        &vec![ParamDef { name: "n".to_owned(), ty: Type::Opt(Box::new(Type::Int)) }],
        &Vec::new(),
    );
    assert_eq!(input.display(), "schema(1 fields)");
    assert!(input.fields[0].1.is_nullable());
}

#[test]
fn scalars_print_and_containers_do_not() {
    assert_eq!(scalar_to_string(&Json::Int(7)), Some("7".to_owned()));
    assert_eq!(scalar_to_string(&Json::Bool(true)), Some("true".to_owned()));
    assert_eq!(scalar_to_string(&Json::Text("a".to_owned())), Some("a".to_owned()));
    assert_eq!(scalar_to_string(&Json::Null), None);
    assert_eq!(scalar_to_string(&Json::Array(Vec::new())), None);
    let document = |text: &str| scalar_to_string(&Json::Embedded(text.to_owned()));
    assert_eq!(document("42"), Some("42".to_owned()));
    assert_eq!(document("\"a\""), Some("a".to_owned()));
    assert_eq!(document("false"), Some("false".to_owned()));
    assert_eq!(document("null"), None);
    assert_eq!(document("[42]"), None);
    assert_eq!(document("{oops"), None);
}

#[test]
fn an_index_prints_its_columns() {
    let index = IndexDef {
        name: "by_shop".to_owned(),
        columns: vec!["shop".to_owned(), "pla\"ced".to_owned()],
    };
    assert_eq!(index.display(), format!("index(by_shop, {:?})", index.columns));
    assert_eq!(index.display(), "index(by_shop, [\"shop\", \"pla\\\"ced\"])");
}

#[test]
fn modules_are_called_by_their_names() {
    assert_eq!(ModuleKind::Projector.label(), "projector");
    let module = ModuleDef::Effect { name: "notify".to_owned(), sources: Vec::new() };
    assert_eq!(module.name(), "notify");
}
