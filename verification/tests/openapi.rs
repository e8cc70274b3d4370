use hekla::json::Json;
use hekla::openapi::{
    build, is_describable, EffectSurface, Project, ProjectorSurface, Settings, Surface, Unit, Wait,
};
use hekla::projector::EventSpec;
use hekla::schema::{
    EntityDef, EventDef, FieldKind, FieldMeta, IndexDef, InputSchema, ModuleDef,
};
use serde_json::{Number, Value};

fn parse(text: &str) -> Value {
    serde_json::from_str(text).unwrap()
}

fn value(json: &Json) -> Value {
    match json {
        Json::Null => Value::Null,
        Json::Bool(flag) => Value::Bool(*flag),
        Json::Int(n) => Value::Number(Number::from(*n as u64)),
        Json::Decimal(text) | Json::Embedded(text) => parse(text),
        Json::Text(text) => Value::String(text.clone()),
        Json::Array(items) => Value::Array(items.iter().map(value).collect()),
        Json::Object(members) => {
            let mut out = serde_json::Map::new();
            for (name, member) in members {
                out.insert(name.clone(), value(member));
            }
            Value::Object(out)
        }
    }
}

fn settings() -> Settings {
    Settings {
        version: "1.2.3".to_owned(),
        wait: Wait { default_ms: 5_000, max_ms: 30_000 },
    }
}

fn document(surface: &Surface) -> Value {
    assert!(is_describable(surface));
    value(&build(surface, &settings()))
}

fn schema() -> InputSchema {
    InputSchema {
        fields: vec![
            ("id".to_owned(), FieldKind::Uuid),
            ("amount".to_owned(), FieldKind::Money { scale: 2 }),
            (
                "kind".to_owned(),
                FieldKind::OneOf(vec!["a".to_owned(), "b".to_owned()]),
            ),
            (
                "note".to_owned(),
                FieldKind::Optional(Box::new(FieldKind::Text {
                    max_length: Some(10),
                })),
            ),
        ],
    }
}

fn subject_meta(kind: FieldKind, subject: &str) -> FieldMeta {
    FieldMeta {
        kind,
        indexed: true,
        subject: Some(subject.to_owned()),
        unique: false,
    }
}

/// A projector whose entity exercises every branch the generator has: a key, an
/// indexed column, an unindexed one, a subject-encrypted one, and an optional.
fn entity() -> EntityDef {
    EntityDef {
        name: "user_summary".to_owned(),
        key: "user_id".to_owned(),
        fields: vec![
            ("user_id".to_owned(), FieldMeta::plain(FieldKind::Uuid)),
            ("shop_id".to_owned(), FieldMeta::plain(FieldKind::U64)),
            (
                "display_name".to_owned(),
                FieldMeta::plain(FieldKind::Text { max_length: None }),
            ),
            (
                "email".to_owned(),
                subject_meta(FieldKind::Text { max_length: None }, "user_id"),
            ),
            (
                "note".to_owned(),
                FieldMeta::plain(FieldKind::Optional(Box::new(FieldKind::Text {
                    max_length: None,
                }))),
            ),
        ],
        indexes: vec![IndexDef {
            name: "by_shop".to_owned(),
            columns: vec!["shop_id".to_owned(), "user_id".to_owned()],
        }],
    }
}

fn event_def() -> EventDef {
    EventDef {
        event_type: "user.registered".to_owned(),
        fields: vec![
            ("user_id".to_owned(), FieldMeta::plain(FieldKind::Uuid)),
            (
                "email".to_owned(),
                subject_meta(FieldKind::Text { max_length: None }, "user_id"),
            ),
        ],
    }
}

/// A surface covering all four module kinds, so one document exercises every
/// generator branch.
fn surface<'a>(
    input: &'a InputSchema,
    entities: &'a [EntityDef],
    events: &'a [(String, EventDef)],
) -> Surface<'a> {
    Surface {
        commands: vec![("do-thing", input)],
        projectors: vec![ProjectorSurface {
            name: "users",
            entities,
            sources: Some(vec!["user.registered"]),
        }],
        effects: vec![EffectSurface {
            name: "notify",
            sources: None,
        }],
        events: events
            .iter()
            .map(|(event_type, def)| (event_type.as_str(), def))
            .collect(),
    }
}

fn full_doc() -> Value {
    let input = schema();
    let entities = vec![entity()];
    let events = vec![("user.registered".to_owned(), event_def())];
    document(&surface(&input, &entities, &events))
}

fn command_body_schema(doc: &Value) -> &Value {
    &doc["paths"]["/commands/do-thing"]["post"]["requestBody"]["content"]["application/json"]["schema"]
}

#[test]
fn maps_field_kinds_and_marks_optionals() {
    let doc = full_doc();
    let props = &command_body_schema(&doc)["properties"];
    assert_eq!(props["amount"]["type"], "string");
    assert!(
        props["amount"].get("format").is_none(),
        "money is a bare string"
    );
    assert_eq!(props["id"]["format"], "uuid");
    assert_eq!(props["kind"]["enum"], parse(r#"["a", "b"]"#));
    assert_eq!(props["note"]["maxLength"], parse(r#"10"#));

    let required = command_body_schema(&doc)["required"]
        .as_array()
        .unwrap()
        .clone();
    assert!(required.contains(&parse(r#""id""#)));
    assert!(
        !required.contains(&parse(r#""note""#)),
        "optional is not required"
    );
}

#[test]
fn a_body_is_required_only_when_a_field_is() {
    let doc = full_doc();
    assert_eq!(
        doc["paths"]["/commands/do-thing"]["post"]["requestBody"]["required"],
        parse(r#"true"#)
    );

    let all_optional = InputSchema {
        fields: vec![(
            "note".to_owned(),
            FieldKind::Optional(Box::new(FieldKind::Text { max_length: None })),
        )],
    };
    let entities: Vec<EntityDef> = Vec::new();
    let events: Vec<(String, EventDef)> = Vec::new();
    let mut surface = surface(&all_optional, &entities, &events);
    surface.commands = vec![("ping", &all_optional)];
    let doc = document(&surface);
    assert_eq!(
        doc["paths"]["/commands/ping"]["post"]["requestBody"]["required"],
        parse(r#"false"#),
        "an empty body parses as an empty object, so an all-optional command needs none"
    );
}

/// `field_schema` is the only place the wire form of `money` and `uint` is stated,
/// so a field annotation that replaced its description rather than appending would
/// leave every `money` column looking like any other string.
#[test]
fn field_annotations_keep_the_kind_description() {
    let entity = EntityDef {
        name: "ledger".to_owned(),
        key: "entry_id".to_owned(),
        fields: vec![
            ("entry_id".to_owned(), FieldMeta::plain(FieldKind::Uuid)),
            ("amount".to_owned(), FieldMeta::plain(FieldKind::Money { scale: 2 })),
            ("count".to_owned(), FieldMeta::plain(FieldKind::U64)),
        ],
        indexes: Vec::new(),
    };
    let input = schema();
    let entities = vec![entity];
    let events: Vec<(String, EventDef)> = Vec::new();
    let mut surface = surface(&input, &entities, &events);
    surface.projectors = vec![ProjectorSurface {
        name: "books",
        entities: &entities,
        sources: None,
    }];
    let doc = document(&surface);
    let props = &doc["components"]["schemas"]["entity.books.ledger"]["properties"];

    let amount = props["amount"]["description"].as_str().unwrap();
    assert!(
        amount.starts_with("decimal amount"),
        "`money` lost its wire form: {amount}"
    );
    assert!(
        amount.contains("Not filterable"),
        "the annotation is still there too: {amount}"
    );
    let count = props["count"]["description"].as_str().unwrap();
    assert!(
        count.contains("2^64-1"),
        "`uint`'s ceiling is stated nowhere else, and no numeric bound carries it: {count}"
    );
}

/// An optional command input may be omitted *or* sent as an explicit null, so
/// `required` alone under-describes it and a validating client would refuse a body
/// the server accepts.
#[test]
fn an_optional_command_input_admits_an_explicit_null() {
    let input = InputSchema {
        fields: vec![
            (
                "note".to_owned(),
                FieldKind::Optional(Box::new(FieldKind::Text { max_length: None })),
            ),
            (
                "kind".to_owned(),
                FieldKind::Optional(Box::new(FieldKind::OneOf(vec![
                    "a".to_owned(),
                    "b".to_owned(),
                ]))),
            ),
            ("id".to_owned(), FieldKind::Uuid),
        ],
    };
    let entities: Vec<EntityDef> = Vec::new();
    let events: Vec<(String, EventDef)> = Vec::new();
    let mut surface = surface(&input, &entities, &events);
    surface.commands = vec![("do-thing", &input)];
    let doc = document(&surface);
    let props = &command_body_schema(&doc)["properties"];

    assert_eq!(props["note"]["type"], parse(r#"["string", "null"]"#));
    assert_eq!(
        props["kind"]["enum"],
        parse(r#"["a", "b", null]"#),
        "widening `type` alone leaves the enum rejecting the null it now permits"
    );
    assert_eq!(
        props["id"]["type"], "string",
        "a required field is not widened"
    );
}

#[test]
fn documents_every_status_the_command_route_returns() {
    let doc = full_doc();
    let responses = &doc["paths"]["/commands/do-thing"]["post"]["responses"];
    for status in ["200", "400", "409", "422", "500", "503"] {
        assert!(
            responses.get(status).is_some(),
            "the spec omits the {status} response"
        );
    }
}

/// A response that only carries a `description` says nothing of its body, so no
/// operation may ship one.
#[test]
fn every_response_carries_a_content_schema() {
    let doc = full_doc();
    for (path, item) in doc["paths"].as_object().unwrap() {
        for (method, operation) in item.as_object().unwrap() {
            for (status, response) in operation["responses"].as_object().unwrap() {
                let content = response
                    .get("content")
                    .unwrap_or_else(|| panic!("{method} {path} {status} has no content"));
                let media = content.as_object().unwrap().values().next().unwrap();
                assert!(
                    media.get("schema").is_some(),
                    "{method} {path} {status} has content but no schema"
                );
            }
        }
    }
}

/// An operation tagged with a name the top-level `tags` array does not declare
/// renders as an unnamed section.
#[test]
fn every_operation_is_tagged_and_every_tag_is_declared() {
    let doc = full_doc();
    let declared: Vec<&str> = doc["tags"]
        .as_array()
        .unwrap()
        .iter()
        .map(|tag| tag["name"].as_str().unwrap())
        .collect();
    assert_eq!(
        declared,
        vec!["commands", "read: users", "operations"],
        "tags render in declaration order, so the order is part of the contract"
    );

    for (path, item) in doc["paths"].as_object().unwrap() {
        for (method, operation) in item.as_object().unwrap() {
            let tags = operation["tags"]
                .as_array()
                .unwrap_or_else(|| panic!("{method} {path} has no tags"));
            assert!(!tags.is_empty(), "{method} {path} has an empty tag list");
            for tag in tags {
                let tag = tag.as_str().unwrap();
                assert!(
                    declared.contains(&tag),
                    "{method} {path} uses undeclared tag `{tag}`"
                );
            }
        }
    }
}

fn collect_refs(value: &Value, out: &mut Vec<String>) {
    match value {
        Value::Object(map) => {
            for (key, child) in map {
                if key == "$ref" {
                    out.push(child.as_str().unwrap().to_owned());
                } else {
                    collect_refs(child, out);
                }
            }
        }
        Value::Array(items) => {
            for item in items {
                collect_refs(item, out);
            }
        }
        _ => {}
    }
}

/// The structural guard: a renamed or dropped schema leaves a dangling `$ref`,
/// which renders as an empty box rather than an error.
#[test]
fn every_ref_resolves() {
    let doc = full_doc();
    let mut refs = Vec::new();
    collect_refs(&doc, &mut refs);
    assert!(!refs.is_empty(), "a document with no refs proves nothing");
    let schemas = doc["components"]["schemas"].as_object().unwrap();
    for reference in refs {
        let name = reference
            .strip_prefix("#/components/schemas/")
            .unwrap_or_else(|| panic!("unexpected ref target `{reference}`"));
        assert!(
            schemas.contains_key(name),
            "dangling ref `{reference}`; schemas are {:?}",
            schemas.keys().collect::<Vec<_>>()
        );
    }
}

#[test]
fn a_read_path_is_generated_per_entity_with_a_typed_key() {
    let doc = full_doc();
    let one = &doc["paths"]["/read/users/user_summary/{key}"]["get"];
    let key = one["parameters"]
        .as_array()
        .unwrap()
        .iter()
        .find(|param| param["name"] == "key")
        .expect("the by-key read has a key param");
    assert_eq!(key["in"], "path");
    assert_eq!(key["required"], parse(r#"true"#));
    assert_eq!(
        key["schema"]["format"], "uuid",
        "the key param is typed from the key column, not left a bare string"
    );
    assert_eq!(one["tags"], parse(r#"["read: users"]"#));

    let page = &doc["paths"]["/read/users/user_summary"]["get"]["responses"]["200"]["content"]
        ["application/json"]["schema"];
    assert_eq!(
        page["properties"]["items"]["items"]["$ref"],
        "#/components/schemas/entity.users.user_summary"
    );
}

/// Both read handlers can return 500 (`read_failed`, `task_panicked`), and both
/// 503s carry a `Retry-After` for the two codes that resolve on their own. A client
/// generated from a document missing either has no branch for it.
#[test]
fn the_read_paths_document_their_500_and_their_retry_after() {
    let doc = full_doc();
    for path in ["/read/users/user_summary", "/read/users/user_summary/{key}"] {
        let responses = &doc["paths"][path]["get"]["responses"];
        assert!(
            responses.get("500").is_some(),
            "{path} omits the 500 `read_failed` returns"
        );
        assert_eq!(
            responses["503"]["headers"]["Retry-After"]["schema"]["type"], "integer",
            "{path} does not declare the Retry-After it sends"
        );
    }
}

/// `limit` and `timeout_ms` are clamped by the handler, not rejected, so declaring
/// a `maximum` would make a validating client refuse a request the server serves.
#[test]
fn clamped_params_declare_no_maximum() {
    let doc = full_doc();
    let params = doc["paths"]["/read/users/user_summary"]["get"]["parameters"]
        .as_array()
        .unwrap()
        .clone();
    for name in ["limit", "timeout_ms"] {
        let param = params
            .iter()
            .find(|param| param["name"] == name)
            .unwrap_or_else(|| panic!("no `{name}` param"));
        assert!(
            param["schema"].get("maximum").is_none(),
            "`{name}` is clamped, not rejected, so a `maximum` would be a lie"
        );
        assert!(
            param["description"]
                .as_str()
                .unwrap()
                .contains("rather than rejected")
                || param["description"].as_str().unwrap().contains("clamped"),
            "`{name}` must say what actually happens out of range"
        );
    }
}

#[test]
fn only_filterable_fields_become_query_params() {
    let doc = full_doc();
    let params: Vec<&str> = doc["paths"]["/read/users/user_summary"]["get"]["parameters"]
        .as_array()
        .unwrap()
        .iter()
        .map(|param| param["name"].as_str().unwrap())
        .collect();
    for control in ["limit", "cursor", "after", "timeout_ms"] {
        assert!(params.contains(&control), "missing control param {control}");
    }
    assert!(params.contains(&"user_id"), "the key is filterable");
    assert!(
        params.contains(&"shop_id"),
        "an index's leftmost column is filterable"
    );
    assert!(
        !params.contains(&"display_name"),
        "an unindexed field must not be documented as filterable"
    );
    assert!(
        !params.contains(&"note"),
        "a non-leftmost / unindexed column must not be documented as filterable"
    );
}

/// A subject column is removed from a row when its key was erased, so declaring
/// it required would describe a body the server does not always send.
#[test]
fn an_entity_does_not_require_a_subject_column() {
    let doc = full_doc();
    let entity = &doc["components"]["schemas"]["entity.users.user_summary"];
    let required = entity["required"].as_array().unwrap();
    assert!(required.contains(&parse(r#""user_id""#)));
    assert!(required.contains(&parse(r#""display_name""#)));
    assert!(
        !required.contains(&parse(r#""email""#)),
        "an erased subject column comes back absent, so it cannot be required"
    );
    assert!(
        !required.contains(&parse(r#""note""#)),
        "an optional column is not required"
    );
    // One extension name, one meaning: the schema-level `x-hekla-key` names the key
    // column, and the property-level flag has its own name rather than reusing this
    // one with a different type.
    assert_eq!(entity["x-hekla-key"], "user_id");
    assert_eq!(entity["properties"]["user_id"]["x-hekla-is-key"], Value::Bool(true));
    assert!(entity["properties"]["user_id"].get("x-hekla-key").is_none());
    assert_eq!(
        entity["properties"]["email"]["x-hekla-subject"], "user_id",
        "the subject is machine-readable, not only prose"
    );
}

#[test]
fn events_are_documented_and_reachable_from_the_command_response() {
    let doc = full_doc();
    let schemas = doc["components"]["schemas"].as_object().unwrap();
    assert!(
        schemas.contains_key("event.user.registered"),
        "each declared event gets a schema"
    );
    assert_eq!(
        doc["components"]["schemas"]["EmittedEvent"]["properties"]["type"]["enum"],
        parse(r#"["user.registered"]"#),
        "the declared event set is the enum a command response reports"
    );
    assert_eq!(
        schemas["event.user.registered"]["required"],
        parse(r#"["user_id", "email"]"#),
        "an event's own schema does require its subject field: it is in the log"
    );
}

#[test]
fn operator_paths_enumerate_the_declared_module_names() {
    let doc = full_doc();
    let replay = &doc["paths"]["/projectors/{name}/replay"]["post"]["parameters"][0];
    assert_eq!(replay["schema"]["enum"], parse(r#"["users"]"#));
    let skip = &doc["paths"]["/effects/{name}/skip/{position}"]["post"]["parameters"][0];
    assert_eq!(skip["schema"]["enum"], parse(r#"["notify"]"#));
}

/// An empty `enum` matches nothing, so a project with no effects must not
/// document a path no request could ever satisfy.
#[test]
fn an_empty_module_set_drops_the_enum_rather_than_emitting_an_empty_one() {
    let input = schema();
    let entities: Vec<EntityDef> = Vec::new();
    let events: Vec<(String, EventDef)> = Vec::new();
    let mut surface = surface(&input, &entities, &events);
    surface.effects = Vec::new();
    surface.projectors = Vec::new();
    let doc = document(&surface);
    let skip = &doc["paths"]["/effects/{name}/skip/{position}"]["post"]["parameters"][0];
    assert_eq!(skip["schema"], parse(r#"{ "type": "string" }"#));
    assert!(
        doc["paths"]["/projectors/{name}/replay"].is_object(),
        "the route exists whether or not the project declares a projector"
    );
}

/// The CLI dump exists to be committed and diffed, which needs the document to be
/// a pure function of the project.
#[test]
fn the_document_is_deterministic() {
    assert_eq!(full_doc().to_string(), full_doc().to_string());
}

fn operation_ids(doc: &Value) -> Vec<&str> {
    let mut ids = Vec::new();
    for item in doc["paths"].as_object().unwrap().values() {
        for operation in item.as_object().unwrap().values() {
            if let Some(id) = operation["operationId"].as_str() {
                ids.push(id);
            }
        }
    }
    ids
}

/// A duplicate `operationId` is a spec violation, and a client generator resolves
/// it by dropping an operation or by overwriting a function. `identifier` folds
/// `-` to `_`, so two projectors differing only there would otherwise collide.
#[test]
fn operation_ids_are_unique_even_when_names_fold_together() {
    let input = schema();
    let entities = vec![entity()];
    let events: Vec<(String, EventDef)> = Vec::new();
    let mut surface = surface(&input, &entities, &events);
    surface.projectors = vec![
        ProjectorSurface {
            name: "read-side",
            entities: &entities,
            sources: None,
        },
        ProjectorSurface {
            name: "read_side",
            entities: &entities,
            sources: None,
        },
    ];
    let doc = document(&surface);

    let ids = operation_ids(&doc);
    let mut sorted = ids.clone();
    sorted.sort_unstable();
    sorted.dedup();
    assert_eq!(sorted.len(), ids.len(), "duplicate operationId in {ids:?}");
    assert!(
        ids.iter().any(|id| id.ends_with("_2")),
        "the two projectors really did fold together, so one was renumbered: {ids:?}"
    );

    // Component names are a separate namespace with a wider charset, so they stay
    // distinct without renumbering.
    let schemas = doc["components"]["schemas"].as_object().unwrap();
    assert!(schemas.contains_key("entity.read-side.user_summary"));
    assert!(schemas.contains_key("entity.read_side.user_summary"));
}

/// An event type is an unvalidated author string, and `component_name` folds every
/// character outside `[A-Za-z0-9._-]` to `_`. Two types that fold together must not
/// collapse into one schema: the second insert would win, leaving one schema
/// describing the wrong event's fields while `EmittedEvent.type` still listed both.
#[test]
fn colliding_event_types_get_separate_schemas() {
    let input = schema();
    let entities: Vec<EntityDef> = Vec::new();
    let spaced = EventDef {
        event_type: "order placed".to_owned(),
        fields: vec![("shop".to_owned(), FieldMeta::plain(FieldKind::U64))],
    };
    let underscored = EventDef {
        event_type: "order_placed".to_owned(),
        fields: vec![("customer".to_owned(), FieldMeta::plain(FieldKind::Uuid))],
    };
    let events = vec![
        ("order placed".to_owned(), spaced),
        ("order_placed".to_owned(), underscored),
    ];
    let doc = document(&surface(&input, &entities, &events));

    let schemas = doc["components"]["schemas"].as_object().unwrap();
    let event_keys: Vec<&String> = schemas
        .keys()
        .filter(|key| key.starts_with("event."))
        .collect();
    assert_eq!(
        event_keys.len(),
        2,
        "two declared events, two schemas: {event_keys:?}"
    );
    assert_eq!(
        doc["components"]["schemas"]["EmittedEvent"]["properties"]["type"]["enum"]
            .as_array()
            .unwrap()
            .len(),
        2,
    );
    // The two schemas describe different events, so one did not overwrite the other.
    let fields: Vec<Vec<&str>> = event_keys
        .iter()
        .map(|key| {
            schemas[*key]["properties"]
                .as_object()
                .unwrap()
                .keys()
                .map(String::as_str)
                .collect()
        })
        .collect();
    assert!(
        fields.contains(&vec!["shop"]) && fields.contains(&vec!["customer"]),
        "one schema replaced the other: {fields:?}"
    );
}

/// The ordinary case must not be renumbered, or the guard above would pass on a
/// generator that suffixed everything.
#[test]
fn unique_names_keep_their_bare_operation_ids() {
    let doc = full_doc();
    let ids = operation_ids(&doc);
    assert!(
        ids.contains(&"execute_do_thing"),
        "a command keeps its plain id: {ids:?}"
    );
    assert!(
        ids.contains(&"scan_users_user_summary"),
        "a read keeps its plain id: {ids:?}"
    );
    assert!(
        !ids.iter().any(|id| id.ends_with("_2")),
        "nothing collides here, so nothing may be renumbered: {ids:?}"
    );
}

/// A structurally malformed document renders as a blank page in a reference UI
/// rather than an error, so it is parsed against a real OpenAPI 3.1 model here.
///
/// It checks structure, not semantics: it catches a misplaced parameter, a
/// response that is not a response object, and a missing required top-level
/// field, but it does not check that a `$ref` resolves (that is
/// `every_ref_resolves`) and it accepts any `openapi` version string. The
/// control below is what makes "it parsed" mean something.
#[test]
fn the_document_parses_as_openapi_3_1() {
    let doc = full_doc();
    let spec: oas3::Spec =
        serde_json::from_value(doc).expect("the generated document is valid OpenAPI 3.1");
    assert!(
        spec.paths.is_some_and(|paths| !paths.is_empty()),
        "the parsed document has paths"
    );

    let malformed = parse(r#"{ "openapi": "3.1.0", "info": { "title": "t", "version": "1" }, "paths": { "/x": { "get": { "parameters": [{ "name": "a", "in": "nowhere" }], "responses": {} }}} }"#);
    assert!(
        serde_json::from_value::<oas3::Spec>(malformed).is_err(),
        "the parse would accept anything, so passing it proves nothing"
    );
}

#[test]
fn a_project_is_described_in_order_of_name() {
    let unit = |def: ModuleDef, internal: bool, sources: Vec<EventSpec>| Unit {
        internal,
        def,
        sources,
    };
    let filter = |event_type: &str| EventSpec::Filter {
        event_type: event_type.to_owned(),
        constraints: Vec::new(),
    };
    let command = |name: &str| ModuleDef::Command { name: name.to_owned(), input: schema() };
    let project = Project {
        commands: vec![
            unit(command("zeta"), false, Vec::new()),
            unit(command("hidden"), true, Vec::new()),
            unit(command("alpha"), false, Vec::new()),
        ],
        projectors: vec![unit(
            ModuleDef::Projector {
                name: "users".to_owned(),
                entities: vec![entity()],
                sources: Vec::new(),
            },
            false,
            vec![filter("b"), filter("a"), filter("b")],
        )],
        effects: vec![unit(
            ModuleDef::Effect { name: "notify".to_owned(), sources: Vec::new() },
            false,
            vec![filter("b"), EventSpec::All],
        )],
        events: vec![("user.registered".to_owned(), event_def())],
    };
    let surface = Surface::from_project(&project);
    let commands: Vec<&str> = surface.commands.iter().map(|(name, _)| *name).collect();
    assert_eq!(commands, vec!["alpha", "zeta"], "an internal command is not routed");
    assert_eq!(surface.projectors[0].sources, Some(vec!["a", "b"]));
    assert_eq!(surface.effects[0].sources, None);
    let doc = document(&surface);
    assert!(doc["paths"].get("/commands/hidden").is_none());
    assert_eq!(doc["info"]["version"], "1.2.3");
    assert!(
        doc["tags"][1]["description"]
            .as_str()
            .unwrap()
            .contains("built from `a`, `b` and materialising `user_summary`"),
    );
}

/// A key that is taken goes to whoever came first.
#[test]
fn a_fixed_schema_is_never_displaced() {
    let input = schema();
    let entities: Vec<EntityDef> = Vec::new();
    let twice = |n: &str| EventDef { event_type: n.to_owned(), fields: Vec::new() };
    let events = vec![
        ("a b".to_owned(), twice("a b")),
        ("a!b".to_owned(), twice("a!b")),
        ("a_b".to_owned(), twice("a_b")),
    ];
    let doc = document(&surface(&input, &entities, &events));
    let schemas = doc["components"]["schemas"].as_object().unwrap();
    for key in ["event.a_b", "event.a_b_2", "event.a_b_3", "Error", "Status"] {
        assert!(schemas.contains_key(key), "no {key}");
    }
    assert_eq!(schemas["event.a_b"]["title"], "a b");
    assert_eq!(schemas["event.a_b_3"]["title"], "a_b");
}

#[test]
fn a_kind_wrapped_twice_cannot_be_described() {
    let twice = FieldKind::Optional(Box::new(FieldKind::Optional(Box::new(FieldKind::Bool))));
    let input = InputSchema { fields: vec![("flag".to_owned(), twice)] };
    assert!(!is_describable(&surface(&input, &[], &[])));
    let mut lost = entity();
    lost.key = "nope".to_owned();
    let good = schema();
    assert!(!is_describable(&surface(&good, &[lost], &[])));
}
