//! The API document: an OpenAPI 3.1 description of every route that is served, generated
//! from what a project declares.
//!
//! The schemas are the wire forms: an amount of money is a decimal string, an enum is a
//! string held to its variants, and an optional field is left out of what is required.
//! Event schemas alone describe no request or response: they say what the log holds.

use vstd::prelude::*;

use crate::json::{Json, JsonView};
use crate::list::{distinct, distinct_texts, lemma_place_is, place_of};
use crate::openapi::fields::{
    annotated, annotated_view, field_schema, field_schema_view, nullable, nullable_view,
};
use crate::openapi::names::{
    claim, claims, component_name, component_view, identifier, identifier_view,
    law_claims_are_unique, operation_id, operation_id_view,
};
use crate::openapi::parts::{
    COMMANDS_TAG, COMMANDS_TAG_DESCRIPTION, CORRELATION_ID_DESCRIPTION, IDEMPOTENCY_KEY_DESCRIPTION,
    INFO_DESCRIPTION, OPERATIONS_TAG, OPERATIONS_TAG_DESCRIPTION, READ_YOUR_WRITES,
    command_accepted_schema, command_accepted_schema_view, command_error_schema,
    command_error_schema_view, docs_path, docs_path_view, effect_status_schema,
    effect_status_schema_view, emitted_event_schema, emitted_event_schema_view, error_detail_schema,
    error_detail_schema_view, error_schema, error_schema_view, header_param, header_param_view,
    health_path, health_path_view, openapi_path, openapi_path_view, path_param, path_param_view,
    position_schema, position_schema_view, projector_status_schema, projector_status_schema_view,
    query_param, query_param_view, read_unavailable_response, read_unavailable_response_view,
    replay_path, replay_path_view, response, response_view, schema_ref, schema_ref_view, skip_path,
    skip_path_view, status_path, status_path_view, status_schema, status_schema_view,
};
use crate::order::{lemma_sorted_contains, lemma_sorted_map, sort, sorted, text_order, Ranked};
use crate::projector::EventSpec;
use crate::read_api::{
    filterable, filterable_fields, is_filterable, lemma_indexed_column, DEFAULT_LIMIT, MAX_LIMIT,
};
use crate::read_model::{flat, flat_columns, is_flat, is_usable, key_kind, key_kind_view};
use crate::schema::{
    base_kind, entity_error, field_named, find_field, law_a_valid_entity_can_be_served,
    law_a_valid_index_covers_plaintext, module_name, EntityDef, EventDef, FieldKind, FieldMeta, IndexDef,
    InputSchema, ModuleDef,
};
use crate::text::{
    count, decimal, join, join2, join3, join4, join5, joined, number, precedes, same, views,
};

pub mod fields;
pub mod names;
pub mod parts;
pub mod references;

verus! {

// ---------------------------------------------------------------------------
// Commands
// ---------------------------------------------------------------------------

/// Whether every input of a command is wrapped in at most one `Optional`, as every
/// declared one is.
pub open spec fn flat_inputs(schema: InputSchema) -> bool {
    forall|i: int| 0 <= i < schema.fields.len() ==> flat((#[trigger] schema.fields@[i]).1)
}

/// Whether a command needs a body: some input may not be left out.
pub open spec fn body_needed(schema: InputSchema) -> bool {
    exists|i: int| 0 <= i < schema.fields.len() && !((#[trigger] schema.fields@[i]).1 is Optional)
}

/// Whether a command needs a body.
fn needs_body(schema: &InputSchema) -> (r: bool)
    ensures
        r == body_needed(*schema),
{
    let mut i: usize = 0;
    while i < schema.fields.len()
        invariant
            i <= schema.fields.len(),
            forall|k: int| 0 <= k < i ==> (#[trigger] schema.fields@[k]).1 is Optional,
        decreases schema.fields.len() - i,
    {
        if !schema.fields[i].1.is_nullable() {
            return true;
        }
        i += 1;
    }
    false
}

/// The schema of an input. An optional one may be left out or sent as an explicit null.
pub open spec fn input_property(kind: FieldKind) -> JsonView {
    if kind is Optional {
        nullable_view(field_schema_view(kind))
    } else {
        field_schema_view(kind)
    }
}

/// The schemas of the first inputs.
pub open spec fn input_properties(fields: Seq<(String, FieldKind)>) -> JsonView
    decreases fields.len(),
{
    if fields.len() == 0 {
        JsonView::object()
    } else {
        input_properties(fields.drop_last()).with(fields.last().0@, input_property(fields.last().1))
    }
}

/// The first inputs that may not be left out.
pub open spec fn required_inputs(fields: Seq<(String, FieldKind)>) -> Seq<Seq<char>>
    decreases fields.len(),
{
    if fields.len() == 0 {
        Seq::empty()
    } else if fields.last().1 is Optional {
        required_inputs(fields.drop_last())
    } else {
        required_inputs(fields.drop_last()).push(fields.last().0@)
    }
}

/// The schema of an object with these members and no others.
pub open spec fn closed_object_view(properties: JsonView, required: Seq<Seq<char>>) -> JsonView {
    JsonView::object().with("type"@, JsonView::Text("object"@)).with(
        "properties"@,
        properties,
    ).with("required"@, JsonView::texts(required)).with(
        "additionalProperties"@,
        JsonView::Bool(false),
    )
}

/// The schema of an object with these members and no others.
fn closed_object(properties: Json, required: &Vec<String>) -> (r: Json)
    ensures
        r@ == closed_object_view(properties@, views(required@)),
{
    Json::object().with("type", Json::text("object")).with("properties", properties).with(
        "required",
        Json::texts(required),
    ).with("additionalProperties", Json::Bool(false))
}

/// The schema of a command's body.
pub open spec fn input_schema_view(schema: InputSchema) -> JsonView {
    closed_object_view(input_properties(schema.fields@), required_inputs(schema.fields@))
}

/// The schema of a command's body.
fn input_schema(schema: &InputSchema) -> (r: Json)
    requires
        flat_inputs(*schema),
    ensures
        r@ == input_schema_view(*schema),
{
    let mut properties = Json::object();
    let mut required: Vec<String> = Vec::new();
    let ghost fields = schema.fields@;
    let mut i: usize = 0;
    assert(fields.take(0) =~= Seq::empty());
    assert(views(required@) =~= Seq::empty());
    while i < schema.fields.len()
        invariant
            i <= schema.fields.len(),
            fields == schema.fields@,
            flat_inputs(*schema),
            properties@ == input_properties(fields.take(i as int)),
            views(required@) == required_inputs(fields.take(i as int)),
        decreases schema.fields.len() - i,
    {
        assert(fields.take(i as int + 1).drop_last() =~= fields.take(i as int));
        let kind = &schema.fields[i].1;
        assert(flat(schema.fields@[i as int].1));
        let schema_of = field_schema(kind);
        let property = if kind.is_nullable() {
            nullable(schema_of)
        } else {
            schema_of
        };
        properties = properties.with(&schema.fields[i].0, property);
        if !kind.is_nullable() {
            let ghost had = views(required@);
            required.push(schema.fields[i].0.clone());
            assert(views(required@) =~= had.push(fields[i as int].0@));
        }
        i += 1;
    }
    assert(fields.take(i as int) =~= fields);
    closed_object(properties, &required)
}

/// The endpoint of a command.
pub open spec fn command_path_view(name: Seq<char>, schema: InputSchema) -> JsonView {
    JsonView::object()
        .with("tags"@, JsonView::array().item(JsonView::Text(COMMANDS_TAG@)))
        .with("summary"@, JsonView::Text("execute the `"@ + name + "` command"@))
        .with(
            "parameters"@,
            JsonView::array()
                .item(header_param_view("Idempotency-Key"@, IDEMPOTENCY_KEY_DESCRIPTION@))
                .item(header_param_view("X-Correlation-Id"@, CORRELATION_ID_DESCRIPTION@)),
        )
        .with(
            "requestBody"@,
            JsonView::object()
                .with("required"@, JsonView::Bool(body_needed(schema)))
                .with(
                    "content"@,
                    JsonView::object()
                        .with(
                            "application/json"@,
                            JsonView::object()
                                .with("schema"@, input_schema_view(schema)),
                        ),
                ),
        )
        .with(
            "responses"@,
            JsonView::object()
                .with(
                    "200"@,
                    response_view(
                        "committed; the body carries the appended positions and emitted events"@,
                        schema_ref_view("CommandAccepted"@),
                    ),
                )
                .with(
                    "400"@,
                    response_view("the input was malformed"@, schema_ref_view("CommandError"@)),
                )
                .with(
                    "409"@,
                    response_view(
                        "the consistency boundary kept changing; retry"@,
                        schema_ref_view("CommandError"@),
                    ),
                )
                .with(
                    "422"@,
                    response_view(
                        "the command rejected the request on state grounds"@,
                        schema_ref_view("CommandError"@),
                    ),
                )
                .with(
                    "500"@,
                    response_view("internal error"@, schema_ref_view("CommandError"@)),
                )
                .with(
                    "503"@,
                    response_view(
                        "the store was unavailable; retry"@,
                        schema_ref_view("CommandError"@),
                    ),
                ),
        )
}

/// The endpoint of a command.
fn command_path(name: &str, schema: &InputSchema) -> (r: Json)
    requires
        flat_inputs(*schema),
    ensures
        r@ == command_path_view(name@, *schema),
{
    Json::object()
        .with("tags", Json::array().item(Json::text(COMMANDS_TAG)))
        .with("summary", Json::Text(join3("execute the `", name, "` command")))
        .with(
            "parameters",
            Json::array()
                .item(header_param("Idempotency-Key", IDEMPOTENCY_KEY_DESCRIPTION))
                .item(header_param("X-Correlation-Id", CORRELATION_ID_DESCRIPTION)),
        )
        .with(
            "requestBody",
            Json::object()
                .with("required", Json::Bool(needs_body(schema)))
                .with(
                    "content",
                    Json::object()
                        .with(
                            "application/json",
                            Json::object().with("schema", input_schema(schema)),
                        ),
                ),
        )
        .with(
            "responses",
            Json::object()
                .with(
                    "200",
                    response(
                        "committed; the body carries the appended positions and emitted events",
                        schema_ref("CommandAccepted"),
                    ),
                )
                .with("400", response("the input was malformed", schema_ref("CommandError")))
                .with(
                    "409",
                    response(
                        "the consistency boundary kept changing; retry",
                        schema_ref("CommandError"),
                    ),
                )
                .with(
                    "422",
                    response(
                        "the command rejected the request on state grounds",
                        schema_ref("CommandError"),
                    ),
                )
                .with("500", response("internal error", schema_ref("CommandError")))
                .with(
                    "503",
                    response("the store was unavailable; retry", schema_ref("CommandError")),
                ),
        )
}

// ---------------------------------------------------------------------------
// Read models
// ---------------------------------------------------------------------------

/// How long a read may wait for a projector, in milliseconds: where the caller does not
/// say, and at most.
#[derive(Debug, Clone, Copy)]
pub struct Wait {
    pub default_ms: u64,
    pub max_ms: u64,
}

/// Whether an entity can be described: what it can be filtered by is declared, and every
/// column's kind is wrapped in at most one `Optional`. A valid entity's is.
pub open spec fn servable(entity: EntityDef) -> bool {
    &&& flat_columns(entity)
    &&& forall|i: int|
        0 <= i < filterable(entity).len() ==> field_named(
            entity.fields@,
            #[trigger] filterable(entity)[i],
        ) is Some
}

/// A field that is found is one of those that were searched.
proof fn lemma_field_is_declared(fields: Seq<(String, FieldMeta)>, name: Seq<char>)
    requires
        field_named(fields, name) is Some,
    ensures
        exists|i: int| 0 <= i < fields.len() && #[trigger] fields[i].1 == field_named(fields, name)->0,
    decreases fields.len(),
{
    if fields[0].0@ == name {
        assert(fields[0].1 == field_named(fields, name)->0);
    } else {
        lemma_field_is_declared(fields.skip(1), name);
        let i = choose|i: int|
            0 <= i < fields.skip(1).len() && #[trigger] fields.skip(1)[i].1 == field_named(
                fields.skip(1),
                name,
            )->0;
        assert(fields[i + 1].1 == field_named(fields, name)->0);
    }
}

proof fn lemma_servable(entity: EntityDef, name: Seq<char>)
    requires
        servable(entity),
        filterable(entity).contains(name),
    ensures
        field_named(entity.fields@, name) is Some,
        flat(field_named(entity.fields@, name)->0.kind),
{
    let i = choose|i: int| 0 <= i < filterable(entity).len() && filterable(entity)[i] == name;
    lemma_field_is_declared(entity.fields@, name);
}

/// An entity that passes validation can be described.
pub proof fn law_a_valid_entity_is_servable(entity: EntityDef)
    requires
        entity_error(entity) is None,
        flat_columns(entity),
    ensures
        servable(entity),
{
    law_a_valid_entity_can_be_served(entity);
    assert forall|i: int| 0 <= i < filterable(entity).len() implies field_named(
        entity.fields@,
        #[trigger] filterable(entity)[i],
    ) is Some by {
        if i > 0 {
            let at = lemma_indexed_column(entity, entity.indexes.len() as nat, i - 1);
            law_a_valid_index_covers_plaintext(entity, at.0, at.1);
        }
    }
}

/// The tag of a projector's read endpoints.
pub open spec fn read_tag_view(projector: Seq<char>) -> Seq<char> {
    "read: "@ + projector
}

/// The tag of a projector's read endpoints.
fn read_tag(projector: &str) -> (r: String)
    ensures
        r@ == read_tag_view(projector@),
{
    join2("read: ", projector)
}

/// A non-negative integer.
pub open spec fn unsigned_view() -> JsonView {
    JsonView::object().with("type"@, JsonView::Text("integer"@)).with("minimum"@, JsonView::Int(0))
}

/// A non-negative integer.
fn unsigned() -> (r: Json)
    ensures
        r@ == unsigned_view(),
{
    Json::object().with("type", Json::text("integer")).with("minimum", Json::Int(0))
}

/// What is said of the time that a read may wait.
pub open spec fn timeout_text_view(wait: Wait) -> Seq<char> {
    "How long an `after` wait may block, in milliseconds. Defaults to "@ + decimal(
        wait.default_ms as nat,
    ) + ". A larger value is capped at "@ + decimal(wait.max_ms as nat)
        + " rather than rejected. `0` checks once without waiting. Ignored when `after` is absent."@
}

/// A list of parameters with those of a read that waits behind it. Neither declares a
/// maximum: what is too large is capped, and a client that validates would refuse it.
pub open spec fn wait_params_view(list: JsonView, wait: Wait) -> JsonView {
    list.item(
        query_param_view(
            "after"@,
            "Read-your-writes: block until this projector reaches this log position before reading. Use the `positions.last` a command returned. On timeout the read fails closed with a 503 rather than serving stale data."@,
            unsigned_view(),
        ),
    ).item(
        query_param_view(
            "timeout_ms"@,
            timeout_text_view(wait),
            unsigned_view().with("default"@, JsonView::Int(wait.default_ms as int)),
        ),
    )
}

/// A list of parameters with those of a read that waits behind it.
fn wait_params(list: Json, wait: &Wait) -> (r: Json)
    ensures
        r@ == wait_params_view(list@, *wait),
{
    let timeout = join5(
        "How long an `after` wait may block, in milliseconds. Defaults to ",
        &number(wait.default_ms),
        ". A larger value is capped at ",
        &number(wait.max_ms),
        " rather than rejected. `0` checks once without waiting. Ignored when `after` is absent.",
    );
    list.item(
        query_param(
            "after",
            "Read-your-writes: block until this projector reaches this log position before reading. Use the `positions.last` a command returned. On timeout the read fails closed with a 503 rather than serving stale data.",
            unsigned(),
        ),
    ).item(
        query_param(
            "timeout_ms",
            &timeout,
            unsigned().with("default", Json::uint(wait.default_ms)),
        ),
    )
}

/// What is said of reading one row.
pub open spec fn get_one_text_view(entity: EntityDef) -> Seq<char> {
    "Returns the row whose `"@ + entity.key@
        + "` equals `key`, with the projector's log position read in the same snapshot, so the data and the position agree. "@
        + READ_YOUR_WRITES@
}

/// What is said of reading one row.
fn get_one_text(entity: &EntityDef) -> (r: String)
    ensures
        r@ == get_one_text_view(*entity),
{
    join4(
        "Returns the row whose `",
        &entity.key,
        "` equals `key`, with the projector's log position read in the same snapshot, so the data and the position agree. ",
        READ_YOUR_WRITES,
    )
}

/// The parameters of reading one row.
pub open spec fn get_one_params_view(entity: EntityDef, wait: Wait) -> JsonView {
    wait_params_view(
        JsonView::array().item(
            path_param_view(
                "key"@,
                "The row's `"@ + entity.key@ + "`."@,
                field_schema_view(key_kind_view(entity)),
            ),
        ),
        wait,
    )
}

/// The parameters of reading one row.
fn get_one_params(entity: &EntityDef, wait: &Wait) -> (r: Json)
    requires
        servable(*entity),
    ensures
        r@ == get_one_params_view(*entity, *wait),
{
    proof {
        assert(filterable(*entity)[0] == entity.key@);
        lemma_servable(*entity, entity.key@);
    }
    let list = Json::array().item(
        path_param(
            "key",
            &join3("The row's `", &entity.key, "`."),
            field_schema(key_kind(entity)),
        ),
    );
    wait_params(list, wait)
}

/// What is said of scanning an entity.
pub open spec fn scan_text_view(entity: EntityDef) -> Seq<char> {
    "An ordered, cursor-paginated scan of `"@ + entity.name@ + "`, ordered by its `"@ + entity.key@
        + "` key. Filtering is restricted to the key and the leftmost column of a declared index, and at most one filter per request: anything else would be a table scan, so it is a 400 rather than a slow query. "@
        + READ_YOUR_WRITES@
}

/// What is said of scanning an entity.
fn scan_text(entity: &EntityDef) -> (r: String)
    ensures
        r@ == scan_text_view(*entity),
{
    let mut out = join5(
        "An ordered, cursor-paginated scan of `",
        &entity.name,
        "`, ordered by its `",
        &entity.key,
        "` key. Filtering is restricted to the key and the leftmost column of a declared index, and at most one filter per request: anything else would be a table scan, so it is a 400 rather than a slow query. ",
    );
    out.append(READ_YOUR_WRITES);
    out
}

/// What is said of a filter.
pub open spec fn filter_notes_view(entity: EntityDef, field: Seq<char>, kind: FieldKind) -> Seq<
    Seq<char>,
> {
    seq![
        "Filter on `"@ + field
            + "`. At most one filter may be supplied per request; a second is a 400."@,
    ] + (if field == entity.key@ {
        seq!["This is the entity's key."@]
    } else {
        Seq::empty()
    }) + (if base_kind(kind) is Bool {
        seq![
            "The server additionally accepts `1` and `0` here, beyond the `true` and `false` this schema declares."@,
        ]
    } else {
        Seq::empty()
    })
}

/// One filter.
pub open spec fn filter_param_view(entity: EntityDef, field: Seq<char>) -> JsonView {
    let kind = field_named(entity.fields@, field)->0.kind;
    query_param_view(
        field,
        joined(filter_notes_view(entity, field, kind), " "@),
        field_schema_view(kind),
    )
}

/// One filter. Only the key and the columns of the indexes reach this, all of them declared
/// and in plaintext in an entity that was validated.
fn filter_param(entity: &EntityDef, field: &str) -> (r: Json)
    requires
        servable(*entity),
        filterable(*entity).contains(field@),
    ensures
        r@ == filter_param_view(*entity, field@),
{
    proof {
        lemma_servable(*entity, field@);
    }
    let kind = match find_field(&entity.fields, field) {
        Some(meta) => &meta.kind,
        None => &entity.fields[0].1.kind,
    };
    let mut notes: Vec<String> = vec![
        join3(
            "Filter on `",
            field,
            "`. At most one filter may be supplied per request; a second is a 400.",
        ),
    ];
    if same(field, &entity.key) {
        notes.push("This is the entity's key.".to_owned());
    }
    if let FieldKind::Bool = kind.base() {
        notes.push(
            "The server additionally accepts `1` and `0` here, beyond the `true` and `false` this schema declares.".to_owned(),
        );
    }
    assert(views(notes@) =~= filter_notes_view(*entity, field@, *kind));
    query_param(field, &join(&notes, " "), field_schema(kind))
}

/// A list of parameters with one for each of the first filters behind it.
pub open spec fn filter_params_view(list: JsonView, entity: EntityDef, fields: Seq<Seq<char>>) -> JsonView
    decreases fields.len(),
{
    if fields.len() == 0 {
        list
    } else {
        filter_params_view(list, entity, fields.drop_last()).item(
            filter_param_view(entity, fields.last()),
        )
    }
}

/// What is said of a page's size.
pub open spec fn limit_text_view() -> Seq<char> {
    "Page size. Defaults to "@ + decimal(DEFAULT_LIMIT as nat) + ". Values outside 1 to "@ + decimal(
        MAX_LIMIT as nat,
    ) + " are clamped into range rather than rejected; only a non-integer is a 400."@
}

/// The parameters of a scan: the page, the wait, and one for each field that it can be
/// filtered by, once.
pub open spec fn scan_params_view(entity: EntityDef, wait: Wait) -> JsonView {
    filter_params_view(
        wait_params_view(
            JsonView::array().item(
                query_param_view(
                    "limit"@,
                    limit_text_view(),
                    unsigned_view().with("default"@, JsonView::Int(DEFAULT_LIMIT as int)),
                ),
            ).item(
                query_param_view(
                    "cursor"@,
                    "An opaque forward cursor from a previous page's `next_cursor`. Pagination is by key, never by offset, so rows are neither skipped nor repeated when the model changes between pages."@,
                    JsonView::object().with("type"@, JsonView::Text("string"@)),
                ),
            ),
            wait,
        ),
        entity,
        distinct(filterable(entity)),
    )
}

/// What is in a list once each is in the list.
proof fn lemma_distinct_within(list: Seq<Seq<char>>)
    ensures
        forall|i: int|
            0 <= i < distinct(list).len() ==> list.contains(#[trigger] distinct(list)[i]),
    decreases list.len(),
{
    if list.len() > 0 {
        let rest = list.drop_last();
        lemma_distinct_within(rest);
        assert forall|i: int| 0 <= i < distinct(list).len() implies list.contains(
            #[trigger] distinct(list)[i],
        ) by {
            if i < distinct(rest).len() {
                assert(distinct(list)[i] == distinct(rest)[i]);
                let k = choose|k: int| 0 <= k < rest.len() && rest[k] == distinct(rest)[i];
                assert(list[k] == distinct(list)[i]);
            } else {
                assert(list[list.len() - 1] == distinct(list)[i]);
            }
        }
    }
}

/// The parameters of a scan.
fn scan_params(entity: &EntityDef, wait: &Wait) -> (r: Json)
    requires
        servable(*entity),
    ensures
        r@ == scan_params_view(*entity, *wait),
{
    let limit = join5(
        "Page size. Defaults to ",
        &count(DEFAULT_LIMIT),
        ". Values outside 1 to ",
        &count(MAX_LIMIT),
        " are clamped into range rather than rejected; only a non-integer is a 400.",
    );
    let list = Json::array().item(
        query_param("limit", &limit, unsigned().with("default", Json::size(DEFAULT_LIMIT))),
    ).item(
        query_param(
            "cursor",
            "An opaque forward cursor from a previous page's `next_cursor`. Pagination is by key, never by offset, so rows are neither skipped nor repeated when the model changes between pages.",
            Json::object().with("type", Json::text("string")),
        ),
    );
    let first = wait_params(list, wait);
    let ghost start = first@;
    let filters = distinct_texts(&filterable_fields(entity));
    let ghost fields = views(filters@);
    let mut out = first;
    let mut i: usize = 0;
    assert(fields.take(0) =~= Seq::empty());
    while i < filters.len()
        invariant
            i <= filters.len(),
            fields == views(filters@),
            fields == distinct(filterable(*entity)),
            servable(*entity),
            out@ == filter_params_view(start, *entity, fields.take(i as int)),
        decreases filters.len() - i,
    {
        proof {
            lemma_distinct_within(filterable(*entity));
            assert(fields[i as int] == filters@[i as int]@);
            assert(fields.take(i as int + 1).drop_last() =~= fields.take(i as int));
        }
        out = out.item(filter_param(entity, &filters[i]));
        i += 1;
    }
    assert(fields.take(i as int) =~= fields);
    out
}

/// The endpoint that reads one row by its key.
pub open spec fn get_one_path_view(projector: Seq<char>, entity: EntityDef, key: Seq<char>, wait: Wait) -> JsonView {
    JsonView::object()
        .with("tags"@, JsonView::array().item(JsonView::Text(read_tag_view(projector))))
        .with("summary"@, JsonView::Text("read one `"@ + entity.name@ + "` row by key"@))
        .with("description"@, JsonView::Text(get_one_text_view(entity)))
        .with("parameters"@, get_one_params_view(entity, wait))
        .with(
            "responses"@,
            JsonView::object()
                .with(
                    "200"@,
                    response_view(
                        "the row, and the position it was read at"@,
                        JsonView::object()
                            .with("type"@, JsonView::Text("object"@))
                            .with(
                                "properties"@,
                                JsonView::object()
                                    .with("item"@, schema_ref_view(key))
                                    .with(
                                        "position"@,
                                        position_schema_view(
                                            "The projector's log position, read in the same snapshot as the row."@,
                                        ),
                                    ),
                            )
                            .with(
                                "required"@,
                                JsonView::array()
                                    .item(JsonView::Text("item"@))
                                    .item(JsonView::Text("position"@)),
                            )
                            .with("additionalProperties"@, JsonView::Bool(false)),
                    ),
                )
                .with(
                    "400"@,
                    response_view("a query parameter was malformed"@, schema_ref_view("Error"@)),
                )
                .with(
                    "404"@,
                    response_view("no such projector, entity, or row"@, schema_ref_view("Error"@)),
                )
                .with("503"@, read_unavailable_response_view())
                .with("500"@, response_view("internal error"@, schema_ref_view("Error"@))),
        )
}

/// The endpoint that reads one row by its key.
fn get_one_path(projector: &str, entity: &EntityDef, key: &str, wait: &Wait) -> (r: Json)
    requires
        servable(*entity),
    ensures
        r@ == get_one_path_view(projector@, *entity, key@, *wait),
{
    Json::object()
        .with("tags", Json::array().item(Json::Text(read_tag(projector))))
        .with("summary", Json::Text(join3("read one `", &entity.name, "` row by key")))
        .with("description", Json::Text(get_one_text(entity)))
        .with("parameters", get_one_params(entity, wait))
        .with(
            "responses",
            Json::object()
                .with(
                    "200",
                    response(
                        "the row, and the position it was read at",
                        Json::object()
                            .with("type", Json::text("object"))
                            .with(
                                "properties",
                                Json::object()
                                    .with("item", schema_ref(key))
                                    .with(
                                        "position",
                                        position_schema(
                                            "The projector's log position, read in the same snapshot as the row.",
                                        ),
                                    ),
                            )
                            .with(
                                "required",
                                Json::array()
                                    .item(Json::text("item"))
                                    .item(Json::text("position")),
                            )
                            .with("additionalProperties", Json::Bool(false)),
                    ),
                )
                .with("400", response("a query parameter was malformed", schema_ref("Error")))
                .with("404", response("no such projector, entity, or row", schema_ref("Error")))
                .with("503", read_unavailable_response())
                .with("500", response("internal error", schema_ref("Error"))),
        )
}

/// The endpoint that scans an entity.
pub open spec fn scan_path_view(projector: Seq<char>, entity: EntityDef, key: Seq<char>, wait: Wait) -> JsonView {
    JsonView::object()
        .with("tags"@, JsonView::array().item(JsonView::Text(read_tag_view(projector))))
        .with("summary"@, JsonView::Text("scan the `"@ + entity.name@ + "` entity"@))
        .with("description"@, JsonView::Text(scan_text_view(entity)))
        .with("parameters"@, scan_params_view(entity, wait))
        .with(
            "responses"@,
            JsonView::object()
                .with(
                    "200"@,
                    response_view(
                        "one page of rows, and the position they were read at"@,
                        JsonView::object()
                            .with("type"@, JsonView::Text("object"@))
                            .with(
                                "properties"@,
                                JsonView::object()
                                    .with(
                                        "items"@,
                                        JsonView::object()
                                            .with("type"@, JsonView::Text("array"@))
                                            .with("items"@, schema_ref_view(key)),
                                    )
                                    .with(
                                        "next_cursor"@,
                                        JsonView::object()
                                            .with(
                                                "type"@,
                                                JsonView::array()
                                                    .item(JsonView::Text("string"@))
                                                    .item(JsonView::Text("null"@)),
                                            )
                                            .with(
                                                "description"@,
                                                JsonView::Text("Pass as `cursor` for the next page. Null on the last page."@),
                                            ),
                                    )
                                    .with(
                                        "position"@,
                                        position_schema_view(
                                            "The projector's log position, read in the same snapshot as the rows."@,
                                        ),
                                    ),
                            )
                            .with(
                                "required"@,
                                JsonView::array()
                                    .item(JsonView::Text("items"@))
                                    .item(JsonView::Text("next_cursor"@))
                                    .item(JsonView::Text("position"@)),
                            )
                            .with("additionalProperties"@, JsonView::Bool(false)),
                    ),
                )
                .with(
                    "400"@,
                    response_view(
                        "a malformed parameter, or a filter on a field that is neither the key nor an index's leftmost column"@,
                        schema_ref_view("Error"@),
                    ),
                )
                .with(
                    "404"@,
                    response_view("no such projector or entity"@, schema_ref_view("Error"@)),
                )
                .with("503"@, read_unavailable_response_view())
                .with("500"@, response_view("internal error"@, schema_ref_view("Error"@))),
        )
}

/// The endpoint that scans an entity.
fn scan_path(projector: &str, entity: &EntityDef, key: &str, wait: &Wait) -> (r: Json)
    requires
        servable(*entity),
    ensures
        r@ == scan_path_view(projector@, *entity, key@, *wait),
{
    Json::object()
        .with("tags", Json::array().item(Json::Text(read_tag(projector))))
        .with("summary", Json::Text(join3("scan the `", &entity.name, "` entity")))
        .with("description", Json::Text(scan_text(entity)))
        .with("parameters", scan_params(entity, wait))
        .with(
            "responses",
            Json::object()
                .with(
                    "200",
                    response(
                        "one page of rows, and the position they were read at",
                        Json::object()
                            .with("type", Json::text("object"))
                            .with(
                                "properties",
                                Json::object()
                                    .with(
                                        "items",
                                        Json::object()
                                            .with("type", Json::text("array"))
                                            .with("items", schema_ref(key)),
                                    )
                                    .with(
                                        "next_cursor",
                                        Json::object()
                                            .with(
                                                "type",
                                                Json::array()
                                                    .item(Json::text("string"))
                                                    .item(Json::text("null")),
                                            )
                                            .with(
                                                "description",
                                                Json::text("Pass as `cursor` for the next page. Null on the last page."),
                                            ),
                                    )
                                    .with(
                                        "position",
                                        position_schema(
                                            "The projector's log position, read in the same snapshot as the rows.",
                                        ),
                                    ),
                            )
                            .with(
                                "required",
                                Json::array()
                                    .item(Json::text("items"))
                                    .item(Json::text("next_cursor"))
                                    .item(Json::text("position")),
                            )
                            .with("additionalProperties", Json::Bool(false)),
                    ),
                )
                .with(
                    "400",
                    response(
                        "a malformed parameter, or a filter on a field that is neither the key nor an index's leftmost column",
                        schema_ref("Error"),
                    ),
                )
                .with("404", response("no such projector or entity", schema_ref("Error")))
                .with("503", read_unavailable_response())
                .with("500", response("internal error", schema_ref("Error"))),
        )
}

// ---------------------------------------------------------------------------
// Schemas of events and entities
// ---------------------------------------------------------------------------

/// Whether every field is wrapped in at most one `Optional`, as every declared one is.
pub open spec fn flat_fields(fields: Seq<(String, FieldMeta)>) -> bool {
    forall|i: int| 0 <= i < fields.len() ==> flat((#[trigger] fields[i]).1.kind)
}

/// What is said of an event's field.
pub open spec fn event_notes(meta: FieldMeta) -> Seq<Seq<char>> {
    (match meta.subject {
        Some(subject) => seq![
            "Encrypted under the subject `"@ + subject@
                + "`: stored as ciphertext, and readable only through `reveal()` in an effect. Erasing that subject makes it permanently unreadable."@,
        ],
        None => Seq::empty(),
    }) + seq![
        if meta.indexed {
            "Indexed, so a query, fold or dispatch clause can filter on it."@
        } else {
            "Not indexed, so no clause can filter on it."@
        },
    ] + (if meta.unique {
        seq![
            "`unique`: also tagged under a global key, so it can be filtered across subjects without naming one. This makes the field filterable, not unique; enforcement is an ordinary query, fold and reject."@,
        ]
    } else {
        Seq::empty()
    })
}

/// What is said of an event's field.
fn event_field_notes(meta: &FieldMeta) -> (r: Vec<String>)
    ensures
        views(r@) == event_notes(*meta),
{
    let mut notes: Vec<String> = Vec::new();
    if let Some(subject) = &meta.subject {
        notes.push(
            join3(
                "Encrypted under the subject `",
                subject,
                "`: stored as ciphertext, and readable only through `reveal()` in an effect. Erasing that subject makes it permanently unreadable.",
            ),
        );
    }
    if meta.indexed {
        notes.push("Indexed, so a query, fold or dispatch clause can filter on it.".to_owned());
    } else {
        notes.push("Not indexed, so no clause can filter on it.".to_owned());
    }
    if meta.unique {
        notes.push(
            "`unique`: also tagged under a global key, so it can be filtered across subjects without naming one. This makes the field filterable, not unique; enforcement is an ordinary query, fold and reject.".to_owned(),
        );
    }
    assert(views(notes@) =~= event_notes(*meta));
    notes
}

/// An object with the subject of a field, where it has one.
pub open spec fn with_subject_view(schema: JsonView, subject: Option<String>) -> JsonView {
    match subject {
        Some(name) => schema.with("x-hekla-subject"@, JsonView::Text(name@)),
        None => schema,
    }
}

/// An object with the subject of a field, where it has one.
fn with_subject(schema: Json, subject: &Option<String>) -> (r: Json)
    ensures
        r@ == with_subject_view(schema@, *subject),
{
    match subject {
        Some(name) => schema.with("x-hekla-subject", Json::text(name)),
        None => schema,
    }
}

/// An event's field: its schema, its policy in words, and the same policy in a form that a
/// generator can read.
pub open spec fn event_field_view(meta: FieldMeta) -> JsonView {
    with_subject_view(
        annotated_view(meta.kind, event_notes(meta)).with(
            "x-hekla-indexed"@,
            JsonView::Bool(meta.indexed),
        ).with("x-hekla-unique"@, JsonView::Bool(meta.unique)),
        meta.subject,
    )
}

/// An event's field.
fn annotated_event_field(meta: &FieldMeta) -> (r: Json)
    requires
        flat(meta.kind),
    ensures
        r@ == event_field_view(*meta),
{
    with_subject(
        annotated(&meta.kind, &event_field_notes(meta)).with(
            "x-hekla-indexed",
            Json::Bool(meta.indexed),
        ).with("x-hekla-unique", Json::Bool(meta.unique)),
        &meta.subject,
    )
}

/// The schemas of the first fields of an event.
pub open spec fn event_properties(fields: Seq<(String, FieldMeta)>) -> JsonView
    decreases fields.len(),
{
    if fields.len() == 0 {
        JsonView::object()
    } else {
        event_properties(fields.drop_last()).with(fields.last().0@, event_field_view(fields.last().1))
    }
}

/// The first fields that an event always has.
pub open spec fn event_required(fields: Seq<(String, FieldMeta)>) -> Seq<Seq<char>>
    decreases fields.len(),
{
    if fields.len() == 0 {
        Seq::empty()
    } else if fields.last().1.kind is Optional {
        event_required(fields.drop_last())
    } else {
        event_required(fields.drop_last()).push(fields.last().0@)
    }
}

/// The schema of an event as the log holds it.
pub open spec fn event_schema_view(event_type: Seq<char>, def: EventDef) -> JsonView {
    closed_object_view(event_properties(def.fields@), event_required(def.fields@)).with(
        "title"@,
        JsonView::Text(event_type),
    ).with(
        "description"@,
        JsonView::Text(
            "The `"@ + event_type
                + "` event as recorded in the log. This documents the domain vocabulary, not a request or response body: an event's fields never appear on the wire. A command's 200 reports only each event's type and plaintext tags."@,
        ),
    )
}

/// The schema of an event as the log holds it.
fn event_schema(event_type: &str, def: &EventDef) -> (r: Json)
    requires
        flat_fields(def.fields@),
    ensures
        r@ == event_schema_view(event_type@, *def),
{
    let mut properties = Json::object();
    let mut required: Vec<String> = Vec::new();
    let ghost fields = def.fields@;
    let mut i: usize = 0;
    assert(fields.take(0) =~= Seq::empty());
    assert(views(required@) =~= Seq::empty());
    while i < def.fields.len()
        invariant
            i <= def.fields.len(),
            fields == def.fields@,
            flat_fields(fields),
            properties@ == event_properties(fields.take(i as int)),
            views(required@) == event_required(fields.take(i as int)),
        decreases def.fields.len() - i,
    {
        assert(fields.take(i as int + 1).drop_last() =~= fields.take(i as int));
        let meta = &def.fields[i].1;
        assert(flat(fields[i as int].1.kind));
        properties = properties.with(&def.fields[i].0, annotated_event_field(meta));
        if !meta.kind.is_nullable() {
            let ghost had = views(required@);
            required.push(def.fields[i].0.clone());
            assert(views(required@) =~= had.push(fields[i as int].0@));
        }
        i += 1;
    }
    assert(fields.take(i as int) =~= fields);
    closed_object(properties, &required).with("title", Json::text(event_type)).with(
        "description",
        Json::Text(
            join3(
                "The `",
                event_type,
                "` event as recorded in the log. This documents the domain vocabulary, not a request or response body: an event's fields never appear on the wire. A command's 200 reports only each event's type and plaintext tags.",
            ),
        ),
    )
}

/// What is said of an entity's column.
pub open spec fn entity_notes(entity: EntityDef, name: Seq<char>, meta: FieldMeta) -> Seq<Seq<char>> {
    seq![
        if name == entity.key@ {
            "The entity's key. Unique, and always filterable."@
        } else if filterable(entity).contains(name) {
            "Filterable: the leftmost column of a declared index."@
        } else {
            "Not filterable. Only the key and the leftmost column of each declared index are, so filtering on this is a 400."@
        },
    ] + (match meta.subject {
        Some(subject) => seq![
            "Encrypted under the subject `"@ + subject@
                + "`, and decrypted on read. Absent from the row when that subject's key has been erased or the value will not decrypt under the current master."@,
        ],
        None => Seq::empty(),
    })
}

/// What is said of an entity's column.
fn entity_field_notes(entity: &EntityDef, name: &str, meta: &FieldMeta, filterable_here: bool) -> (r: Vec<
    String,
>)
    requires
        filterable_here == filterable(*entity).contains(name@),
    ensures
        views(r@) == entity_notes(*entity, name@, *meta),
{
    let mut notes: Vec<String> = Vec::new();
    if same(name, &entity.key) {
        notes.push("The entity's key. Unique, and always filterable.".to_owned());
    } else if filterable_here {
        notes.push("Filterable: the leftmost column of a declared index.".to_owned());
    } else {
        notes.push(
            "Not filterable. Only the key and the leftmost column of each declared index are, so filtering on this is a 400.".to_owned(),
        );
    }
    if let Some(subject) = &meta.subject {
        notes.push(
            join3(
                "Encrypted under the subject `",
                subject,
                "`, and decrypted on read. Absent from the row when that subject's key has been erased or the value will not decrypt under the current master.",
            ),
        );
    }
    assert(views(notes@) =~= entity_notes(*entity, name@, *meta));
    notes
}

/// An entity's column. What a reader needs here is whether it can be filtered by, which
/// comes from the key and the indexes.
pub open spec fn entity_field_view(entity: EntityDef, name: Seq<char>, meta: FieldMeta) -> JsonView {
    let filtered = annotated_view(meta.kind, entity_notes(entity, name, meta)).with(
        "x-hekla-filterable"@,
        JsonView::Bool(filterable(entity).contains(name)),
    );
    with_subject_view(
        if name == entity.key@ {
            filtered.with("x-hekla-is-key"@, JsonView::Bool(true))
        } else {
            filtered
        },
        meta.subject,
    )
}

/// An entity's column.
fn annotated_entity_field(entity: &EntityDef, name: &str, meta: &FieldMeta) -> (r: Json)
    requires
        flat(meta.kind),
    ensures
        r@ == entity_field_view(*entity, name@, *meta),
{
    let filterable_here = is_filterable(entity, name);
    let notes = entity_field_notes(entity, name, meta, filterable_here);
    let filtered = annotated(&meta.kind, &notes).with(
        "x-hekla-filterable",
        Json::Bool(filterable_here),
    );
    let keyed = if same(name, &entity.key) {
        filtered.with("x-hekla-is-key", Json::Bool(true))
    } else {
        filtered
    };
    with_subject(keyed, &meta.subject)
}

/// The schemas of the first columns of an entity.
pub open spec fn entity_properties(entity: EntityDef, fields: Seq<(String, FieldMeta)>) -> JsonView
    decreases fields.len(),
{
    if fields.len() == 0 {
        JsonView::object()
    } else {
        entity_properties(entity, fields.drop_last()).with(
            fields.last().0@,
            entity_field_view(entity, fields.last().0@, fields.last().1),
        )
    }
}

/// The first columns that a row always has: a null is left out, and so is a subject's
/// value that can no longer be read.
pub open spec fn entity_required(fields: Seq<(String, FieldMeta)>) -> Seq<Seq<char>>
    decreases fields.len(),
{
    if fields.len() == 0 {
        Seq::empty()
    } else if fields.last().1.kind is Optional || fields.last().1.subject is Some {
        entity_required(fields.drop_last())
    } else {
        entity_required(fields.drop_last()).push(fields.last().0@)
    }
}

/// The first indexes of an entity.
pub open spec fn indexes_view(indexes: Seq<IndexDef>) -> JsonView
    decreases indexes.len(),
{
    if indexes.len() == 0 {
        JsonView::array()
    } else {
        indexes_view(indexes.drop_last()).item(
            JsonView::object().with("name"@, JsonView::Text(indexes.last().name@)).with(
                "columns"@,
                JsonView::texts(views(indexes.last().columns@)),
            ),
        )
    }
}

fn index_list(indexes: &Vec<IndexDef>) -> (r: Json)
    ensures
        r@ == indexes_view(indexes@),
{
    let mut out = Json::array();
    let mut i: usize = 0;
    assert(indexes@.take(0) =~= Seq::empty());
    while i < indexes.len()
        invariant
            i <= indexes.len(),
            out@ == indexes_view(indexes@.take(i as int)),
        decreases indexes.len() - i,
    {
        assert(indexes@.take(i as int + 1).drop_last() =~= indexes@.take(i as int));
        out = out.item(
            Json::object().with("name", Json::text(&indexes[i].name)).with(
                "columns",
                Json::texts(&indexes[i].columns),
            ),
        );
        i += 1;
    }
    assert(indexes@.take(i as int) =~= indexes@);
    out
}

/// The schema of a row.
pub open spec fn entity_schema_view(projector: Seq<char>, entity: EntityDef) -> JsonView {
    closed_object_view(
        entity_properties(entity, entity.fields@),
        entity_required(entity.fields@),
    ).with("title"@, JsonView::Text(entity.name@)).with(
        "description"@,
        JsonView::Text(
            "A row of the `"@ + entity.name@ + "` entity in the `"@ + projector
                + "` projector's read model."@,
        ),
    ).with("x-hekla-key"@, JsonView::Text(entity.key@)).with(
        "x-hekla-indexes"@,
        indexes_view(entity.indexes@),
    )
}

/// The schema of a row.
fn entity_schema(projector: &str, entity: &EntityDef) -> (r: Json)
    requires
        flat_columns(*entity),
    ensures
        r@ == entity_schema_view(projector@, *entity),
{
    let mut properties = Json::object();
    let mut required: Vec<String> = Vec::new();
    let ghost fields = entity.fields@;
    let mut i: usize = 0;
    assert(fields.take(0) =~= Seq::empty());
    assert(views(required@) =~= Seq::empty());
    while i < entity.fields.len()
        invariant
            i <= entity.fields.len(),
            fields == entity.fields@,
            flat_columns(*entity),
            properties@ == entity_properties(*entity, fields.take(i as int)),
            views(required@) == entity_required(fields.take(i as int)),
        decreases entity.fields.len() - i,
    {
        assert(fields.take(i as int + 1).drop_last() =~= fields.take(i as int));
        let meta = &entity.fields[i].1;
        assert(flat(entity.fields@[i as int].1.kind));
        properties = properties.with(
            &entity.fields[i].0,
            annotated_entity_field(entity, &entity.fields[i].0, meta),
        );
        if !meta.kind.is_nullable() && meta.subject.is_none() {
            let ghost had = views(required@);
            required.push(entity.fields[i].0.clone());
            assert(views(required@) =~= had.push(fields[i as int].0@));
        }
        i += 1;
    }
    assert(fields.take(i as int) =~= fields);
    closed_object(properties, &required).with("title", Json::text(&entity.name)).with(
        "description",
        Json::Text(
            join5(
                "A row of the `",
                &entity.name,
                "` entity in the `",
                projector,
                "` projector's read model.",
            ),
        ),
    ).with("x-hekla-key", Json::text(&entity.key)).with(
        "x-hekla-indexes",
        index_list(&entity.indexes),
    )
}

// ---------------------------------------------------------------------------
// The surface
// ---------------------------------------------------------------------------

/// Everything the document is generated from, borrowed from a loaded project.
///
/// Every list is in order of name: the arrays of the document keep the order they are
/// written in, and a document that reorders between runs cannot be diffed.
pub struct Surface<'a> {
    /// Public commands only. An internal one is not routed, so it is not described.
    pub commands: Vec<(&'a str, &'a InputSchema)>,
    pub projectors: Vec<ProjectorSurface<'a>>,
    pub effects: Vec<EffectSurface<'a>>,
    pub events: Vec<(&'a str, &'a EventDef)>,
}

/// A projector as the document describes it.
pub struct ProjectorSurface<'a> {
    pub name: &'a str,
    pub entities: &'a [EntityDef],
    /// The event types it subscribes to, or nothing where it subscribes to all.
    pub sources: Option<Vec<&'a str>>,
}

/// An effect as the document describes it.
pub struct EffectSurface<'a> {
    pub name: &'a str,
    /// The event types it subscribes to, or nothing where it subscribes to all.
    pub sources: Option<Vec<&'a str>>,
}

/// A module of a loaded project.
#[derive(Debug)]
pub struct Unit {
    /// Whether only effects may invoke it.
    pub internal: bool,
    pub def: ModuleDef,
    /// The clauses of its subscription.
    pub sources: Vec<EventSpec>,
}

/// A loaded project: its modules by kind, and its events by their types.
#[derive(Debug)]
pub struct Project {
    pub commands: Vec<Unit>,
    pub projectors: Vec<Unit>,
    pub effects: Vec<Unit>,
    pub events: Vec<(String, EventDef)>,
}

/// A list of borrowed texts as what they say.
pub open spec fn str_views(list: Seq<&str>) -> Seq<Seq<char>> {
    list.map_values(|t: &str| t@)
}

/// The event types of a subscription, or nothing where it is to all.
pub open spec fn sources_view(sources: Option<Vec<&str>>) -> Option<Seq<Seq<char>>> {
    match sources {
        Some(types) => Some(str_views(types@)),
        None => None,
    }
}

/// A borrowed name and what it names.
pub open spec fn named_views<T>(list: Seq<(&str, &T)>) -> Seq<(Seq<char>, T)> {
    list.map_values(|item: (&str, &T)| (item.0@, *item.1))
}

/// A projector: its name, its entities, and what it subscribes to.
pub open spec fn projector_view(projector: ProjectorSurface) -> (
    Seq<char>,
    Seq<EntityDef>,
    Option<Seq<Seq<char>>>,
) {
    (projector.name@, projector.entities@, sources_view(projector.sources))
}

/// An effect: its name, and what it subscribes to.
pub open spec fn effect_view(effect: EffectSurface) -> (Seq<char>, Option<Seq<Seq<char>>>) {
    (effect.name@, sources_view(effect.sources))
}

impl<'a> Ranked for &'a str {
    open spec fn ranks_before(self, other: &'a str) -> bool {
        precedes(self@, other@)
    }

    fn is_before(&self, other: &&'a str) -> (r: bool) {
        crate::text::is_before(self, other)
    }
}

impl<'a, T> Ranked for (&'a str, &'a T) {
    open spec fn ranks_before(self, other: (&'a str, &'a T)) -> bool {
        precedes(self.0@, other.0@)
    }

    fn is_before(&self, other: &(&'a str, &'a T)) -> (r: bool) {
        crate::text::is_before(self.0, other.0)
    }
}

impl<'a> Ranked for ProjectorSurface<'a> {
    open spec fn ranks_before(self, other: ProjectorSurface<'a>) -> bool {
        precedes(self.name@, other.name@)
    }

    fn is_before(&self, other: &ProjectorSurface<'a>) -> (r: bool) {
        crate::text::is_before(self.name, other.name)
    }
}

impl<'a> Ranked for EffectSurface<'a> {
    open spec fn ranks_before(self, other: EffectSurface<'a>) -> bool {
        precedes(self.name@, other.name@)
    }

    fn is_before(&self, other: &EffectSurface<'a>) -> (r: bool) {
        crate::text::is_before(self.name, other.name)
    }
}

/// The event types that the first clauses of a subscription name, or nothing where one of
/// them is every event.
pub open spec fn clause_types(sources: Seq<EventSpec>) -> Option<Seq<Seq<char>>>
    decreases sources.len(),
{
    if sources.len() == 0 {
        Some(Seq::empty())
    } else {
        match (clause_types(sources.drop_last()), sources.last()) {
            (Some(types), EventSpec::Filter { event_type, .. }) => Some(types.push(event_type@)),
            _ => None,
        }
    }
}

/// The event types that a subscription selects, each once and in order, or nothing where
/// it selects every event.
pub open spec fn subscribed(sources: Seq<EventSpec>) -> Option<Seq<Seq<char>>> {
    match clause_types(sources) {
        Some(types) => Some(sorted(distinct(types), text_order())),
        None => None,
    }
}

proof fn lemma_everything(sources: Seq<EventSpec>, at: int)
    requires
        0 <= at < sources.len(),
        sources[at] is All,
    ensures
        clause_types(sources) is None,
    decreases sources.len(),
{
    if at < sources.len() - 1 {
        lemma_everything(sources.drop_last(), at);
    }
}

fn has_text(list: &Vec<&str>, wanted: &str) -> (r: bool)
    ensures
        r == str_views(list@).contains(wanted@),
{
    let mut i: usize = 0;
    while i < list.len()
        invariant
            i <= list.len(),
            forall|k: int| 0 <= k < i ==> (#[trigger] list@[k])@ != wanted@,
        decreases list.len() - i,
    {
        if same(list[i], wanted) {
            assert(str_views(list@)[i as int] == wanted@);
            return true;
        }
        i += 1;
    }
    assert forall|k: int| 0 <= k < str_views(list@).len() implies str_views(list@)[k] != wanted@ by {
        assert(str_views(list@)[k] == list@[k]@);
    }
    false
}

/// The event types that a subscription selects, sorted and each once, or nothing where
/// any clause is every event.
fn source_types(sources: &Vec<EventSpec>) -> (r: Option<Vec<&str>>)
    ensures
        sources_view(r) == subscribed(sources@),
{
    let mut types: Vec<&str> = Vec::new();
    let ghost mut named: Seq<Seq<char>> = Seq::empty();
    let mut i: usize = 0;
    assert(sources@.take(0) =~= Seq::empty());
    assert(str_views(types@) =~= Seq::empty());
    while i < sources.len()
        invariant
            i <= sources.len(),
            clause_types(sources@.take(i as int)) == Some(named),
            str_views(types@) == distinct(named),
        decreases sources.len() - i,
    {
        assert(sources@.take(i as int + 1).drop_last() =~= sources@.take(i as int));
        match &sources[i] {
            EventSpec::All => {
                proof {
                    lemma_everything(sources@, i as int);
                }
                return None;
            },
            EventSpec::Filter { event_type, .. } => {
                proof {
                    assert(named.push(event_type@).drop_last() =~= named);
                    named = named.push(event_type@);
                }
                if !has_text(&types, event_type) {
                    let ghost had = str_views(types@);
                    types.push(event_type.as_str());
                    assert(str_views(types@) =~= had.push(event_type@));
                }
            },
        }
        i += 1;
    }
    assert(sources@.take(i as int) =~= sources@);
    proof {
        lemma_sorted_map(
            types@,
            |t: &str| t@,
            |a: &str, b: &str| a.ranks_before(b),
            text_order(),
        );
    }
    Some(sort(types))
}

/// The public commands among the first units.
pub open spec fn public_commands(units: Seq<Unit>) -> Seq<(Seq<char>, InputSchema)>
    decreases units.len(),
{
    if units.len() == 0 {
        Seq::empty()
    } else {
        let rest = public_commands(units.drop_last());
        match (units.last().internal, units.last().def) {
            (false, ModuleDef::Command { name, input }) => rest.push((name@, input)),
            _ => rest,
        }
    }
}

/// Exactly the public commands are described: an internal one is not routed.
pub proof fn law_an_internal_command_is_not_described(units: Seq<Unit>)
    ensures
        forall|k: int|
            0 <= k < public_commands(units).len() ==> exists|i: int|
                0 <= i < units.len() && is_public_command(
                    #[trigger] units[i],
                    (#[trigger] public_commands(units)[k]).0,
                ),
        forall|i: int|
            0 <= i < units.len() && is_public_command(#[trigger] units[i], module_name(units[i].def))
                ==> exists|k: int|
                0 <= k < public_commands(units).len() && (#[trigger] public_commands(units)[k]).0
                    == module_name(units[i].def),
    decreases units.len(),
{
    if units.len() > 0 {
        let rest = units.drop_last();
        law_an_internal_command_is_not_described(rest);
        let before = public_commands(rest);
        let all = public_commands(units);
        assert forall|k: int| 0 <= k < all.len() implies exists|i: int|
            0 <= i < units.len() && is_public_command(#[trigger] units[i], (#[trigger] all[k]).0) by {
            if k < before.len() {
                assert(all[k] == before[k]);
                let i = choose|i: int|
                    0 <= i < rest.len() && is_public_command(#[trigger] rest[i], before[k].0);
                assert(is_public_command(units[i], all[k].0));
            } else {
                assert(is_public_command(units[units.len() - 1], all[k].0));
            }
        }
        assert forall|i: int|
            0 <= i < units.len() && is_public_command(#[trigger] units[i], module_name(units[i].def)) implies exists|
            k: int,
        |
            0 <= k < all.len() && (#[trigger] all[k]).0 == module_name(units[i].def) by {
            if i < rest.len() {
                assert(rest[i] == units[i]);
                assert(is_public_command(rest[i], module_name(rest[i].def)));
                let k = choose|k: int|
                    0 <= k < before.len() && (#[trigger] before[k]).0 == module_name(rest[i].def);
                assert(all[k] == before[k]);
            } else {
                assert(all[before.len() as int].0 == module_name(units[i].def));
            }
        }
    }
}

/// Whether a unit is a command of that name that anyone may invoke.
pub open spec fn is_public_command(unit: Unit, name: Seq<char>) -> bool {
    !unit.internal && unit.def is Command && module_name(unit.def) == name
}

/// The projectors among the first units.
pub open spec fn project_projectors(units: Seq<Unit>) -> Seq<
    (Seq<char>, Seq<EntityDef>, Option<Seq<Seq<char>>>),
>
    decreases units.len(),
{
    if units.len() == 0 {
        Seq::empty()
    } else {
        let rest = project_projectors(units.drop_last());
        match units.last().def {
            ModuleDef::Projector { name, entities, .. } => rest.push(
                (name@, entities@, subscribed(units.last().sources@)),
            ),
            _ => rest,
        }
    }
}

/// The effects among the first units.
pub open spec fn project_effects(units: Seq<Unit>) -> Seq<(Seq<char>, Option<Seq<Seq<char>>>)>
    decreases units.len(),
{
    if units.len() == 0 {
        Seq::empty()
    } else {
        let rest = project_effects(units.drop_last());
        match units.last().def {
            ModuleDef::Effect { name, .. } => rest.push((name@, subscribed(units.last().sources@))),
            _ => rest,
        }
    }
}

/// The declared events with their types.
pub open spec fn project_events(events: Seq<(String, EventDef)>) -> Seq<(Seq<char>, EventDef)> {
    events.map_values(|event: (String, EventDef)| (event.0@, event.1))
}

/// The order of pairs by their names.
pub open spec fn by_name<T>() -> spec_fn((Seq<char>, T), (Seq<char>, T)) -> bool {
    |a: (Seq<char>, T), b: (Seq<char>, T)| precedes(a.0, b.0)
}

/// The order of projectors by their names.
pub open spec fn projectors_by_name() -> spec_fn(
    (Seq<char>, Seq<EntityDef>, Option<Seq<Seq<char>>>),
    (Seq<char>, Seq<EntityDef>, Option<Seq<Seq<char>>>),
) -> bool {
    |
        a: (Seq<char>, Seq<EntityDef>, Option<Seq<Seq<char>>>),
        b: (Seq<char>, Seq<EntityDef>, Option<Seq<Seq<char>>>),
    | precedes(a.0, b.0)
}

/// A list of projectors as what they say.
pub open spec fn projector_views(list: Seq<ProjectorSurface>) -> Seq<
    (Seq<char>, Seq<EntityDef>, Option<Seq<Seq<char>>>),
> {
    list.map_values(|projector: ProjectorSurface| projector_view(projector))
}

/// A list of effects as what they say.
pub open spec fn effect_views(list: Seq<EffectSurface>) -> Seq<(Seq<char>, Option<Seq<Seq<char>>>)> {
    list.map_values(|effect: EffectSurface| effect_view(effect))
}

fn commands_of<'a>(units: &'a Vec<Unit>) -> (r: Vec<(&'a str, &'a InputSchema)>)
    ensures
        named_views(r@) == sorted(public_commands(units@), by_name()),
{
    let mut out: Vec<(&'a str, &'a InputSchema)> = Vec::new();
    let mut i: usize = 0;
    assert(units@.take(0) =~= Seq::empty());
    assert(named_views(out@) =~= Seq::empty());
    while i < units.len()
        invariant
            i <= units.len(),
            named_views(out@) == public_commands(units@.take(i as int)),
        decreases units.len() - i,
    {
        assert(units@.take(i as int + 1).drop_last() =~= units@.take(i as int));
        if !units[i].internal {
            if let ModuleDef::Command { name, input } = &units[i].def {
                let ghost had = named_views(out@);
                out.push((name.as_str(), input));
                assert(named_views(out@) =~= had.push((name@, *input)));
            }
        }
        i += 1;
    }
    assert(units@.take(i as int) =~= units@);
    proof {
        lemma_sorted_map(
            out@,
            |item: (&str, &InputSchema)| (item.0@, *item.1),
            |a: (&str, &InputSchema), b: (&str, &InputSchema)| a.ranks_before(b),
            by_name(),
        );
    }
    sort(out)
}

fn projectors_of<'a>(units: &'a Vec<Unit>) -> (r: Vec<ProjectorSurface<'a>>)
    ensures
        projector_views(r@) == sorted(project_projectors(units@), projectors_by_name()),
{
    let mut out: Vec<ProjectorSurface<'a>> = Vec::new();
    let mut i: usize = 0;
    assert(units@.take(0) =~= Seq::empty());
    assert(projector_views(out@) =~= Seq::empty());
    while i < units.len()
        invariant
            i <= units.len(),
            projector_views(out@) == project_projectors(units@.take(i as int)),
        decreases units.len() - i,
    {
        assert(units@.take(i as int + 1).drop_last() =~= units@.take(i as int));
        if let ModuleDef::Projector { name, entities, .. } = &units[i].def {
            let ghost had = projector_views(out@);
            let projector = ProjectorSurface {
                name: name.as_str(),
                entities: entities.as_slice(),
                sources: source_types(&units[i].sources),
            };
            let ghost said = projector_view(projector);
            out.push(projector);
            assert(projector_views(out@) =~= had.push(said));
        }
        i += 1;
    }
    assert(units@.take(i as int) =~= units@);
    proof {
        lemma_sorted_map(
            out@,
            |projector: ProjectorSurface| projector_view(projector),
            |a: ProjectorSurface, b: ProjectorSurface| a.ranks_before(b),
            projectors_by_name(),
        );
    }
    sort(out)
}

fn effects_of<'a>(units: &'a Vec<Unit>) -> (r: Vec<EffectSurface<'a>>)
    ensures
        effect_views(r@) == sorted(project_effects(units@), by_name()),
{
    let mut out: Vec<EffectSurface<'a>> = Vec::new();
    let mut i: usize = 0;
    assert(units@.take(0) =~= Seq::empty());
    assert(effect_views(out@) =~= Seq::empty());
    while i < units.len()
        invariant
            i <= units.len(),
            effect_views(out@) == project_effects(units@.take(i as int)),
        decreases units.len() - i,
    {
        assert(units@.take(i as int + 1).drop_last() =~= units@.take(i as int));
        if let ModuleDef::Effect { name, .. } = &units[i].def {
            let ghost had = effect_views(out@);
            let effect = EffectSurface {
                name: name.as_str(),
                sources: source_types(&units[i].sources),
            };
            let ghost said = effect_view(effect);
            out.push(effect);
            assert(effect_views(out@) =~= had.push(said));
        }
        i += 1;
    }
    assert(units@.take(i as int) =~= units@);
    proof {
        lemma_sorted_map(
            out@,
            |effect: EffectSurface| effect_view(effect),
            |a: EffectSurface, b: EffectSurface| a.ranks_before(b),
            by_name(),
        );
    }
    sort(out)
}

fn events_of<'a>(events: &'a Vec<(String, EventDef)>) -> (r: Vec<(&'a str, &'a EventDef)>)
    ensures
        named_views(r@) == sorted(project_events(events@), by_name()),
{
    let mut out: Vec<(&'a str, &'a EventDef)> = Vec::new();
    let mut i: usize = 0;
    while i < events.len()
        invariant
            i <= events.len(),
            named_views(out@) =~= project_events(events@).take(i as int),
        decreases events.len() - i,
    {
        let ghost had = named_views(out@);
        out.push((events[i].0.as_str(), &events[i].1));
        assert(named_views(out@) =~= had.push((events@[i as int].0@, events@[i as int].1)));
        i += 1;
    }
    proof {
        assert(named_views(out@) =~= project_events(events@));
        lemma_sorted_map(
            out@,
            |item: (&str, &EventDef)| (item.0@, *item.1),
            |a: (&str, &EventDef), b: (&str, &EventDef)| a.ranks_before(b),
            by_name(),
        );
    }
    sort(out)
}

impl<'a> Surface<'a> {
    /// What a project serves: its public commands, its projectors, its effects and its
    /// events, each in order of name.
    pub fn from_project(project: &'a Project) -> (r: Surface<'a>)
        ensures
            named_views(r.commands@) == sorted(public_commands(project.commands@), by_name()),
            projector_views(r.projectors@) == sorted(
                project_projectors(project.projectors@),
                projectors_by_name(),
            ),
            effect_views(r.effects@) == sorted(project_effects(project.effects@), by_name()),
            named_views(r.events@) == sorted(project_events(project.events@), by_name()),
    {
        Surface {
            commands: commands_of(&project.commands),
            projectors: projectors_of(&project.projectors),
            effects: effects_of(&project.effects),
            events: events_of(&project.events),
        }
    }
}

// ---------------------------------------------------------------------------
// Component keys
// ---------------------------------------------------------------------------

/// The schemas that are always present, whatever the project declares.
pub const FIXED_SCHEMAS: [&'static str; 8] = [
    "ErrorDetail",
    "Error",
    "CommandError",
    "CommandAccepted",
    "EmittedEvent",
    "Status",
    "ProjectorStatus",
    "EffectStatus",
];

/// The names of the schemas that are always present.
pub open spec fn fixed_schemas() -> Seq<Seq<char>> {
    seq![
        "ErrorDetail"@,
        "Error"@,
        "CommandError"@,
        "CommandAccepted"@,
        "EmittedEvent"@,
        "Status"@,
        "ProjectorStatus"@,
        "EffectStatus"@,
    ]
}

/// The entities of the first projectors, each with the projector that serves it.
pub open spec fn served(projectors: Seq<ProjectorSurface>) -> Seq<(Seq<char>, EntityDef)>
    decreases projectors.len(),
{
    if projectors.len() == 0 {
        Seq::empty()
    } else {
        served(projectors.drop_last()) + served_by(
            projectors.last().name@,
            projectors.last().entities@,
        )
    }
}

/// The entities of a projector, with it.
pub open spec fn served_by(projector: Seq<char>, entities: Seq<EntityDef>) -> Seq<
    (Seq<char>, EntityDef),
> {
    entities.map_values(|entity: EntityDef| (projector, entity))
}

fn served_entities<'a>(projectors: &Vec<ProjectorSurface<'a>>) -> (r: Vec<(&'a str, &'a EntityDef)>)
    ensures
        named_views(r@) == served(projectors@),
{
    let mut out: Vec<(&'a str, &'a EntityDef)> = Vec::new();
    let mut i: usize = 0;
    assert(projectors@.take(0) =~= Seq::empty());
    assert(named_views(out@) =~= Seq::empty());
    while i < projectors.len()
        invariant
            i <= projectors.len(),
            named_views(out@) == served(projectors@.take(i as int)),
        decreases projectors.len() - i,
    {
        assert(projectors@.take(i as int + 1).drop_last() =~= projectors@.take(i as int));
        let name: &'a str = projectors[i].name;
        let entities: &'a [EntityDef] = projectors[i].entities;
        let ghost earlier = named_views(out@);
        let ghost here = served_by(name@, entities@);
        let mut j: usize = 0;
        assert(earlier + here.take(0) =~= earlier);
        while j < entities.len()
            invariant
                j <= entities.len(),
                here == served_by(name@, entities@),
                named_views(out@) == earlier + here.take(j as int),
            decreases entities.len() - j,
        {
            let ghost had = named_views(out@);
            out.push((name, &entities[j]));
            assert(named_views(out@) =~= had.push((name@, entities@[j as int])));
            assert(had.push((name@, entities@[j as int])) =~= earlier + here.take(j as int + 1));
            j += 1;
        }
        assert(here.take(j as int) =~= here);
        i += 1;
    }
    assert(projectors@.take(i as int) =~= projectors@);
    out
}

/// What an event would be called among the components.
pub open spec fn event_candidate(event_type: Seq<char>) -> Seq<char> {
    "event."@ + component_view(event_type)
}

/// What an entity would be called among the components.
pub open spec fn entity_candidate(projector: Seq<char>, entity: Seq<char>) -> Seq<char> {
    "entity."@ + component_view(projector) + "."@ + component_view(entity)
}

/// What the events, and behind them the entities, would be called.
pub open spec fn component_candidates(
    events: Seq<(Seq<char>, EventDef)>,
    entities: Seq<(Seq<char>, EntityDef)>,
) -> Seq<Seq<char>> {
    events.map_values(|event: (Seq<char>, EventDef)| event_candidate(event.0))
        + entities.map_values(
        |entity: (Seq<char>, EntityDef)| entity_candidate(entity.0, entity.1.name@),
    )
}

/// The key of each event and, behind them, each entity. The names that are always present
/// cannot be taken.
pub open spec fn component_keys(
    events: Seq<(Seq<char>, EventDef)>,
    entities: Seq<(Seq<char>, EntityDef)>,
) -> Seq<Seq<char>> {
    claims(fixed_schemas(), component_candidates(events, entities))
}

/// The key of an event type: that of the last event of the type.
pub open spec fn event_key(
    events: Seq<(Seq<char>, EventDef)>,
    entities: Seq<(Seq<char>, EntityDef)>,
    event_type: Seq<char>,
) -> Seq<char> {
    component_keys(events, entities)[place_of(
        events,
        |event: (Seq<char>, EventDef)| event.0 == event_type,
    )->0]
}

/// The key of a projector's entity: that of the last one so named.
pub open spec fn entity_key(
    events: Seq<(Seq<char>, EventDef)>,
    entities: Seq<(Seq<char>, EntityDef)>,
    projector: Seq<char>,
    name: Seq<char>,
) -> Seq<char> {
    component_keys(events, entities)[events.len() + place_of(
        entities,
        |entity: (Seq<char>, EntityDef)| entity.0 == projector && entity.1.name@ == name,
    )->0]
}

/// The key that each event and each entity is stored under, assigned once so that a
/// reference and the schema it points at cannot disagree.
struct ComponentNames<'a> {
    events: Vec<(&'a str, &'a EventDef)>,
    entities: Vec<(&'a str, &'a EntityDef)>,
    /// The keys of the events, and behind them those of the entities.
    keys: Vec<String>,
}

impl<'a> ComponentNames<'a> {
    spec fn event_list(self) -> Seq<(Seq<char>, EventDef)> {
        named_views(self.events@)
    }

    spec fn entity_list(self) -> Seq<(Seq<char>, EntityDef)> {
        named_views(self.entities@)
    }

    spec fn well_formed(self) -> bool {
        &&& views(self.keys@) == component_keys(self.event_list(), self.entity_list())
        &&& self.keys.len() == self.events.len() + self.entities.len()
    }

    fn assign(surface: &Surface<'a>) -> (r: ComponentNames<'a>)
        ensures
            r.well_formed(),
            r.event_list() == named_views(surface.events@),
            r.entity_list() == served(surface.projectors@),
    {
        let entities = served_entities(&surface.projectors);
        let mut events: Vec<(&'a str, &'a EventDef)> = Vec::new();
        let mut taken: Vec<String> = vec![
            FIXED_SCHEMAS[0].to_owned(),
            FIXED_SCHEMAS[1].to_owned(),
            FIXED_SCHEMAS[2].to_owned(),
            FIXED_SCHEMAS[3].to_owned(),
            FIXED_SCHEMAS[4].to_owned(),
            FIXED_SCHEMAS[5].to_owned(),
            FIXED_SCHEMAS[6].to_owned(),
            FIXED_SCHEMAS[7].to_owned(),
        ];
        let ghost fixed = fixed_schemas();
        assert(views(taken@) =~= fixed);
        let mut keys: Vec<String> = Vec::new();
        let ghost all_events = named_views(surface.events@);
        let ghost all_entities = named_views(entities@);
        let ghost candidates = component_candidates(all_events, all_entities);
        assert(candidates.take(0) =~= Seq::empty());
        assert(views(keys@) =~= Seq::empty());
        assert(fixed + Seq::<Seq<char>>::empty() =~= fixed);
        let mut i: usize = 0;
        while i < surface.events.len()
            invariant
                i <= surface.events.len(),
                all_events == named_views(surface.events@),
                candidates == component_candidates(all_events, all_entities),
                events@ == surface.events@.take(i as int),
                keys.len() == i,
                views(keys@) == claims(fixed, candidates.take(i as int)),
                views(taken@) == fixed + views(keys@),
            decreases surface.events.len() - i,
        {
            let (event_type, def) = surface.events[i];
            assert(candidates.take(i as int + 1).drop_last() =~= candidates.take(i as int));
            assert(candidates[i as int] == event_candidate(event_type@));
            let ghost had = views(keys@);
            let key = claim(&mut taken, &join2("event.", &component_name(event_type)));
            assert(fixed + had.push(key@) =~= (fixed + had).push(key@));
            keys.push(key);
            assert(views(keys@) =~= had.push(key@));
            events.push((event_type, def));
            assert(events@ =~= surface.events@.take(i as int + 1));
            i += 1;
        }
        assert(surface.events@.take(i as int) =~= surface.events@);
        let ghost first = i as int;
        let mut j: usize = 0;
        while j < entities.len()
            invariant
                j <= entities.len(),
                first == all_events.len(),
                all_entities == named_views(entities@),
                candidates == component_candidates(all_events, all_entities),
                keys.len() == first + j,
                views(keys@) == claims(fixed, candidates.take(first + j)),
                views(taken@) == fixed + views(keys@),
            decreases entities.len() - j,
        {
            let (projector, entity) = entities[j];
            assert(candidates.take(first + j + 1).drop_last() =~= candidates.take(first + j));
            assert(candidates[first + j] == entity_candidate(projector@, entity.name@));
            let ghost had = views(keys@);
            let key = claim(
                &mut taken,
                &join4("entity.", &component_name(projector), ".", &component_name(&entity.name)),
            );
            assert(fixed + had.push(key@) =~= (fixed + had).push(key@));
            keys.push(key);
            assert(views(keys@) =~= had.push(key@));
            j += 1;
        }
        assert(candidates.take(first + j) =~= candidates);
        ComponentNames { events, entities, keys }
    }

    /// The key of an event type.
    fn event(&self, event_type: &str) -> (r: &str)
        requires
            self.well_formed(),
            exists|i: int| 0 <= i < self.event_list().len() && self.event_list()[i].0 == event_type@,
        ensures
            r@ == event_key(self.event_list(), self.entity_list(), event_type@),
    {
        let ghost list = self.event_list();
        let ghost wanted = |event: (Seq<char>, EventDef)| event.0 == event_type@;
        let mut i: usize = self.events.len();
        while i > 0
            invariant
                i <= self.events.len(),
                list == named_views(self.events@),
                wanted == (|event: (Seq<char>, EventDef)| event.0 == event_type@),
                self.well_formed(),
                list == self.event_list(),
                forall|k: int| i <= k < list.len() ==> !wanted(#[trigger] list[k]),
                exists|k: int| 0 <= k < list.len() && list[k].0 == event_type@,
            decreases i,
        {
            i -= 1;
            assert(list[i as int].0 == self.events@[i as int].0@);
            if same(self.events[i].0, event_type) {
                proof {
                    lemma_place_is(list, wanted, i as int);
                    assert(views(self.keys@)[i as int] == self.keys@[i as int]@);
                }
                return self.keys[i].as_str();
            }
        }
        proof {
            let k = choose|k: int| 0 <= k < list.len() && list[k].0 == event_type@;
            assert(!wanted(list[k]));
            assert(false);
        }
        ""
    }

    /// The key of a projector's entity.
    fn entity(&self, projector: &str, name: &str) -> (r: &str)
        requires
            self.well_formed(),
            exists|i: int|
                0 <= i < self.entity_list().len() && (#[trigger] self.entity_list()[i]).0 == projector@
                    && self.entity_list()[i].1.name@ == name@,
        ensures
            r@ == entity_key(self.event_list(), self.entity_list(), projector@, name@),
    {
        let ghost list = self.entity_list();
        let ghost wanted = |entity: (Seq<char>, EntityDef)|
            entity.0 == projector@ && entity.1.name@ == name@;
        let mut i: usize = self.entities.len();
        while i > 0
            invariant
                i <= self.entities.len(),
                list == named_views(self.entities@),
                wanted == (|entity: (Seq<char>, EntityDef)|
                    entity.0 == projector@ && entity.1.name@ == name@),
                self.well_formed(),
                list == self.entity_list(),
                forall|k: int| i <= k < list.len() ==> !wanted(#[trigger] list[k]),
                exists|k: int|
                    0 <= k < list.len() && (#[trigger] list[k]).0 == projector@ && list[k].1.name@
                        == name@,
            decreases i,
        {
            i -= 1;
            assert(list[i as int] == (self.entities@[i as int].0@, *self.entities@[i as int].1));
            if same(self.entities[i].0, projector) && same(&self.entities[i].1.name, name) {
                proof {
                    lemma_place_is(list, wanted, i as int);
                    assert(views(self.keys@)[self.events.len() + i] == self.keys@[self.events.len()
                        + i]@);
                }
                return self.keys[self.events.len() + i].as_str();
            }
        }
        proof {
            let k = choose|k: int|
                0 <= k < list.len() && (#[trigger] list[k]).0 == projector@ && list[k].1.name@
                    == name@;
            assert(!wanted(list[k]));
            assert(false);
        }
        ""
    }
}

/// No two components share a key, and none has the name of a schema that is always
/// present.
pub proof fn law_component_keys_are_unique(
    events: Seq<(Seq<char>, EventDef)>,
    entities: Seq<(Seq<char>, EntityDef)>,
)
    ensures
        component_keys(events, entities).len() == events.len() + entities.len(),
        component_keys(events, entities).no_duplicates(),
        forall|i: int|
            0 <= i < events.len() + entities.len() ==> !fixed_schemas().contains(
                #[trigger] component_keys(events, entities)[i],
            ),
{
    law_claims_are_unique(fixed_schemas(), component_candidates(events, entities));
}

/// What the document calls the events of a surface.
pub open spec fn event_types(events: Seq<(Seq<char>, EventDef)>) -> Seq<Seq<char>> {
    events.map_values(|event: (Seq<char>, EventDef)| event.0)
}

/// The schemas that are always present.
pub open spec fn fixed_components(types: Seq<Seq<char>>) -> JsonView {
    JsonView::object().with("ErrorDetail"@, error_detail_schema_view()).with(
        "Error"@,
        error_schema_view(),
    ).with("CommandError"@, command_error_schema_view()).with(
        "CommandAccepted"@,
        command_accepted_schema_view(),
    ).with("EmittedEvent"@, emitted_event_schema_view(types)).with(
        "Status"@,
        status_schema_view(),
    ).with("ProjectorStatus"@, projector_status_schema_view()).with(
        "EffectStatus"@,
        effect_status_schema_view(),
    )
}

/// The components with the schemas of the first events.
pub open spec fn event_components(
    events: Seq<(Seq<char>, EventDef)>,
    entities: Seq<(Seq<char>, EntityDef)>,
    upto: nat,
) -> JsonView
    decreases upto,
{
    if upto == 0 {
        fixed_components(event_types(events))
    } else {
        let event = events[upto - 1];
        event_components(events, entities, (upto - 1) as nat).with(
            event_key(events, entities, event.0),
            event_schema_view(event.0, event.1),
        )
    }
}

/// The components with the schemas of all events and of the first entities.
pub open spec fn entity_components(
    events: Seq<(Seq<char>, EventDef)>,
    entities: Seq<(Seq<char>, EntityDef)>,
    upto: nat,
) -> JsonView
    decreases upto,
{
    if upto == 0 {
        event_components(events, entities, events.len())
    } else {
        let entity = entities[upto - 1];
        entity_components(events, entities, (upto - 1) as nat).with(
            entity_key(events, entities, entity.0, entity.1.name@),
            entity_schema_view(entity.0, entity.1),
        )
    }
}

/// The schemas of the document.
pub open spec fn components(
    events: Seq<(Seq<char>, EventDef)>,
    entities: Seq<(Seq<char>, EntityDef)>,
) -> JsonView {
    entity_components(events, entities, entities.len())
}

/// The keys of events and entities that are each named once are theirs in order.
proof fn lemma_keys_in_order(
    events: Seq<(Seq<char>, EventDef)>,
    entities: Seq<(Seq<char>, EntityDef)>,
)
    requires
        named_once(events, entities),
    ensures
        forall|i: int|
            0 <= i < events.len() ==> event_key(events, entities, (#[trigger] events[i]).0)
                == component_keys(events, entities)[i],
        forall|i: int|
            0 <= i < entities.len() ==> entity_key(
                events,
                entities,
                (#[trigger] entities[i]).0,
                entities[i].1.name@,
            ) == component_keys(events, entities)[events.len() + i],
{
    assert forall|i: int| 0 <= i < events.len() implies event_key(
        events,
        entities,
        (#[trigger] events[i]).0,
    ) == component_keys(events, entities)[i] by {
        lemma_place_is(events, |event: (Seq<char>, EventDef)| event.0 == events[i].0, i);
    }
    assert forall|i: int| 0 <= i < entities.len() implies entity_key(
        events,
        entities,
        (#[trigger] entities[i]).0,
        entities[i].1.name@,
    ) == component_keys(events, entities)[events.len() + i] by {
        lemma_place_is(
            entities,
            |entity: (Seq<char>, EntityDef)|
                entity.0 == entities[i].0 && entity.1.name@ == entities[i].1.name@,
            i,
        );
    }
}

proof fn lemma_event_components(
    events: Seq<(Seq<char>, EventDef)>,
    entities: Seq<(Seq<char>, EntityDef)>,
    upto: nat,
)
    requires
        named_once(events, entities),
        upto <= events.len(),
    ensures
        event_components(events, entities, upto) is Object,
        forall|k: int|
            0 <= k < fixed_schemas().len() ==> event_components(events, entities, upto).member(
                #[trigger] fixed_schemas()[k],
            ) is Some,
        forall|i: int|
            0 <= i < upto ==> event_components(events, entities, upto).member(
                #[trigger] component_keys(events, entities)[i],
            ) == Some(event_schema_view(events[i].0, events[i].1)),
    decreases upto,
{
    law_component_keys_are_unique(events, entities);
    lemma_keys_in_order(events, entities);
    if upto > 0 {
        lemma_event_components(events, entities, (upto - 1) as nat);
        let event = events[upto - 1];
        assert(event_key(events, entities, event.0) == component_keys(events, entities)[upto - 1]);
    }
}

proof fn lemma_entity_components(
    events: Seq<(Seq<char>, EventDef)>,
    entities: Seq<(Seq<char>, EntityDef)>,
    upto: nat,
)
    requires
        named_once(events, entities),
        upto <= entities.len(),
    ensures
        entity_components(events, entities, upto) is Object,
        forall|k: int|
            0 <= k < fixed_schemas().len() ==> entity_components(events, entities, upto).member(
                #[trigger] fixed_schemas()[k],
            ) is Some,
        forall|i: int|
            0 <= i < events.len() ==> entity_components(events, entities, upto).member(
                #[trigger] component_keys(events, entities)[i],
            ) == Some(event_schema_view(events[i].0, events[i].1)),
        forall|i: int|
            events.len() <= i < events.len() + upto ==> entity_components(
                events,
                entities,
                upto,
            ).member(#[trigger] component_keys(events, entities)[i]) == Some(
                entity_schema_view(
                    entities[i - events.len()].0,
                    entities[i - events.len()].1,
                ),
            ),
    decreases upto,
{
    law_component_keys_are_unique(events, entities);
    lemma_keys_in_order(events, entities);
    if upto == 0 {
        lemma_event_components(events, entities, events.len());
    } else {
        lemma_entity_components(events, entities, (upto - 1) as nat);
        let entity = entities[upto - 1];
        assert(entity_key(events, entities, entity.0, entity.1.name@) == component_keys(
            events,
            entities,
        )[events.len() + upto - 1]);
    }
}

/// Whether no event type, and no projector's entity, is declared twice.
pub open spec fn named_once(
    events: Seq<(Seq<char>, EventDef)>,
    entities: Seq<(Seq<char>, EntityDef)>,
) -> bool {
    &&& forall|i: int, j: int|
        0 <= i < j < events.len() ==> (#[trigger] events[i]).0 != (#[trigger] events[j]).0
    &&& forall|i: int, j: int|
        0 <= i < j < entities.len() ==> (#[trigger] entities[i]).0 != (#[trigger] entities[j]).0
            || entities[i].1.name@ != entities[j].1.name@
}

/// Every event and every entity has a schema of its own, under the key that references to
/// it name, and the schemas that are always present are there, whatever the events and
/// entities are called.
pub proof fn law_every_component_has_its_schema(
    events: Seq<(Seq<char>, EventDef)>,
    entities: Seq<(Seq<char>, EntityDef)>,
)
    requires
        named_once(events, entities),
    ensures
        forall|k: int|
            0 <= k < fixed_schemas().len() ==> components(events, entities).member(
                #[trigger] fixed_schemas()[k],
            ) is Some,
        forall|i: int|
            0 <= i < events.len() ==> components(events, entities).member(
                event_key(events, entities, (#[trigger] events[i]).0),
            ) == Some(event_schema_view(events[i].0, events[i].1)),
        forall|i: int|
            0 <= i < entities.len() ==> components(events, entities).member(
                entity_key(events, entities, (#[trigger] entities[i]).0, entities[i].1.name@),
            ) == Some(entity_schema_view(entities[i].0, entities[i].1)),
{
    lemma_entity_components(events, entities, entities.len());
    lemma_keys_in_order(events, entities);
    let keys = component_keys(events, entities);
    assert forall|i: int| 0 <= i < entities.len() implies components(events, entities).member(
        entity_key(events, entities, (#[trigger] entities[i]).0, entities[i].1.name@),
    ) == Some(entity_schema_view(entities[i].0, entities[i].1)) by {
        assert(keys[events.len() + i] == entity_key(
            events,
            entities,
            entities[i].0,
            entities[i].1.name@,
        ));
    }
    assert forall|i: int| 0 <= i < events.len() implies components(events, entities).member(
        event_key(events, entities, (#[trigger] events[i]).0),
    ) == Some(event_schema_view(events[i].0, events[i].1)) by {
        assert(keys[i] == event_key(events, entities, events[i].0));
    }
}

/// Whether what a surface holds can be described: what entities can be filtered by is
/// declared, and no field is wrapped in more than one `Optional`.
pub open spec fn describable(surface: Surface) -> bool {
    &&& forall|i: int|
        0 <= i < surface.commands.len() ==> flat_inputs(*(#[trigger] surface.commands@[i]).1)
    &&& forall|i: int|
        0 <= i < surface.events.len() ==> flat_fields((#[trigger] surface.events@[i]).1.fields@)
    &&& forall|i: int, j: int|
        0 <= i < surface.projectors.len() && 0 <= j < surface.projectors@[i].entities@.len()
            ==> servable(#[trigger] surface.projectors@[i].entities@[j])
}

proof fn lemma_served_servable(projectors: Seq<ProjectorSurface>)
    requires
        forall|i: int, j: int|
            0 <= i < projectors.len() && 0 <= j < projectors[i].entities@.len() ==> servable(
                #[trigger] projectors[i].entities@[j],
            ),
    ensures
        forall|k: int|
            0 <= k < served(projectors).len() ==> servable((#[trigger] served(projectors)[k]).1),
    decreases projectors.len(),
{
    if projectors.len() > 0 {
        let rest = projectors.drop_last();
        assert forall|i: int, j: int|
            0 <= i < rest.len() && 0 <= j < rest[i].entities@.len() implies servable(
            #[trigger] rest[i].entities@[j],
        ) by {
            assert(servable(projectors[i].entities@[j]));
        }
        lemma_served_servable(rest);
        let before = served(rest).len();
        assert forall|k: int| 0 <= k < served(projectors).len() implies servable(
            (#[trigger] served(projectors)[k]).1,
        ) by {
            if k < before {
                assert(served(projectors)[k] == served(rest)[k]);
            } else {
                assert(served(projectors)[k].1 == projectors[projectors.len() - 1].entities@[k
                    - before]);
            }
        }
    }
}

fn types_of(events: &Vec<(&str, &EventDef)>) -> (r: Vec<String>)
    ensures
        views(r@) == event_types(named_views(events@)),
{
    let ghost all = event_types(named_views(events@));
    let mut out: Vec<String> = Vec::new();
    let mut i: usize = 0;
    assert(views(out@) =~= all.take(0));
    while i < events.len()
        invariant
            i <= events.len(),
            all == event_types(named_views(events@)),
            views(out@) == all.take(i as int),
        decreases events.len() - i,
    {
        let ghost had = views(out@);
        out.push(events[i].0.to_owned());
        assert(views(out@) =~= had.push(events@[i as int].0@));
        assert(views(out@) =~= all.take(i as int + 1));
        i += 1;
    }
    assert(all.take(i as int) =~= all);
    out
}

/// The schemas of the document.
fn schemas(names: &ComponentNames) -> (r: Json)
    requires
        names.well_formed(),
        forall|i: int| 0 <= i < names.events.len() ==> flat_fields((#[trigger] names.events@[i]).1.fields@),
        forall|i: int|
            0 <= i < names.entity_list().len() ==> servable((#[trigger] names.entity_list()[i]).1),
    ensures
        r@ == components(names.event_list(), names.entity_list()),
{
    let ghost events = names.event_list();
    let ghost entities = names.entity_list();
    let mut out = Json::object().with("ErrorDetail", error_detail_schema()).with(
        "Error",
        error_schema(),
    ).with("CommandError", command_error_schema()).with(
        "CommandAccepted",
        command_accepted_schema(),
    ).with("EmittedEvent", emitted_event_schema(&types_of(&names.events))).with(
        "Status",
        status_schema(),
    ).with("ProjectorStatus", projector_status_schema()).with(
        "EffectStatus",
        effect_status_schema(),
    );
    let mut i: usize = 0;
    while i < names.events.len()
        invariant
            i <= names.events.len(),
            names.well_formed(),
            events == names.event_list(),
            entities == names.entity_list(),
            forall|i: int|
                0 <= i < names.events.len() ==> flat_fields((#[trigger] names.events@[i]).1.fields@),
            out@ == event_components(events, entities, i as nat),
        decreases names.events.len() - i,
    {
        let (event_type, def) = names.events[i];
        assert(events[i as int] == (event_type@, *def));
        assert(flat_fields(names.events@[i as int].1.fields@));
        out = out.with(names.event(event_type), event_schema(event_type, def));
        i += 1;
    }
    assert(events.len() == i);
    let mut j: usize = 0;
    while j < names.entities.len()
        invariant
            j <= names.entities.len(),
            names.well_formed(),
            events == names.event_list(),
            entities == names.entity_list(),
            forall|i: int| 0 <= i < entities.len() ==> servable((#[trigger] entities[i]).1),
            out@ == entity_components(events, entities, j as nat),
        decreases names.entities.len() - j,
    {
        let (projector, entity) = names.entities[j];
        assert(entities[j as int] == (projector@, *entity));
        out = out.with(names.entity(projector, &entity.name), entity_schema(projector, entity));
        j += 1;
    }
    assert(entities.len() == j);
    out
}

// ---------------------------------------------------------------------------
// Tags
// ---------------------------------------------------------------------------

/// Texts in backticks, with commas between them.
pub open spec fn backticked_view(items: Seq<Seq<char>>) -> Seq<char> {
    "`"@ + joined(items, "`, `"@) + "`"@
}

fn backticked(items: &Vec<String>) -> (r: String)
    ensures
        r@ == backticked_view(views(items@)),
{
    join3("`", &join(items, "`, `"), "`")
}

/// What a projector is built from.
pub open spec fn built_from(sources: Option<Seq<Seq<char>>>) -> Seq<char> {
    match sources {
        None => "every event"@,
        Some(types) => if types.len() == 0 {
            "no declared source"@
        } else {
            backticked_view(types)
        },
    }
}

/// What a projector materialises.
pub open spec fn materialises(entities: Seq<EntityDef>) -> Seq<char> {
    if entities.len() == 0 {
        "no entities"@
    } else {
        backticked_view(entities.map_values(|entity: EntityDef| entity.name@))
    }
}

/// What is said of a projector's read endpoints.
pub open spec fn projector_tag_view(
    name: Seq<char>,
    entities: Seq<EntityDef>,
    sources: Option<Seq<Seq<char>>>,
) -> Seq<char> {
    "The `"@ + name + "` projector's read model, built from "@ + built_from(sources)
        + " and materialising "@ + materialises(entities)
        + ". Rows are a view of the log rather than the log itself: they are eventually consistent, and every response carries the log `position` it was read at. Pass `after` for read-your-writes."@
}

/// What is said of a projector's read endpoints.
fn projector_tag_description(projector: &ProjectorSurface) -> (r: String)
    ensures
        r@ == projector_tag_view(
            projector.name@,
            projector.entities@,
            sources_view(projector.sources),
        ),
{
    let from = match &projector.sources {
        None => "every event".to_owned(),
        Some(types) => {
            if types.len() == 0 {
                "no declared source".to_owned()
            } else {
                let mut owned: Vec<String> = Vec::new();
                let mut i: usize = 0;
                assert(views(owned@) =~= str_views(types@).take(0));
                while i < types.len()
                    invariant
                        i <= types.len(),
                        views(owned@) == str_views(types@).take(i as int),
                    decreases types.len() - i,
                {
                    let ghost had = views(owned@);
                    owned.push(types[i].to_owned());
                    assert(views(owned@) =~= had.push(types@[i as int]@));
                    assert(views(owned@) =~= str_views(types@).take(i as int + 1));
                    i += 1;
                }
                assert(views(owned@) =~= str_views(types@));
                backticked(&owned)
            }
        },
    };
    let entities = projector.entities;
    let ghost named = entities@.map_values(|entity: EntityDef| entity.name@);
    let into = if entities.len() == 0 {
        "no entities".to_owned()
    } else {
        let mut owned: Vec<String> = Vec::new();
        let mut i: usize = 0;
        assert(views(owned@) =~= named.take(0));
        while i < entities.len()
            invariant
                i <= entities.len(),
                named == entities@.map_values(|entity: EntityDef| entity.name@),
                views(owned@) == named.take(i as int),
            decreases entities.len() - i,
        {
            let ghost had = views(owned@);
            owned.push(entities[i].name.clone());
            assert(views(owned@) =~= had.push(entities@[i as int].name@));
            assert(views(owned@) =~= named.take(i as int + 1));
            i += 1;
        }
        assert(views(owned@) =~= named);
        backticked(&owned)
    };
    let mut out = join5(
        "The `",
        projector.name,
        "` projector's read model, built from ",
        &from,
        " and materialising ",
    );
    out.append(&into);
    out.append(
        ". Rows are a view of the log rather than the log itself: they are eventually consistent, and every response carries the log `position` it was read at. Pass `after` for read-your-writes.",
    );
    out
}

/// A tag.
pub open spec fn tag_view(name: Seq<char>, description: Seq<char>) -> JsonView {
    JsonView::object().with("name"@, JsonView::Text(name)).with(
        "description"@,
        JsonView::Text(description),
    )
}

fn tag(name: &str, description: &str) -> (r: Json)
    ensures
        r@ == tag_view(name@, description@),
{
    Json::object().with("name", Json::text(name)).with("description", Json::text(description))
}

/// The tag of the commands, and behind it those of the first projectors.
pub open spec fn projector_tags(projectors: Seq<ProjectorSurface>) -> JsonView
    decreases projectors.len(),
{
    if projectors.len() == 0 {
        JsonView::array().item(tag_view(COMMANDS_TAG@, COMMANDS_TAG_DESCRIPTION@))
    } else {
        let last = projectors.last();
        projector_tags(projectors.drop_last()).item(
            tag_view(
                read_tag_view(last.name@),
                projector_tag_view(last.name@, last.entities@, sources_view(last.sources)),
            ),
        )
    }
}

/// The tags, in the order that a reference page should show them: commands, each
/// projector's read model, and the operator endpoints.
pub open spec fn tags_view(projectors: Seq<ProjectorSurface>) -> JsonView {
    projector_tags(projectors).item(tag_view(OPERATIONS_TAG@, OPERATIONS_TAG_DESCRIPTION@))
}

fn tags(projectors: &Vec<ProjectorSurface>) -> (r: Json)
    ensures
        r@ == tags_view(projectors@),
{
    let mut out = Json::array().item(tag(COMMANDS_TAG, COMMANDS_TAG_DESCRIPTION));
    let mut i: usize = 0;
    assert(projectors@.take(0) =~= Seq::empty());
    while i < projectors.len()
        invariant
            i <= projectors.len(),
            out@ == projector_tags(projectors@.take(i as int)),
        decreases projectors.len() - i,
    {
        assert(projectors@.take(i as int + 1).drop_last() =~= projectors@.take(i as int));
        out = out.item(
            tag(&read_tag(projectors[i].name), &projector_tag_description(&projectors[i])),
        );
        i += 1;
    }
    assert(projectors@.take(i as int) =~= projectors@);
    out.item(tag(OPERATIONS_TAG, OPERATIONS_TAG_DESCRIPTION))
}

// ---------------------------------------------------------------------------
// Paths
// ---------------------------------------------------------------------------

/// The route that rebuilds a projector.
pub const REPLAY_ROUTE: &'static str = "/projectors/{name}/replay";

/// The route that takes an effect past one event.
pub const SKIP_ROUTE: &'static str = "/effects/{name}/skip/{position}";

/// The route of the status report.
pub const STATUS_ROUTE: &'static str = "/status";

/// The route of the liveness check.
pub const HEALTH_ROUTE: &'static str = "/health";

/// The route of the document.
pub const OPENAPI_ROUTE: &'static str = "/openapi.json";

/// The route of the reference page.
pub const DOCS_ROUTE: &'static str = "/docs";

/// One route: its path, its method, the id it would have, and what is said of it.
struct Route {
    path: String,
    method: &'static str,
    id: String,
    body: Json,
}

/// One route: its path, its method, the id it would have, and what is said of it.
pub struct RouteView {
    pub path: Seq<char>,
    pub method: Seq<char>,
    pub id: Seq<char>,
    pub body: JsonView,
}

spec fn route_view(route: Route) -> RouteView {
    RouteView {
        path: route.path@,
        method: route.method@,
        id: route.id@,
        body: route.body@,
    }
}

spec fn route_views(routes: Seq<Route>) -> Seq<RouteView> {
    routes.map_values(|route: Route| route_view(route))
}

impl Ranked for Route {
    closed spec fn ranks_before(self, other: Route) -> bool {
        precedes(self.path@, other.path@)
    }

    fn is_before(&self, other: &Route) -> (r: bool) {
        crate::text::is_before(&self.path, &other.path)
    }
}

/// The routes of the first commands.
pub open spec fn command_routes(commands: Seq<(Seq<char>, InputSchema)>) -> Seq<RouteView> {
    commands.map_values(
        |command: (Seq<char>, InputSchema)|
            RouteView {
                path: "/commands/"@ + command.0,
                method: "post"@,
                id: "execute_"@ + identifier_view(command.0),
                body: command_path_view(command.0, command.1),
            },
    )
}

/// The routes of the first entities: a scan and a read by key for each.
pub open spec fn read_routes(
    events: Seq<(Seq<char>, EventDef)>,
    entities: Seq<(Seq<char>, EntityDef)>,
    wait: Wait,
    upto: nat,
) -> Seq<RouteView>
    decreases upto,
{
    if upto == 0 {
        Seq::empty()
    } else {
        let (projector, entity) = entities[upto - 1];
        let key = entity_key(events, entities, projector, entity.name@);
        read_routes(events, entities, wait, (upto - 1) as nat).push(
            RouteView {
                path: "/read/"@ + projector + "/"@ + entity.name@,
                method: "get"@,
                id: operation_id_view("scan"@, projector, entity.name@),
                body: scan_path_view(projector, entity, key, wait),
            },
        ).push(
            RouteView {
                path: "/read/"@ + projector + "/"@ + entity.name@ + "/{key}"@,
                method: "get"@,
                id: operation_id_view("read"@, projector, entity.name@),
                body: get_one_path_view(projector, entity, key, wait),
            },
        )
    }
}

/// The operator routes.
pub open spec fn operation_routes(projectors: Seq<Seq<char>>, effects: Seq<Seq<char>>) -> Seq<RouteView> {
    seq![
        RouteView {
            path: REPLAY_ROUTE@,
            method: "post"@,
            id: "replay_projector"@,
            body: replay_path_view(projectors),
        },
        RouteView {
            path: SKIP_ROUTE@,
            method: "post"@,
            id: "skip_effect_position"@,
            body: skip_path_view(effects),
        },
        RouteView {
            path: STATUS_ROUTE@,
            method: "get"@,
            id: "get_status"@,
            body: status_path_view(),
        },
        RouteView {
            path: HEALTH_ROUTE@,
            method: "get"@,
            id: "get_health"@,
            body: health_path_view(),
        },
        RouteView {
            path: OPENAPI_ROUTE@,
            method: "get"@,
            id: "get_openapi"@,
            body: openapi_path_view(),
        },
        RouteView {
            path: DOCS_ROUTE@,
            method: "get"@,
            id: "get_docs"@,
            body: docs_path_view(),
        },
    ]
}

/// The names of the projectors of a surface.
pub open spec fn projector_names_view(projectors: Seq<ProjectorSurface>) -> Seq<Seq<char>> {
    projectors.map_values(|projector: ProjectorSurface| projector.name@)
}

/// The names of the effects of a surface.
pub open spec fn effect_names_view(effects: Seq<EffectSurface>) -> Seq<Seq<char>> {
    effects.map_values(|effect: EffectSurface| effect.name@)
}

/// Every route of a surface, in the order they are declared.
pub open spec fn routes(surface: Surface, wait: Wait) -> Seq<RouteView> {
    let events = named_views(surface.events@);
    let entities = served(surface.projectors@);
    command_routes(named_views(surface.commands@)) + read_routes(
        events,
        entities,
        wait,
        entities.len(),
    ) + operation_routes(
        projector_names_view(surface.projectors@),
        effect_names_view(surface.effects@),
    )
}

/// The last route of each path, from the back.
pub open spec fn last_of_each(routes: Seq<RouteView>) -> Seq<RouteView>
    decreases routes.len(),
{
    if routes.len() == 0 {
        routes
    } else {
        let later = last_of_each(routes.skip(1));
        if exists|i: int| 0 <= i < later.len() && (#[trigger] later[i]).path == routes[0].path {
            later
        } else {
            later.push(routes[0])
        }
    }
}

/// The order of routes by their paths.
pub open spec fn by_path() -> spec_fn(RouteView, RouteView) -> bool {
    |a: RouteView, b: RouteView| precedes(a.path, b.path)
}

/// The routes as the document lists them: each path once, in order.
pub open spec fn listed(routes: Seq<RouteView>) -> Seq<RouteView> {
    sorted(last_of_each(routes), by_path())
}

/// The id of each listed route.
pub open spec fn operation_ids(listed: Seq<RouteView>) -> Seq<Seq<char>> {
    claims(Seq::empty(), listed.map_values(|route: RouteView| route.id))
}

/// The first routes of a list under their paths.
pub open spec fn path_items(listed: Seq<RouteView>, ids: Seq<Seq<char>>, upto: nat) -> JsonView
    decreases upto,
{
    if upto == 0 {
        JsonView::object()
    } else {
        let route = listed[upto - 1];
        path_items(listed, ids, (upto - 1) as nat).with(
            route.path,
            JsonView::object().with(
                route.method,
                route.body.with("operationId"@, JsonView::Text(ids[upto - 1])),
            ),
        )
    }
}

/// The paths of the document.
pub open spec fn paths_view(routes: Seq<RouteView>) -> JsonView {
    let list = listed(routes);
    path_items(list, operation_ids(list), list.len())
}

/// No two operations share an id: a client generator names its functions after them.
pub proof fn law_operation_ids_are_unique(routes: Seq<RouteView>)
    ensures
        operation_ids(listed(routes)).len() == listed(routes).len(),
        operation_ids(listed(routes)).no_duplicates(),
{
    law_claims_are_unique(
        Seq::empty(),
        listed(routes).map_values(|route: RouteView| route.id),
    );
}

proof fn lemma_last_of_each(routes: Seq<RouteView>, at: int)
    requires
        0 <= at < routes.len(),
    ensures
        exists|k: int|
            0 <= k < last_of_each(routes).len() && (#[trigger] last_of_each(routes)[k]).path
                == routes[at].path,
    decreases routes.len(),
{
    let later = last_of_each(routes.skip(1));
    if at > 0 {
        lemma_last_of_each(routes.skip(1), at - 1);
        let k = choose|k: int|
            0 <= k < later.len() && (#[trigger] later[k]).path == routes.skip(1)[at - 1].path;
        assert(last_of_each(routes)[k] == later[k]);
    } else if !(exists|i: int| 0 <= i < later.len() && (#[trigger] later[i]).path == routes[0].path) {
        assert(last_of_each(routes)[later.len() as int].path == routes[0].path);
    } else {
        let k = choose|k: int| 0 <= k < later.len() && (#[trigger] later[k]).path == routes[0].path;
        assert(last_of_each(routes)[k].path == routes[0].path);
    }
}

proof fn lemma_path_items(list: Seq<RouteView>, ids: Seq<Seq<char>>, upto: nat)
    requires
        upto <= list.len(),
    ensures
        path_items(list, ids, upto) is Object,
        forall|i: int|
            0 <= i < upto ==> path_items(list, ids, upto).member((#[trigger] list[i]).path) is Some,
    decreases upto,
{
    if upto > 0 {
        lemma_path_items(list, ids, (upto - 1) as nat);
    }
}

/// Every route is described under its path.
pub proof fn law_every_route_is_described(routes: Seq<RouteView>, at: int)
    requires
        0 <= at < routes.len(),
    ensures
        paths_view(routes).member(routes[at].path) is Some,
{
    lemma_last_of_each(routes, at);
    let last = last_of_each(routes);
    let k = choose|k: int| 0 <= k < last.len() && (#[trigger] last[k]).path == routes[at].path;
    lemma_sorted_contains(last, by_path(), last[k]);
    let list = listed(routes);
    assert(last.contains(last[k]));
    let i = choose|i: int| 0 <= i < list.len() && list[i] == last[k];
    lemma_path_items(list, operation_ids(list), list.len());
    assert(list[i].path == routes[at].path);
}

fn has_path(routes: &Vec<Route>, path: &str) -> (r: bool)
    ensures
        r == exists|i: int|
            0 <= i < route_views(routes@).len() && (#[trigger] route_views(routes@)[i]).path == path@,
{
    let mut i: usize = 0;
    while i < routes.len()
        invariant
            i <= routes.len(),
            forall|k: int| 0 <= k < i ==> (#[trigger] route_views(routes@)[k]).path != path@,
        decreases routes.len() - i,
    {
        assert(route_views(routes@)[i as int] == route_view(routes@[i as int]));
        if same(&routes[i].path, path) {
            return true;
        }
        i += 1;
    }
    false
}

/// The routes as the document lists them.
fn list_routes(routes: Vec<Route>) -> (r: Vec<Route>)
    ensures
        route_views(r@) == listed(route_views(routes@)),
{
    let ghost all = route_views(routes@);
    let mut rest = routes;
    let mut kept: Vec<Route> = Vec::new();
    assert(all.skip(all.len() as int) =~= Seq::empty());
    assert(route_views(kept@) =~= Seq::empty());
    assert(all.take(all.len() as int) =~= all);
    while rest.len() > 0
        invariant
            rest.len() <= all.len(),
            route_views(rest@) == all.take(rest.len() as int),
            route_views(kept@) == last_of_each(all.skip(rest.len() as int)),
        decreases rest.len(),
    {
        let ghost was = rest@;
        let ghost had = route_views(kept@);
        let route = rest.pop().unwrap();
        let ghost at = rest.len() as int;
        proof {
            assert(route_views(rest@) =~= route_views(was).drop_last());
            assert(route_views(rest@) =~= all.take(at));
            assert(route_views(was)[at] == route_view(route));
            assert(all.take(at + 1)[at] == route_view(route));
            assert(all.skip(at)[0] == route_view(route));
            assert(all.skip(at).skip(1) =~= all.skip(at + 1));
        }
        if !has_path(&kept, &route.path) {
            kept.push(route);
            assert(route_views(kept@) =~= had.push(route_view(route)));
        }
    }
    assert(all.skip(0) =~= all);
    proof {
        lemma_sorted_map(
            kept@,
            |route: Route| route_view(route),
            |a: Route, b: Route| a.ranks_before(b),
            by_path(),
        );
    }
    sort(kept)
}

/// The paths of the document, each operation under an id of its own. Names that differ in
/// nothing an identifier can hold fold into one id, so the second and later claimants get
/// a number; routes are in order of path, so who keeps the bare id is stable.
fn document_paths(routes: Vec<Route>) -> (r: Json)
    ensures
        r@ == paths_view(route_views(routes@)),
{
    let list = list_routes(routes);
    let ghost all = route_views(list@);
    let ghost candidates = all.map_values(|route: RouteView| route.id);
    let ghost ids = operation_ids(all);
    let mut seen: Vec<String> = Vec::new();
    let mut out = Json::object();
    let mut i: usize = 0;
    proof {
        law_claims_are_unique(Seq::empty(), candidates);
        assert(candidates.take(0) =~= Seq::empty());
        assert(views(seen@) =~= Seq::empty());
    }
    while i < list.len()
        invariant
            i <= list.len(),
            all == route_views(list@),
            candidates == all.map_values(|route: RouteView| route.id),
            ids == claims(Seq::empty(), candidates),
            ids.len() == list.len(),
            views(seen@) == claims(Seq::empty(), candidates.take(i as int)),
            out@ == path_items(all, ids, i as nat),
        decreases list.len() - i,
    {
        let route = &list[i];
        assert(all[i as int] == route_view(*route));
        assert(candidates.take(i as int + 1).drop_last() =~= candidates.take(i as int));
        assert(Seq::<Seq<char>>::empty() + views(seen@) =~= views(seen@));
        let id = claim(&mut seen, &route.id);
        proof {
            lemma_claims_prefix(Seq::empty(), candidates, i as int + 1);
            law_claims_are_unique(Seq::empty(), candidates.take(i as int));
            assert(claims(Seq::empty(), candidates.take(i as int + 1))[i as int] == id@);
            assert(ids.take(i as int + 1)[i as int] == ids[i as int]);
        }
        out = out.with(
            &route.path,
            Json::object().with(
                route.method,
                route.body.copy().with("operationId", Json::Text(id)),
            ),
        );
        i += 1;
    }
    out
}

/// What the first candidates are called does not depend on the later ones.
proof fn lemma_claims_prefix(taken: Seq<Seq<char>>, candidates: Seq<Seq<char>>, upto: int)
    requires
        0 <= upto <= candidates.len(),
    ensures
        claims(taken, candidates.take(upto)) == claims(taken, candidates).take(upto),
    decreases candidates.len(),
{
    law_claims_are_unique(taken, candidates);
    if upto == candidates.len() {
        assert(candidates.take(upto) =~= candidates);
        assert(claims(taken, candidates).take(upto) =~= claims(taken, candidates));
    } else {
        let rest = candidates.drop_last();
        lemma_claims_prefix(taken, rest, upto);
        law_claims_are_unique(taken, rest);
        assert(rest.take(upto) =~= candidates.take(upto));
        assert(claims(taken, candidates).take(upto) =~= claims(taken, rest).take(upto));
    }
}

impl<'a> Surface<'a> {
    fn projector_names(&self) -> (r: Vec<String>)
        ensures
            views(r@) == projector_names_view(self.projectors@),
    {
        let ghost all = projector_names_view(self.projectors@);
        let mut out: Vec<String> = Vec::new();
        let mut i: usize = 0;
        assert(views(out@) =~= all.take(0));
        while i < self.projectors.len()
            invariant
                i <= self.projectors.len(),
                all == projector_names_view(self.projectors@),
                views(out@) == all.take(i as int),
            decreases self.projectors.len() - i,
        {
            let ghost had = views(out@);
            out.push(self.projectors[i].name.to_owned());
            assert(views(out@) =~= had.push(self.projectors@[i as int].name@));
            assert(views(out@) =~= all.take(i as int + 1));
            i += 1;
        }
        assert(views(out@) =~= all);
        out
    }

    fn effect_names(&self) -> (r: Vec<String>)
        ensures
            views(r@) == effect_names_view(self.effects@),
    {
        let ghost all = effect_names_view(self.effects@);
        let mut out: Vec<String> = Vec::new();
        let mut i: usize = 0;
        assert(views(out@) =~= all.take(0));
        while i < self.effects.len()
            invariant
                i <= self.effects.len(),
                all == effect_names_view(self.effects@),
                views(out@) == all.take(i as int),
            decreases self.effects.len() - i,
        {
            let ghost had = views(out@);
            out.push(self.effects[i].name.to_owned());
            assert(views(out@) =~= had.push(self.effects@[i as int].name@));
            assert(views(out@) =~= all.take(i as int + 1));
            i += 1;
        }
        assert(views(out@) =~= all);
        out
    }
}

/// A list of routes with one more.
proof fn lemma_route_push(routes: Seq<Route>, route: Route)
    ensures
        route_views(routes.push(route)) == route_views(routes).push(route_view(route)),
{
    assert(route_views(routes.push(route)) =~= route_views(routes).push(route_view(route)));
}

/// A list of routes with the operator routes behind it.
fn operation_paths(surface: &Surface, before: Vec<Route>) -> (r: Vec<Route>)
    ensures
        route_views(r@) == route_views(before@) + operation_routes(
            projector_names_view(surface.projectors@),
            effect_names_view(surface.effects@),
        ),
{
    let ghost had = route_views(before@);
    let mut out = before;
    out.push(
        Route {
            path: REPLAY_ROUTE.to_owned(),
            method: "post",
            id: "replay_projector".to_owned(),
            body: replay_path(&surface.projector_names()),
        },
    );
    out.push(
        Route {
            path: SKIP_ROUTE.to_owned(),
            method: "post",
            id: "skip_effect_position".to_owned(),
            body: skip_path(&surface.effect_names()),
        },
    );
    out.push(
        Route {
            path: STATUS_ROUTE.to_owned(),
            method: "get",
            id: "get_status".to_owned(),
            body: status_path(),
        },
    );
    out.push(
        Route {
            path: HEALTH_ROUTE.to_owned(),
            method: "get",
            id: "get_health".to_owned(),
            body: health_path(),
        },
    );
    out.push(
        Route {
            path: OPENAPI_ROUTE.to_owned(),
            method: "get",
            id: "get_openapi".to_owned(),
            body: openapi_path(),
        },
    );
    out.push(
        Route {
            path: DOCS_ROUTE.to_owned(),
            method: "get",
            id: "get_docs".to_owned(),
            body: docs_path(),
        },
    );
    assert(route_views(out@) =~= had + operation_routes(
        projector_names_view(surface.projectors@),
        effect_names_view(surface.effects@),
    ));
    out
}

/// Every route of a surface, in the order they are declared.
fn all_routes(surface: &Surface, names: &ComponentNames, wait: &Wait) -> (r: Vec<Route>)
    requires
        describable(*surface),
        names.well_formed(),
        names.event_list() == named_views(surface.events@),
        names.entity_list() == served(surface.projectors@),
    ensures
        route_views(r@) == routes(*surface, *wait),
{
    let ghost commands = command_routes(named_views(surface.commands@));
    let mut out: Vec<Route> = Vec::new();
    let mut i: usize = 0;
    assert(route_views(out@) =~= commands.take(0));
    while i < surface.commands.len()
        invariant
            i <= surface.commands.len(),
            describable(*surface),
            commands == command_routes(named_views(surface.commands@)),
            route_views(out@) == commands.take(i as int),
        decreases surface.commands.len() - i,
    {
        let (name, schema) = surface.commands[i];
        assert(flat_inputs(*surface.commands@[i as int].1));
        assert(named_views(surface.commands@)[i as int] == (name@, *schema));
        let route = Route {
            path: join2("/commands/", name),
            method: "post",
            id: join2("execute_", &identifier(name)),
            body: command_path(name, schema),
        };
        proof {
            lemma_route_push(out@, route);
            assert(commands.take(i as int + 1) =~= commands.take(i as int).push(route_view(route)));
        }
        out.push(route);
        i += 1;
    }
    assert(commands.take(i as int) =~= commands);
    let ghost events = names.event_list();
    let ghost entities = names.entity_list();
    proof {
        lemma_served_servable(surface.projectors@);
        assert(commands + read_routes(events, entities, *wait, 0) =~= commands);
    }
    let mut j: usize = 0;
    while j < names.entities.len()
        invariant
            j <= names.entities.len(),
            names.well_formed(),
            events == names.event_list(),
            entities == names.entity_list(),
            forall|i: int| 0 <= i < entities.len() ==> servable((#[trigger] entities[i]).1),
            route_views(out@) == commands + read_routes(events, entities, *wait, j as nat),
        decreases names.entities.len() - j,
    {
        let (projector, entity) = names.entities[j];
        assert(entities[j as int] == (projector@, *entity));
        let key = names.entity(projector, &entity.name);
        let scan = Route {
            path: join4("/read/", projector, "/", &entity.name),
            method: "get",
            id: operation_id("scan", projector, &entity.name),
            body: scan_path(projector, entity, key, wait),
        };
        let one = Route {
            path: join5("/read/", projector, "/", &entity.name, "/{key}"),
            method: "get",
            id: operation_id("read", projector, &entity.name),
            body: get_one_path(projector, entity, key, wait),
        };
        proof {
            lemma_route_push(out@, scan);
            lemma_route_push(out@.push(scan), one);
            let earlier = read_routes(events, entities, *wait, j as nat);
            assert((commands + earlier).push(route_view(scan)).push(route_view(one)) =~= commands
                + earlier.push(route_view(scan)).push(route_view(one)));
        }
        out.push(scan);
        out.push(one);
        j += 1;
    }
    operation_paths(surface, out)
}

// ---------------------------------------------------------------------------
// The document
// ---------------------------------------------------------------------------

/// What the document says of the server it describes.
#[derive(Debug)]
pub struct Settings {
    pub version: String,
    pub wait: Wait,
}

/// The document.
pub open spec fn document(surface: Surface, settings: Settings) -> JsonView {
    JsonView::object().with("openapi"@, JsonView::Text("3.1.0"@)).with(
        "info"@,
        JsonView::object().with("title"@, JsonView::Text("hekla"@)).with(
            "version"@,
            JsonView::Text(settings.version@),
        ).with("description"@, JsonView::Text(INFO_DESCRIPTION@)),
    ).with("tags"@, tags_view(surface.projectors@)).with(
        "paths"@,
        paths_view(routes(surface, settings.wait)),
    ).with(
        "components"@,
        JsonView::object().with(
            "schemas"@,
            components(named_views(surface.events@), served(surface.projectors@)),
        ),
    )
}

/// The document of a surface.
pub fn build(surface: &Surface, settings: &Settings) -> (r: Json)
    requires
        describable(*surface),
    ensures
        r@ == document(*surface, *settings),
{
    // Assigned before anything refers to a component: a reference has to name the key that
    // its schema is finally stored under.
    let names = ComponentNames::assign(surface);
    let routes = all_routes(surface, &names, &settings.wait);
    proof {
        lemma_served_servable(surface.projectors@);
        assert forall|i: int| 0 <= i < names.events.len() implies flat_fields(
            (#[trigger] names.events@[i]).1.fields@,
        ) by {
            assert(names.event_list()[i].1 == *names.events@[i].1);
            assert(named_views(surface.events@)[i].1 == *surface.events@[i].1);
            assert(flat_fields(surface.events@[i].1.fields@));
        }
    }
    Json::object().with("openapi", Json::text("3.1.0")).with(
        "info",
        Json::object().with("title", Json::text("hekla")).with(
            "version",
            Json::text(&settings.version),
        ).with("description", Json::text(INFO_DESCRIPTION)),
    ).with("tags", tags(&surface.projectors)).with("paths", document_paths(routes)).with(
        "components",
        Json::object().with("schemas", schemas(&names)),
    )
}

/// Whether an entity can be described.
fn is_servable(entity: &EntityDef) -> (r: bool)
    ensures
        r == servable(*entity),
{
    if !is_usable(entity) {
        assert(filterable(*entity)[0] == entity.key@);
        return false;
    }
    let fields = filterable_fields(entity);
    let ghost all = filterable(*entity);
    let mut i: usize = 0;
    while i < fields.len()
        invariant
            i <= fields.len(),
            all == filterable(*entity),
            all == views(fields@),
            forall|k: int| 0 <= k < i ==> field_named(entity.fields@, #[trigger] all[k]) is Some,
        decreases fields.len() - i,
    {
        assert(all[i as int] == fields@[i as int]@);
        if find_field(&entity.fields, &fields[i]).is_none() {
            return false;
        }
        i += 1;
    }
    true
}

/// Whether what a surface holds can be described.
pub fn is_describable(surface: &Surface) -> (r: bool)
    ensures
        r == describable(*surface),
{
    let mut i: usize = 0;
    while i < surface.commands.len()
        invariant
            i <= surface.commands.len(),
            forall|k: int| 0 <= k < i ==> flat_inputs(*(#[trigger] surface.commands@[k]).1),
        decreases surface.commands.len() - i,
    {
        let schema = surface.commands[i].1;
        let mut j: usize = 0;
        while j < schema.fields.len()
            invariant
                j <= schema.fields.len(),
                i < surface.commands.len(),
                *schema == *surface.commands@[i as int].1,
                forall|k: int| 0 <= k < j ==> flat((#[trigger] schema.fields@[k]).1),
            decreases schema.fields.len() - j,
        {
            if !is_flat(&schema.fields[j].1) {
                assert(!flat(schema.fields@[j as int].1));
                assert(!flat_inputs(*surface.commands@[i as int].1));
                return false;
            }
            j += 1;
        }
        i += 1;
    }
    let mut e: usize = 0;
    while e < surface.events.len()
        invariant
            e <= surface.events.len(),
            forall|k: int| 0 <= k < e ==> flat_fields((#[trigger] surface.events@[k]).1.fields@),
        decreases surface.events.len() - e,
    {
        let def = surface.events[e].1;
        let mut j: usize = 0;
        while j < def.fields.len()
            invariant
                j <= def.fields.len(),
                e < surface.events.len(),
                *def == *surface.events@[e as int].1,
                forall|k: int| 0 <= k < j ==> flat((#[trigger] def.fields@[k]).1.kind),
            decreases def.fields.len() - j,
        {
            if !is_flat(&def.fields[j].1.kind) {
                assert(!flat(def.fields@[j as int].1.kind));
                assert(!flat_fields(surface.events@[e as int].1.fields@));
                return false;
            }
            j += 1;
        }
        e += 1;
    }
    let mut p: usize = 0;
    while p < surface.projectors.len()
        invariant
            p <= surface.projectors.len(),
            forall|a: int, b: int|
                0 <= a < p && 0 <= b < surface.projectors@[a].entities@.len() ==> servable(
                    #[trigger] surface.projectors@[a].entities@[b],
                ),
        decreases surface.projectors.len() - p,
    {
        let entities = surface.projectors[p].entities;
        let mut j: usize = 0;
        while j < entities.len()
            invariant
                j <= entities.len(),
                p < surface.projectors.len(),
                entities@ == surface.projectors@[p as int].entities@,
                forall|b: int| 0 <= b < j ==> servable(#[trigger] entities@[b]),
            decreases entities.len() - j,
        {
            if !is_servable(&entities[j]) {
                assert(!servable(surface.projectors@[p as int].entities@[j as int]));
                return false;
            }
            j += 1;
        }
        p += 1;
    }
    true
}

} // verus!
