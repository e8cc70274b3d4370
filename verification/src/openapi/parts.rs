//! The parts of the document that no project changes: its texts, the small builders, the
//! schemas that are always present and the operator endpoints.

use vstd::prelude::*;

use crate::json::{Json, JsonView};
use crate::order::sorted;
use crate::text::{count, holds, join2, number, same, views};

verus! {

/// The tag of the command endpoints.
pub const COMMANDS_TAG: &'static str = "commands";

/// The tag of the operator endpoints.
pub const OPERATIONS_TAG: &'static str = "operations";

/// What the document says of itself.
pub const INFO_DESCRIPTION: &'static str = "Generated from the loaded project. Every path below is a route this server serves, and every schema is derived from a declaration in the project's `.star` files.\n\nCommands append events through a consistency boundary. Read models are materialised by projectors and queried by key or by a declared index. The operator endpoints report and steer the runtime.\n\n`components/schemas/event.*` describes what the event log holds. Those are not request or response bodies: a command's 200 reports each emitted event as its type and its plaintext tags, never its fields.";

/// What the document says of commands.
pub const COMMANDS_TAG_DESCRIPTION: &'static str = "Append events through a command's consistency boundary. Each request folds the events its `query` selects, decides on that state, and appends conditionally, so a boundary that changed underneath is a 409 rather than a lost update. Internal commands (`commands/internal/`) are invokable by effects but never routed, so they are absent from this document.";

/// What the document says of the operator endpoints.
pub const OPERATIONS_TAG_DESCRIPTION: &'static str = "Operator and diagnostic endpoints. `/health` is a liveness check; `/status` reports per-module positions and lag. The replay and skip endpoints are explicit manual actions, never automatic.";

/// What the document says of a request key.
pub const IDEMPOTENCY_KEY_DESCRIPTION: &'static str = "A client-chosen key that makes this request retry-safe. Surrounding whitespace is trimmed and a blank value counts as no key. The key alone identifies the request, so reusing one replays the first outcome verbatim rather than running the new body; a different outcome needs a different key.";

/// What the document says of a correlation id.
pub const CORRELATION_ID_DESCRIPTION: &'static str = "A uuid tying this request to a trace. It is echoed in the response and carried onto every event the command appends. An absent or malformed value gets a fresh uuid rather than an error.";

/// What both read descriptions end with.
pub const READ_YOUR_WRITES: &'static str = "Pass `after` with the `positions.last` a command returned to block until this projector has caught up to that position, then serve the normal snapshot. Without it the read is served immediately and may be behind the log.";

/// When a read model cannot be served.
pub const READ_UNAVAILABLE: &'static str = "the read model cannot be served right now. `error.code` says which: `rebuilding` (the model is being rebuilt), `stale` (built from a different definition with auto-rebuild off), `rebuild_failed`, `quarantined` (it failed an invariant check and stopped advancing), or `not_caught_up` (an `after` wait timed out).";

/// A reference to a schema of the document.
pub open spec fn schema_ref_view(name: Seq<char>) -> JsonView {
    JsonView::object().with("$ref"@, JsonView::Text("#/components/schemas/"@ + name))
}

/// A reference to a schema of the document.
pub(crate) fn schema_ref(name: &str) -> (r: Json)
    ensures
        r@ == schema_ref_view(name@),
{
    Json::object().with("$ref", Json::Text(join2("#/components/schemas/", name)))
}

/// A response with a JSON body.
pub open spec fn response_view(description: Seq<char>, schema: JsonView) -> JsonView {
    JsonView::object()
        .with("description"@, JsonView::Text(description))
        .with(
            "content"@,
            JsonView::object()
                .with("application/json"@, JsonView::object().with("schema"@, schema)),
        )
}

/// A response with a JSON body.
pub(crate) fn response(description: &str, schema: Json) -> (r: Json)
    ensures
        r@ == response_view(description@, schema@),
{
    Json::object()
        .with("description", Json::text(description))
        .with(
            "content",
            Json::object()
                .with("application/json", Json::object().with("schema", schema)),
        )
}

/// A parameter of a path.
pub open spec fn path_param_view(name: Seq<char>, description: Seq<char>, schema: JsonView) -> JsonView {
    JsonView::object()
        .with("name"@, JsonView::Text(name))
        .with("in"@, JsonView::Text("path"@))
        .with("required"@, JsonView::Bool(true))
        .with("description"@, JsonView::Text(description))
        .with("schema"@, schema)
}

/// A parameter of a path.
pub(crate) fn path_param(name: &str, description: &str, schema: Json) -> (r: Json)
    ensures
        r@ == path_param_view(name@, description@, schema@),
{
    Json::object()
        .with("name", Json::text(name))
        .with("in", Json::text("path"))
        .with("required", Json::Bool(true))
        .with("description", Json::text(description))
        .with("schema", schema)
}

/// A query parameter.
pub open spec fn query_param_view(name: Seq<char>, description: Seq<char>, schema: JsonView) -> JsonView {
    JsonView::object()
        .with("name"@, JsonView::Text(name))
        .with("in"@, JsonView::Text("query"@))
        .with("required"@, JsonView::Bool(false))
        .with("description"@, JsonView::Text(description))
        .with("schema"@, schema)
}

/// A query parameter.
pub(crate) fn query_param(name: &str, description: &str, schema: Json) -> (r: Json)
    ensures
        r@ == query_param_view(name@, description@, schema@),
{
    Json::object()
        .with("name", Json::text(name))
        .with("in", Json::text("query"))
        .with("required", Json::Bool(false))
        .with("description", Json::text(description))
        .with("schema", schema)
}

/// A header.
pub open spec fn header_param_view(name: Seq<char>, description: Seq<char>) -> JsonView {
    JsonView::object()
        .with("name"@, JsonView::Text(name))
        .with("in"@, JsonView::Text("header"@))
        .with("required"@, JsonView::Bool(false))
        .with("description"@, JsonView::Text(description))
        .with("schema"@, JsonView::object().with("type"@, JsonView::Text("string"@)))
}

/// A header.
pub(crate) fn header_param(name: &str, description: &str) -> (r: Json)
    ensures
        r@ == header_param_view(name@, description@),
{
    Json::object()
        .with("name", Json::text(name))
        .with("in", Json::text("header"))
        .with("required", Json::Bool(false))
        .with("description", Json::text(description))
        .with("schema", Json::object().with("type", Json::text("string")))
}

/// A log position.
pub open spec fn position_schema_view(description: Seq<char>) -> JsonView {
    JsonView::object()
        .with("type"@, JsonView::Text("integer"@))
        .with("minimum"@, JsonView::Int(0))
        .with("format"@, JsonView::Text("int64"@))
        .with("description"@, JsonView::Text(description))
}

/// A log position.
pub(crate) fn position_schema(description: &str) -> (r: Json)
    ensures
        r@ == position_schema_view(description@),
{
    Json::object()
        .with("type", Json::text("integer"))
        .with("minimum", Json::Int(0))
        .with("format", Json::text("int64"))
        .with("description", Json::text(description))
}

/// A string held to a set of names. An empty set would match nothing at all, so it is no
/// constraint.
pub open spec fn name_schema_view(names: Seq<Seq<char>>) -> JsonView {
    if names.len() == 0 {
        JsonView::object().with("type"@, JsonView::Text("string"@))
    } else {
        JsonView::object().with("type"@, JsonView::Text("string"@)).with(
            "enum"@,
            JsonView::texts(names),
        )
    }
}

/// A string held to a set of names.
pub(crate) fn name_schema(names: &Vec<String>) -> (r: Json)
    ensures
        r@ == name_schema_view(views(names@)),
{
    if names.len() == 0 {
        Json::object().with("type", Json::text("string"))
    } else {
        Json::object().with("type", Json::text("string")).with("enum", Json::texts(names))
    }
}

/// The schema of an error's code and message.
pub open spec fn error_detail_schema_view() -> JsonView {
    JsonView::object()
        .with("type"@, JsonView::Text("object"@))
        .with(
            "description"@,
            JsonView::Text("A machine-readable code and a human-readable message."@),
        )
        .with(
            "properties"@,
            JsonView::object()
                .with(
                    "code"@,
                    JsonView::object()
                        .with("type"@, JsonView::Text("string"@))
                        .with(
                            "description"@,
                            JsonView::Text("A stable reason to branch on, e.g. `invalid_input`, `not_found`, `unindexed_filter`, `concurrency_conflict`, or whatever code the command's own `reject(...)` chose."@),
                        ),
                )
                .with(
                    "message"@,
                    JsonView::object()
                        .with("type"@, JsonView::Text("string"@))
                        .with(
                            "description"@,
                            JsonView::Text("Human-readable detail. Not stable; do not parse it."@),
                        ),
                ),
        )
        .with(
            "required"@,
            JsonView::array()
                .item(JsonView::Text("code"@))
                .item(JsonView::Text("message"@)),
        )
        .with("additionalProperties"@, JsonView::Bool(false))
}

/// The schema of an error's code and message.
pub(crate) fn error_detail_schema() -> (r: Json)
    ensures
        r@ == error_detail_schema_view(),
{
    Json::object()
        .with("type", Json::text("object"))
        .with(
            "description",
            Json::text("A machine-readable code and a human-readable message."),
        )
        .with(
            "properties",
            Json::object()
                .with(
                    "code",
                    Json::object()
                        .with("type", Json::text("string"))
                        .with(
                            "description",
                            Json::text("A stable reason to branch on, e.g. `invalid_input`, `not_found`, `unindexed_filter`, `concurrency_conflict`, or whatever code the command's own `reject(...)` chose."),
                        ),
                )
                .with(
                    "message",
                    Json::object()
                        .with("type", Json::text("string"))
                        .with(
                            "description",
                            Json::text("Human-readable detail. Not stable; do not parse it."),
                        ),
                ),
        )
        .with("required", Json::array().item(Json::text("code")).item(Json::text("message")))
        .with("additionalProperties", Json::Bool(false))
}

/// The schema of the error envelope of the read and operator endpoints.
pub open spec fn error_schema_view() -> JsonView {
    JsonView::object()
        .with("type"@, JsonView::Text("object"@))
        .with(
            "description"@,
            JsonView::Text("The error envelope the read and operator endpoints return. The command endpoints return `CommandError`, which adds the request's correlation identity."@),
        )
        .with("properties"@, JsonView::object().with("error"@, schema_ref_view("ErrorDetail"@)))
        .with("required"@, JsonView::array().item(JsonView::Text("error"@)))
        .with("additionalProperties"@, JsonView::Bool(false))
}

/// The schema of the error envelope of the read and operator endpoints.
pub(crate) fn error_schema() -> (r: Json)
    ensures
        r@ == error_schema_view(),
{
    Json::object()
        .with("type", Json::text("object"))
        .with(
            "description",
            Json::text("The error envelope the read and operator endpoints return. The command endpoints return `CommandError`, which adds the request's correlation identity."),
        )
        .with("properties", Json::object().with("error", schema_ref("ErrorDetail")))
        .with("required", Json::array().item(Json::text("error")))
        .with("additionalProperties", Json::Bool(false))
}

/// The schema of the error envelope of a command.
pub open spec fn command_error_schema_view() -> JsonView {
    JsonView::object()
        .with("type"@, JsonView::Text("object"@))
        .with(
            "description"@,
            JsonView::Text("The error envelope a command endpoint returns. Every error path shares it, so a 400, a 409 and a 422 have the same shape."@),
        )
        .with(
            "properties"@,
            JsonView::object()
                .with(
                    "correlation_id"@,
                    JsonView::object()
                        .with("type"@, JsonView::Text("string"@))
                        .with("format"@, JsonView::Text("uuid"@)),
                )
                .with(
                    "causation_id"@,
                    JsonView::object()
                        .with("type"@, JsonView::Text("string"@))
                        .with("format"@, JsonView::Text("uuid"@)),
                )
                .with("error"@, schema_ref_view("ErrorDetail"@)),
        )
        .with(
            "required"@,
            JsonView::array()
                .item(JsonView::Text("correlation_id"@))
                .item(JsonView::Text("causation_id"@))
                .item(JsonView::Text("error"@)),
        )
        .with("additionalProperties"@, JsonView::Bool(false))
}

/// The schema of the error envelope of a command.
pub(crate) fn command_error_schema() -> (r: Json)
    ensures
        r@ == command_error_schema_view(),
{
    Json::object()
        .with("type", Json::text("object"))
        .with(
            "description",
            Json::text("The error envelope a command endpoint returns. Every error path shares it, so a 400, a 409 and a 422 have the same shape."),
        )
        .with(
            "properties",
            Json::object()
                .with(
                    "correlation_id",
                    Json::object()
                        .with("type", Json::text("string"))
                        .with("format", Json::text("uuid")),
                )
                .with(
                    "causation_id",
                    Json::object()
                        .with("type", Json::text("string"))
                        .with("format", Json::text("uuid")),
                )
                .with("error", schema_ref("ErrorDetail")),
        )
        .with(
            "required",
            Json::array()
                .item(Json::text("correlation_id"))
                .item(Json::text("causation_id"))
                .item(Json::text("error")),
        )
        .with("additionalProperties", Json::Bool(false))
}

/// The schema of a committed command.
pub open spec fn command_accepted_schema_view() -> JsonView {
    JsonView::object()
        .with("type"@, JsonView::Text("object"@))
        .with(
            "description"@,
            JsonView::Text("A committed command. Byte-identical whether the command ran now or its outcome was recovered from the log under an idempotency key, so a client cannot tell a retry from a first attempt."@),
        )
        .with(
            "properties"@,
            JsonView::object()
                .with(
                    "correlation_id"@,
                    JsonView::object()
                        .with("type"@, JsonView::Text("string"@))
                        .with("format"@, JsonView::Text("uuid"@))
                        .with(
                            "description"@,
                            JsonView::Text("Echoes the request's `X-Correlation-Id`, or a fresh uuid when none was supplied."@),
                        ),
                )
                .with(
                    "causation_id"@,
                    JsonView::object()
                        .with("type"@, JsonView::Text("string"@))
                        .with("format"@, JsonView::Text("uuid"@)),
                )
                .with(
                    "positions"@,
                    JsonView::object()
                        .with(
                            "type"@,
                            JsonView::array()
                                .item(JsonView::Text("object"@))
                                .item(JsonView::Text("null"@)),
                        )
                        .with(
                            "description"@,
                            JsonView::Text("The range of log positions the appended events occupy. Null when the command committed no events. Pass `last` as a read's `after` for read-your-writes."@),
                        )
                        .with(
                            "properties"@,
                            JsonView::object()
                                .with(
                                    "first"@,
                                    position_schema_view("The first appended position."@),
                                )
                                .with(
                                    "last"@,
                                    position_schema_view("The last appended position."@),
                                ),
                        )
                        .with(
                            "required"@,
                            JsonView::array()
                                .item(JsonView::Text("first"@))
                                .item(JsonView::Text("last"@)),
                        )
                        .with("additionalProperties"@, JsonView::Bool(false)),
                )
                .with(
                    "events"@,
                    JsonView::object()
                        .with("type"@, JsonView::Text("array"@))
                        .with(
                            "description"@,
                            JsonView::Text("The events the command appended, in order. Empty when it decided to append none, which is a success rather than a rejection."@),
                        )
                        .with("items"@, schema_ref_view("EmittedEvent"@)),
                ),
        )
        .with(
            "required"@,
            JsonView::array()
                .item(JsonView::Text("correlation_id"@))
                .item(JsonView::Text("causation_id"@))
                .item(JsonView::Text("positions"@))
                .item(JsonView::Text("events"@)),
        )
        .with("additionalProperties"@, JsonView::Bool(false))
}

/// The schema of a committed command.
pub(crate) fn command_accepted_schema() -> (r: Json)
    ensures
        r@ == command_accepted_schema_view(),
{
    Json::object()
        .with("type", Json::text("object"))
        .with(
            "description",
            Json::text("A committed command. Byte-identical whether the command ran now or its outcome was recovered from the log under an idempotency key, so a client cannot tell a retry from a first attempt."),
        )
        .with(
            "properties",
            Json::object()
                .with(
                    "correlation_id",
                    Json::object()
                        .with("type", Json::text("string"))
                        .with("format", Json::text("uuid"))
                        .with(
                            "description",
                            Json::text("Echoes the request's `X-Correlation-Id`, or a fresh uuid when none was supplied."),
                        ),
                )
                .with(
                    "causation_id",
                    Json::object()
                        .with("type", Json::text("string"))
                        .with("format", Json::text("uuid")),
                )
                .with(
                    "positions",
                    Json::object()
                        .with(
                            "type",
                            Json::array()
                                .item(Json::text("object"))
                                .item(Json::text("null")),
                        )
                        .with(
                            "description",
                            Json::text("The range of log positions the appended events occupy. Null when the command committed no events. Pass `last` as a read's `after` for read-your-writes."),
                        )
                        .with(
                            "properties",
                            Json::object()
                                .with("first", position_schema("The first appended position."))
                                .with("last", position_schema("The last appended position.")),
                        )
                        .with(
                            "required",
                            Json::array()
                                .item(Json::text("first"))
                                .item(Json::text("last")),
                        )
                        .with("additionalProperties", Json::Bool(false)),
                )
                .with(
                    "events",
                    Json::object()
                        .with("type", Json::text("array"))
                        .with(
                            "description",
                            Json::text("The events the command appended, in order. Empty when it decided to append none, which is a success rather than a rejection."),
                        )
                        .with("items", schema_ref("EmittedEvent")),
                ),
        )
        .with(
            "required",
            Json::array()
                .item(Json::text("correlation_id"))
                .item(Json::text("causation_id"))
                .item(Json::text("positions"))
                .item(Json::text("events")),
        )
        .with("additionalProperties", Json::Bool(false))
}

/// The schema of the status report.
pub open spec fn status_schema_view() -> JsonView {
    JsonView::object()
        .with("type"@, JsonView::Text("object"@))
        .with(
            "properties"@,
            JsonView::object()
                .with("log_head"@, position_schema_view("The log's head position."@))
                .with(
                    "uptime_seconds"@,
                    JsonView::object()
                        .with("type"@, JsonView::Text("integer"@))
                        .with("minimum"@, JsonView::Int(0)),
                )
                .with(
                    "verify"@,
                    JsonView::object()
                        .with("type"@, JsonView::Text("boolean"@))
                        .with(
                            "description"@,
                            JsonView::Text("Whether the continuous invariant checks are running (`[verify] enabled`, or `serve --verify`)."@),
                        ),
                )
                .with(
                    "commands"@,
                    JsonView::object()
                        .with("type"@, JsonView::Text("object"@))
                        .with(
                            "properties"@,
                            JsonView::object()
                                .with(
                                    "public"@,
                                    JsonView::object()
                                        .with("type"@, JsonView::Text("array"@))
                                        .with(
                                            "items"@,
                                            JsonView::object()
                                                .with("type"@, JsonView::Text("string"@)),
                                        )
                                        .with(
                                            "description"@,
                                            JsonView::Text("Routed under `/commands/{name}`."@),
                                        ),
                                )
                                .with(
                                    "internal"@,
                                    JsonView::object()
                                        .with("type"@, JsonView::Text("array"@))
                                        .with(
                                            "items"@,
                                            JsonView::object()
                                                .with("type"@, JsonView::Text("string"@)),
                                        )
                                        .with(
                                            "description"@,
                                            JsonView::Text("Invokable by effects, never routed over HTTP."@),
                                        ),
                                ),
                        )
                        .with(
                            "required"@,
                            JsonView::array()
                                .item(JsonView::Text("public"@))
                                .item(JsonView::Text("internal"@)),
                        )
                        .with("additionalProperties"@, JsonView::Bool(false)),
                )
                .with(
                    "projectors"@,
                    JsonView::object()
                        .with("type"@, JsonView::Text("array"@))
                        .with("items"@, schema_ref_view("ProjectorStatus"@)),
                )
                .with(
                    "effects"@,
                    JsonView::object()
                        .with("type"@, JsonView::Text("array"@))
                        .with("items"@, schema_ref_view("EffectStatus"@)),
                )
                .with(
                    "events"@,
                    JsonView::object()
                        .with("type"@, JsonView::Text("integer"@))
                        .with("minimum"@, JsonView::Int(0))
                        .with(
                            "description"@,
                            JsonView::Text("How many event types the project declares."@),
                        ),
                )
                .with(
                    "folds"@,
                    JsonView::object()
                        .with("type"@, JsonView::Text("object"@))
                        .with(
                            "description"@,
                            JsonView::Text("Process-wide fold counters. `events_folded / commands` is the mean boundary depth this deployment is paying for, which a per-request API cannot report because the caller sees a decision rather than the events behind it."@),
                        )
                        .with(
                            "properties"@,
                            JsonView::object()
                                .with(
                                    "events_folded"@,
                                    JsonView::object()
                                        .with("type"@, JsonView::Text("integer"@))
                                        .with("minimum"@, JsonView::Int(0)),
                                )
                                .with(
                                    "chunk_seams"@,
                                    JsonView::object()
                                        .with("type"@, JsonView::Text("integer"@))
                                        .with("minimum"@, JsonView::Int(0))
                                        .with(
                                            "description"@,
                                            JsonView::Text("How many times a fold froze its state and dropped its heap. Chunking is invisible in the result, so this is what makes it observable."@),
                                        ),
                                ),
                        )
                        .with(
                            "required"@,
                            JsonView::array()
                                .item(JsonView::Text("events_folded"@))
                                .item(JsonView::Text("chunk_seams"@)),
                        )
                        .with("additionalProperties"@, JsonView::Bool(false)),
                ),
        )
        .with(
            "required"@,
            JsonView::array()
                .item(JsonView::Text("log_head"@))
                .item(JsonView::Text("uptime_seconds"@))
                .item(JsonView::Text("verify"@))
                .item(JsonView::Text("commands"@))
                .item(JsonView::Text("projectors"@))
                .item(JsonView::Text("effects"@))
                .item(JsonView::Text("events"@))
                .item(JsonView::Text("folds"@)),
        )
        .with("additionalProperties"@, JsonView::Bool(false))
}

/// The schema of the status report.
pub(crate) fn status_schema() -> (r: Json)
    ensures
        r@ == status_schema_view(),
{
    Json::object()
        .with("type", Json::text("object"))
        .with(
            "properties",
            Json::object()
                .with("log_head", position_schema("The log's head position."))
                .with(
                    "uptime_seconds",
                    Json::object()
                        .with("type", Json::text("integer"))
                        .with("minimum", Json::Int(0)),
                )
                .with(
                    "verify",
                    Json::object()
                        .with("type", Json::text("boolean"))
                        .with(
                            "description",
                            Json::text("Whether the continuous invariant checks are running (`[verify] enabled`, or `serve --verify`)."),
                        ),
                )
                .with(
                    "commands",
                    Json::object()
                        .with("type", Json::text("object"))
                        .with(
                            "properties",
                            Json::object()
                                .with(
                                    "public",
                                    Json::object()
                                        .with("type", Json::text("array"))
                                        .with(
                                            "items",
                                            Json::object()
                                                .with("type", Json::text("string")),
                                        )
                                        .with(
                                            "description",
                                            Json::text("Routed under `/commands/{name}`."),
                                        ),
                                )
                                .with(
                                    "internal",
                                    Json::object()
                                        .with("type", Json::text("array"))
                                        .with(
                                            "items",
                                            Json::object()
                                                .with("type", Json::text("string")),
                                        )
                                        .with(
                                            "description",
                                            Json::text("Invokable by effects, never routed over HTTP."),
                                        ),
                                ),
                        )
                        .with(
                            "required",
                            Json::array()
                                .item(Json::text("public"))
                                .item(Json::text("internal")),
                        )
                        .with("additionalProperties", Json::Bool(false)),
                )
                .with(
                    "projectors",
                    Json::object()
                        .with("type", Json::text("array"))
                        .with("items", schema_ref("ProjectorStatus")),
                )
                .with(
                    "effects",
                    Json::object()
                        .with("type", Json::text("array"))
                        .with("items", schema_ref("EffectStatus")),
                )
                .with(
                    "events",
                    Json::object()
                        .with("type", Json::text("integer"))
                        .with("minimum", Json::Int(0))
                        .with(
                            "description",
                            Json::text("How many event types the project declares."),
                        ),
                )
                .with(
                    "folds",
                    Json::object()
                        .with("type", Json::text("object"))
                        .with(
                            "description",
                            Json::text("Process-wide fold counters. `events_folded / commands` is the mean boundary depth this deployment is paying for, which a per-request API cannot report because the caller sees a decision rather than the events behind it."),
                        )
                        .with(
                            "properties",
                            Json::object()
                                .with(
                                    "events_folded",
                                    Json::object()
                                        .with("type", Json::text("integer"))
                                        .with("minimum", Json::Int(0)),
                                )
                                .with(
                                    "chunk_seams",
                                    Json::object()
                                        .with("type", Json::text("integer"))
                                        .with("minimum", Json::Int(0))
                                        .with(
                                            "description",
                                            Json::text("How many times a fold froze its state and dropped its heap. Chunking is invisible in the result, so this is what makes it observable."),
                                        ),
                                ),
                        )
                        .with(
                            "required",
                            Json::array()
                                .item(Json::text("events_folded"))
                                .item(Json::text("chunk_seams")),
                        )
                        .with("additionalProperties", Json::Bool(false)),
                ),
        )
        .with(
            "required",
            Json::array()
                .item(Json::text("log_head"))
                .item(Json::text("uptime_seconds"))
                .item(Json::text("verify"))
                .item(Json::text("commands"))
                .item(Json::text("projectors"))
                .item(Json::text("effects"))
                .item(Json::text("events"))
                .item(Json::text("folds")),
        )
        .with("additionalProperties", Json::Bool(false))
}

/// The schema of a projector in the status report.
pub open spec fn projector_status_schema_view() -> JsonView {
    JsonView::object()
        .with("type"@, JsonView::Text("object"@))
        .with(
            "properties"@,
            JsonView::object()
                .with("name"@, JsonView::object().with("type"@, JsonView::Text("string"@)))
                .with("position"@, position_schema_view("The last checkpoint it committed."@))
                .with(
                    "lag"@,
                    JsonView::object()
                        .with("type"@, JsonView::Text("integer"@))
                        .with("minimum"@, JsonView::Int(0))
                        .with(
                            "description"@,
                            JsonView::Text("`log_head - position`. Ordinary lag, not an error."@),
                        ),
                )
                .with(
                    "readiness"@,
                    JsonView::object()
                        .with("type"@, JsonView::Text("string"@))
                        .with(
                            "enum"@,
                            JsonView::array()
                                .item(JsonView::Text("ready"@))
                                .item(JsonView::Text("rebuilding"@))
                                .item(JsonView::Text("stale"@))
                                .item(JsonView::Text("rebuild_failed"@))
                                .item(JsonView::Text("quarantined"@)),
                        )
                        .with(
                            "description"@,
                            JsonView::Text("Whether the read API can serve this projector. Anything but `ready` is a 503 on its read paths."@),
                        ),
                )
                .with(
                    "running"@,
                    JsonView::object()
                        .with("type"@, JsonView::Text("boolean"@))
                        .with(
                            "description"@,
                            JsonView::Text("Whether its thread is alive. A stopped projector still serves its frozen model but will never advance or replay again."@),
                        ),
                )
                .with("failed"@, JsonView::object().with("type"@, JsonView::Text("boolean"@)))
                .with(
                    "last_error"@,
                    JsonView::object()
                        .with(
                            "type"@,
                            JsonView::array()
                                .item(JsonView::Text("string"@))
                                .item(JsonView::Text("null"@)),
                        ),
                ),
        )
        .with(
            "required"@,
            JsonView::array()
                .item(JsonView::Text("name"@))
                .item(JsonView::Text("position"@))
                .item(JsonView::Text("lag"@))
                .item(JsonView::Text("readiness"@))
                .item(JsonView::Text("running"@))
                .item(JsonView::Text("failed"@))
                .item(JsonView::Text("last_error"@)),
        )
        .with("additionalProperties"@, JsonView::Bool(false))
}

/// The schema of a projector in the status report.
pub(crate) fn projector_status_schema() -> (r: Json)
    ensures
        r@ == projector_status_schema_view(),
{
    Json::object()
        .with("type", Json::text("object"))
        .with(
            "properties",
            Json::object()
                .with("name", Json::object().with("type", Json::text("string")))
                .with("position", position_schema("The last checkpoint it committed."))
                .with(
                    "lag",
                    Json::object()
                        .with("type", Json::text("integer"))
                        .with("minimum", Json::Int(0))
                        .with(
                            "description",
                            Json::text("`log_head - position`. Ordinary lag, not an error."),
                        ),
                )
                .with(
                    "readiness",
                    Json::object()
                        .with("type", Json::text("string"))
                        .with(
                            "enum",
                            Json::array()
                                .item(Json::text("ready"))
                                .item(Json::text("rebuilding"))
                                .item(Json::text("stale"))
                                .item(Json::text("rebuild_failed"))
                                .item(Json::text("quarantined")),
                        )
                        .with(
                            "description",
                            Json::text("Whether the read API can serve this projector. Anything but `ready` is a 503 on its read paths."),
                        ),
                )
                .with(
                    "running",
                    Json::object()
                        .with("type", Json::text("boolean"))
                        .with(
                            "description",
                            Json::text("Whether its thread is alive. A stopped projector still serves its frozen model but will never advance or replay again."),
                        ),
                )
                .with("failed", Json::object().with("type", Json::text("boolean")))
                .with(
                    "last_error",
                    Json::object()
                        .with(
                            "type",
                            Json::array()
                                .item(Json::text("string"))
                                .item(Json::text("null")),
                        ),
                ),
        )
        .with(
            "required",
            Json::array()
                .item(Json::text("name"))
                .item(Json::text("position"))
                .item(Json::text("lag"))
                .item(Json::text("readiness"))
                .item(Json::text("running"))
                .item(Json::text("failed"))
                .item(Json::text("last_error")),
        )
        .with("additionalProperties", Json::Bool(false))
}

/// The schema of an effect in the status report.
pub open spec fn effect_status_schema_view() -> JsonView {
    JsonView::object()
        .with("type"@, JsonView::Text("object"@))
        .with(
            "properties"@,
            JsonView::object()
                .with("name"@, JsonView::object().with("type"@, JsonView::Text("string"@)))
                .with("position"@, position_schema_view("Its durable watermark."@))
                .with(
                    "lag"@,
                    JsonView::object()
                        .with("type"@, JsonView::Text("integer"@))
                        .with("minimum"@, JsonView::Int(0)),
                )
                .with(
                    "consecutive_failures"@,
                    JsonView::object()
                        .with("type"@, JsonView::Text("integer"@))
                        .with("minimum"@, JsonView::Int(0))
                        .with(
                            "description"@,
                            JsonView::Text("How many times the current invocation has failed. A number that keeps climbing is a wedge; the runtime retries forever rather than skipping, so this is how a wedge is distinguished from lag."@),
                        ),
                )
                .with(
                    "last_error"@,
                    JsonView::object()
                        .with(
                            "type"@,
                            JsonView::array()
                                .item(JsonView::Text("string"@))
                                .item(JsonView::Text("null"@)),
                        ),
                )
                .with(
                    "quarantined"@,
                    JsonView::object()
                        .with("type"@, JsonView::Text("boolean"@))
                        .with(
                            "description"@,
                            JsonView::Text("Set when it broke an invariant under `--verify` and stopped advancing. The rest of the runtime keeps serving."@),
                        ),
                )
                .with(
                    "terminal_skips"@,
                    JsonView::object()
                        .with("type"@, JsonView::Text("integer"@))
                        .with("minimum"@, JsonView::Int(0))
                        .with(
                            "description"@,
                            JsonView::Text("How many positions were marked terminal without being processed, by an operator skip or a terminal failure."@),
                        ),
                )
                .with(
                    "last_terminal_error"@,
                    JsonView::object()
                        .with(
                            "type"@,
                            JsonView::array()
                                .item(JsonView::Text("string"@))
                                .item(JsonView::Text("null"@)),
                        ),
                ),
        )
        .with(
            "required"@,
            JsonView::array()
                .item(JsonView::Text("name"@))
                .item(JsonView::Text("position"@))
                .item(JsonView::Text("lag"@))
                .item(JsonView::Text("consecutive_failures"@))
                .item(JsonView::Text("last_error"@))
                .item(JsonView::Text("quarantined"@))
                .item(JsonView::Text("terminal_skips"@))
                .item(JsonView::Text("last_terminal_error"@)),
        )
        .with("additionalProperties"@, JsonView::Bool(false))
}

/// The schema of an effect in the status report.
pub(crate) fn effect_status_schema() -> (r: Json)
    ensures
        r@ == effect_status_schema_view(),
{
    Json::object()
        .with("type", Json::text("object"))
        .with(
            "properties",
            Json::object()
                .with("name", Json::object().with("type", Json::text("string")))
                .with("position", position_schema("Its durable watermark."))
                .with(
                    "lag",
                    Json::object()
                        .with("type", Json::text("integer"))
                        .with("minimum", Json::Int(0)),
                )
                .with(
                    "consecutive_failures",
                    Json::object()
                        .with("type", Json::text("integer"))
                        .with("minimum", Json::Int(0))
                        .with(
                            "description",
                            Json::text("How many times the current invocation has failed. A number that keeps climbing is a wedge; the runtime retries forever rather than skipping, so this is how a wedge is distinguished from lag."),
                        ),
                )
                .with(
                    "last_error",
                    Json::object()
                        .with(
                            "type",
                            Json::array()
                                .item(Json::text("string"))
                                .item(Json::text("null")),
                        ),
                )
                .with(
                    "quarantined",
                    Json::object()
                        .with("type", Json::text("boolean"))
                        .with(
                            "description",
                            Json::text("Set when it broke an invariant under `--verify` and stopped advancing. The rest of the runtime keeps serving."),
                        ),
                )
                .with(
                    "terminal_skips",
                    Json::object()
                        .with("type", Json::text("integer"))
                        .with("minimum", Json::Int(0))
                        .with(
                            "description",
                            Json::text("How many positions were marked terminal without being processed, by an operator skip or a terminal failure."),
                        ),
                )
                .with(
                    "last_terminal_error",
                    Json::object()
                        .with(
                            "type",
                            Json::array()
                                .item(Json::text("string"))
                                .item(Json::text("null")),
                        ),
                ),
        )
        .with(
            "required",
            Json::array()
                .item(Json::text("name"))
                .item(Json::text("position"))
                .item(Json::text("lag"))
                .item(Json::text("consecutive_failures"))
                .item(Json::text("last_error"))
                .item(Json::text("quarantined"))
                .item(Json::text("terminal_skips"))
                .item(Json::text("last_terminal_error")),
        )
        .with("additionalProperties", Json::Bool(false))
}

/// The 503 of both read paths. Its retry time is declared, and optional: only what resolves on its own carries one.
pub open spec fn read_unavailable_response_view() -> JsonView {
    response_view(READ_UNAVAILABLE@, schema_ref_view("Error"@)).with("headers"@, JsonView::object()
            .with(
                "Retry-After"@,
                JsonView::object()
                    .with(
                        "description"@,
                        JsonView::Text("Seconds to wait before retrying. Present only for `rebuilding` and `not_caught_up`, which resolve on their own; the codes that need an operator omit it."@),
                    )
                    .with("required"@, JsonView::Bool(false))
                    .with(
                        "schema"@,
                        JsonView::object()
                            .with("type"@, JsonView::Text("integer"@))
                            .with("minimum"@, JsonView::Int(0)),
                    ),
            ))
}

/// The 503 of both read paths. Its retry time is declared, and optional: only what resolves on its own carries one.
pub(crate) fn read_unavailable_response() -> (r: Json)
    ensures
        r@ == read_unavailable_response_view(),
{
    response(READ_UNAVAILABLE, schema_ref("Error")).with("headers", Json::object()
            .with(
                "Retry-After",
                Json::object()
                    .with(
                        "description",
                        Json::text("Seconds to wait before retrying. Present only for `rebuilding` and `not_caught_up`, which resolve on their own; the codes that need an operator omit it."),
                    )
                    .with("required", Json::Bool(false))
                    .with(
                        "schema",
                        Json::object()
                            .with("type", Json::text("integer"))
                            .with("minimum", Json::Int(0)),
                    ),
            ))
}

/// The endpoint that rebuilds a projector.
pub open spec fn replay_path_view(projectors: Seq<Seq<char>>) -> JsonView {
    JsonView::object()
        .with("tags"@, JsonView::array().item(JsonView::Text(OPERATIONS_TAG@)))
        .with("summary"@, JsonView::Text("schedule a projector rebuild"@))
        .with(
            "description"@,
            JsonView::Text("Schedules a rebuild-and-swap of the projector's read model. Returns 202 at once: the projector picks the request up between batches, and callers watch its lag in `/status`. Reads keep being served from the existing model until the rebuilt one is swapped in atomically."@),
        )
        .with(
            "parameters"@,
            JsonView::array()
                .item(
                    path_param_view(
                        "name"@,
                        "The projector to rebuild."@,
                        name_schema_view(projectors),
                    ),
                ),
        )
        .with(
            "responses"@,
            JsonView::object()
                .with(
                    "202"@,
                    response_view(
                        "the rebuild was scheduled"@,
                        JsonView::object()
                            .with("type"@, JsonView::Text("object"@))
                            .with(
                                "properties"@,
                                JsonView::object()
                                    .with(
                                        "status"@,
                                        JsonView::object()
                                            .with("type"@, JsonView::Text("string"@))
                                            .with(
                                                "enum"@,
                                                JsonView::array()
                                                    .item(JsonView::Text("replay_scheduled"@)),
                                            ),
                                    )
                                    .with(
                                        "projector"@,
                                        JsonView::object()
                                            .with("type"@, JsonView::Text("string"@)),
                                    ),
                            )
                            .with(
                                "required"@,
                                JsonView::array()
                                    .item(JsonView::Text("status"@))
                                    .item(JsonView::Text("projector"@)),
                            )
                            .with("additionalProperties"@, JsonView::Bool(false)),
                    ),
                )
                .with("404"@, response_view("no such projector"@, schema_ref_view("Error"@)))
                .with(
                    "503"@,
                    response_view(
                        "the projector's thread has stopped, so nothing is left to act on the request"@,
                        schema_ref_view("Error"@),
                    ),
                ),
        )
}

/// The endpoint that rebuilds a projector.
pub(crate) fn replay_path(projectors: &Vec<String>) -> (r: Json)
    ensures
        r@ == replay_path_view(views(projectors@)),
{
    Json::object()
        .with("tags", Json::array().item(Json::text(OPERATIONS_TAG)))
        .with("summary", Json::text("schedule a projector rebuild"))
        .with(
            "description",
            Json::text("Schedules a rebuild-and-swap of the projector's read model. Returns 202 at once: the projector picks the request up between batches, and callers watch its lag in `/status`. Reads keep being served from the existing model until the rebuilt one is swapped in atomically."),
        )
        .with(
            "parameters",
            Json::array()
                .item(path_param("name", "The projector to rebuild.", name_schema(projectors))),
        )
        .with(
            "responses",
            Json::object()
                .with(
                    "202",
                    response(
                        "the rebuild was scheduled",
                        Json::object()
                            .with("type", Json::text("object"))
                            .with(
                                "properties",
                                Json::object()
                                    .with(
                                        "status",
                                        Json::object()
                                            .with("type", Json::text("string"))
                                            .with(
                                                "enum",
                                                Json::array()
                                                    .item(Json::text("replay_scheduled")),
                                            ),
                                    )
                                    .with(
                                        "projector",
                                        Json::object()
                                            .with("type", Json::text("string")),
                                    ),
                            )
                            .with(
                                "required",
                                Json::array()
                                    .item(Json::text("status"))
                                    .item(Json::text("projector")),
                            )
                            .with("additionalProperties", Json::Bool(false)),
                    ),
                )
                .with("404", response("no such projector", schema_ref("Error")))
                .with(
                    "503",
                    response(
                        "the projector's thread has stopped, so nothing is left to act on the request",
                        schema_ref("Error"),
                    ),
                ),
        )
}

/// The endpoint that takes an effect past one event.
pub open spec fn skip_path_view(effects: Seq<Seq<char>>) -> JsonView {
    JsonView::object()
        .with("tags"@, JsonView::array().item(JsonView::Text(OPERATIONS_TAG@)))
        .with("summary"@, JsonView::Text("advance a wedged effect past one event"@))
        .with(
            "description"@,
            JsonView::Text("Marks one position terminal without processing it, so a wedged effect can move on from a genuinely unprocessable event. This is an explicit manual action and never automatic: the runtime otherwise retries a failing invocation forever rather than skipping it. Returns 202; the driver applies it at its next backoff check."@),
        )
        .with(
            "parameters"@,
            JsonView::array()
                .item(
                    path_param_view("name"@, "The wedged effect."@, name_schema_view(effects)),
                )
                .item(
                    path_param_view(
                        "position"@,
                        "The log position to mark terminal, from the effect's `position` in `/status`."@,
                        JsonView::object()
                            .with("type"@, JsonView::Text("integer"@))
                            .with("minimum"@, JsonView::Int(0)),
                    ),
                ),
        )
        .with(
            "responses"@,
            JsonView::object()
                .with(
                    "202"@,
                    response_view(
                        "the skip was scheduled"@,
                        JsonView::object()
                            .with("type"@, JsonView::Text("object"@))
                            .with(
                                "properties"@,
                                JsonView::object()
                                    .with(
                                        "status"@,
                                        JsonView::object()
                                            .with("type"@, JsonView::Text("string"@))
                                            .with(
                                                "enum"@,
                                                JsonView::array()
                                                    .item(JsonView::Text("skip_scheduled"@)),
                                            ),
                                    )
                                    .with(
                                        "effect"@,
                                        JsonView::object()
                                            .with("type"@, JsonView::Text("string"@)),
                                    )
                                    .with(
                                        "position"@,
                                        position_schema_view("The position that will be marked terminal."@),
                                    ),
                            )
                            .with(
                                "required"@,
                                JsonView::array()
                                    .item(JsonView::Text("status"@))
                                    .item(JsonView::Text("effect"@))
                                    .item(JsonView::Text("position"@)),
                            )
                            .with("additionalProperties"@, JsonView::Bool(false)),
                    ),
                )
                .with(
                    "400"@,
                    JsonView::object()
                        .with(
                            "description"@,
                            JsonView::Text("`position` was not a non-negative integer. This one is rejected by the routing layer before the handler runs, so the body is plain text rather than the usual JSON error envelope."@),
                        )
                        .with(
                            "content"@,
                            JsonView::object()
                                .with(
                                    "text/plain"@,
                                    JsonView::object()
                                        .with(
                                            "schema"@,
                                            JsonView::object()
                                                .with("type"@, JsonView::Text("string"@)),
                                        ),
                                ),
                        ),
                )
                .with("404"@, response_view("no such effect"@, schema_ref_view("Error"@))),
        )
}

/// The endpoint that takes an effect past one event.
pub(crate) fn skip_path(effects: &Vec<String>) -> (r: Json)
    ensures
        r@ == skip_path_view(views(effects@)),
{
    Json::object()
        .with("tags", Json::array().item(Json::text(OPERATIONS_TAG)))
        .with("summary", Json::text("advance a wedged effect past one event"))
        .with(
            "description",
            Json::text("Marks one position terminal without processing it, so a wedged effect can move on from a genuinely unprocessable event. This is an explicit manual action and never automatic: the runtime otherwise retries a failing invocation forever rather than skipping it. Returns 202; the driver applies it at its next backoff check."),
        )
        .with(
            "parameters",
            Json::array()
                .item(path_param("name", "The wedged effect.", name_schema(effects)))
                .item(
                    path_param(
                        "position",
                        "The log position to mark terminal, from the effect's `position` in `/status`.",
                        Json::object()
                            .with("type", Json::text("integer"))
                            .with("minimum", Json::Int(0)),
                    ),
                ),
        )
        .with(
            "responses",
            Json::object()
                .with(
                    "202",
                    response(
                        "the skip was scheduled",
                        Json::object()
                            .with("type", Json::text("object"))
                            .with(
                                "properties",
                                Json::object()
                                    .with(
                                        "status",
                                        Json::object()
                                            .with("type", Json::text("string"))
                                            .with(
                                                "enum",
                                                Json::array()
                                                    .item(Json::text("skip_scheduled")),
                                            ),
                                    )
                                    .with(
                                        "effect",
                                        Json::object()
                                            .with("type", Json::text("string")),
                                    )
                                    .with(
                                        "position",
                                        position_schema("The position that will be marked terminal."),
                                    ),
                            )
                            .with(
                                "required",
                                Json::array()
                                    .item(Json::text("status"))
                                    .item(Json::text("effect"))
                                    .item(Json::text("position")),
                            )
                            .with("additionalProperties", Json::Bool(false)),
                    ),
                )
                .with(
                    "400",
                    Json::object()
                        .with(
                            "description",
                            Json::text("`position` was not a non-negative integer. This one is rejected by the routing layer before the handler runs, so the body is plain text rather than the usual JSON error envelope."),
                        )
                        .with(
                            "content",
                            Json::object()
                                .with(
                                    "text/plain",
                                    Json::object()
                                        .with(
                                            "schema",
                                            Json::object()
                                                .with("type", Json::text("string")),
                                        ),
                                ),
                        ),
                )
                .with("404", response("no such effect", schema_ref("Error"))),
        )
}

/// The endpoint of the status report.
pub open spec fn status_path_view() -> JsonView {
    JsonView::object()
        .with("tags"@, JsonView::array().item(JsonView::Text(OPERATIONS_TAG@)))
        .with("summary"@, JsonView::Text("per-module positions, lag and errors"@))
        .with(
            "description"@,
            JsonView::Text("Everything needed to tell a lagging module from a wedged one: each projector's and effect's log position and lag, each effect's consecutive-failure count and last error, and the process-wide fold counters. Not a liveness check; use `/health` for that."@),
        )
        .with(
            "responses"@,
            JsonView::object()
                .with(
                    "200"@,
                    response_view("the runtime's current state"@, schema_ref_view("Status"@)),
                ),
        )
}

/// The endpoint of the status report.
pub(crate) fn status_path() -> (r: Json)
    ensures
        r@ == status_path_view(),
{
    Json::object()
        .with("tags", Json::array().item(Json::text(OPERATIONS_TAG)))
        .with("summary", Json::text("per-module positions, lag and errors"))
        .with(
            "description",
            Json::text("Everything needed to tell a lagging module from a wedged one: each projector's and effect's log position and lag, each effect's consecutive-failure count and last error, and the process-wide fold counters. Not a liveness check; use `/health` for that."),
        )
        .with(
            "responses",
            Json::object()
                .with("200", response("the runtime's current state", schema_ref("Status"))),
        )
}

/// The liveness check.
pub open spec fn health_path_view() -> JsonView {
    JsonView::object()
        .with("tags"@, JsonView::array().item(JsonView::Text(OPERATIONS_TAG@)))
        .with("summary"@, JsonView::Text("liveness check"@))
        .with(
            "description"@,
            JsonView::Text("Answers only whether the process is serving. It reports none of `/status`'s per-module detail, deliberately: a lagging projector is not a reason to restart the process."@),
        )
        .with(
            "responses"@,
            JsonView::object()
                .with(
                    "200"@,
                    response_view(
                        "the process is serving"@,
                        JsonView::object()
                            .with("type"@, JsonView::Text("object"@))
                            .with(
                                "properties"@,
                                JsonView::object()
                                    .with(
                                        "status"@,
                                        JsonView::object()
                                            .with("type"@, JsonView::Text("string"@))
                                            .with(
                                                "enum"@,
                                                JsonView::array()
                                                    .item(JsonView::Text("ok"@)),
                                            ),
                                    ),
                            )
                            .with(
                                "required"@,
                                JsonView::array().item(JsonView::Text("status"@)),
                            )
                            .with("additionalProperties"@, JsonView::Bool(false)),
                    ),
                ),
        )
}

/// The liveness check.
pub(crate) fn health_path() -> (r: Json)
    ensures
        r@ == health_path_view(),
{
    Json::object()
        .with("tags", Json::array().item(Json::text(OPERATIONS_TAG)))
        .with("summary", Json::text("liveness check"))
        .with(
            "description",
            Json::text("Answers only whether the process is serving. It reports none of `/status`'s per-module detail, deliberately: a lagging projector is not a reason to restart the process."),
        )
        .with(
            "responses",
            Json::object()
                .with(
                    "200",
                    response(
                        "the process is serving",
                        Json::object()
                            .with("type", Json::text("object"))
                            .with(
                                "properties",
                                Json::object()
                                    .with(
                                        "status",
                                        Json::object()
                                            .with("type", Json::text("string"))
                                            .with("enum", Json::array().item(Json::text("ok"))),
                                    ),
                            )
                            .with("required", Json::array().item(Json::text("status")))
                            .with("additionalProperties", Json::Bool(false)),
                    ),
                ),
        )
}

/// The endpoint of this document.
pub open spec fn openapi_path_view() -> JsonView {
    JsonView::object()
        .with("tags"@, JsonView::array().item(JsonView::Text(OPERATIONS_TAG@)))
        .with("summary"@, JsonView::Text("this document"@))
        .with(
            "description"@,
            JsonView::Text("The generated OpenAPI document, serialized once at startup. `hekla openapi <dir>` prints the same document from a project directory without booting a runtime."@),
        )
        .with(
            "responses"@,
            JsonView::object()
                .with(
                    "200"@,
                    response_view(
                        "the OpenAPI document"@,
                        JsonView::object().with("type"@, JsonView::Text("object"@)),
                    ),
                ),
        )
}

/// The endpoint of this document.
pub(crate) fn openapi_path() -> (r: Json)
    ensures
        r@ == openapi_path_view(),
{
    Json::object()
        .with("tags", Json::array().item(Json::text(OPERATIONS_TAG)))
        .with("summary", Json::text("this document"))
        .with(
            "description",
            Json::text("The generated OpenAPI document, serialized once at startup. `hekla openapi <dir>` prints the same document from a project directory without booting a runtime."),
        )
        .with(
            "responses",
            Json::object()
                .with(
                    "200",
                    response(
                        "the OpenAPI document",
                        Json::object().with("type", Json::text("object")),
                    ),
                ),
        )
}

/// The reference page.
pub open spec fn docs_path_view() -> JsonView {
    JsonView::object()
        .with("tags"@, JsonView::array().item(JsonView::Text(OPERATIONS_TAG@)))
        .with("summary"@, JsonView::Text("API reference UI"@))
        .with(
            "description"@,
            JsonView::Text("A Scalar reference over `/openapi.json`. The page loads Scalar from a CDN, so it needs a network connection."@),
        )
        .with(
            "responses"@,
            JsonView::object()
                .with(
                    "200"@,
                    JsonView::object()
                        .with("description"@, JsonView::Text("the reference UI"@))
                        .with(
                            "content"@,
                            JsonView::object()
                                .with(
                                    "text/html"@,
                                    JsonView::object()
                                        .with(
                                            "schema"@,
                                            JsonView::object()
                                                .with("type"@, JsonView::Text("string"@)),
                                        ),
                                ),
                        ),
                ),
        )
}

/// The reference page.
pub(crate) fn docs_path() -> (r: Json)
    ensures
        r@ == docs_path_view(),
{
    Json::object()
        .with("tags", Json::array().item(Json::text(OPERATIONS_TAG)))
        .with("summary", Json::text("API reference UI"))
        .with(
            "description",
            Json::text("A Scalar reference over `/openapi.json`. The page loads Scalar from a CDN, so it needs a network connection."),
        )
        .with(
            "responses",
            Json::object()
                .with(
                    "200",
                    Json::object()
                        .with("description", Json::text("the reference UI"))
                        .with(
                            "content",
                            Json::object()
                                .with(
                                    "text/html",
                                    Json::object()
                                        .with(
                                            "schema",
                                            Json::object()
                                                .with("type", Json::text("string")),
                                        ),
                                ),
                        ),
                ),
        )
}

/// The schema of one appended event as a response reports it.
pub open spec fn emitted_event_schema_view(types: Seq<Seq<char>>) -> JsonView {
    JsonView::object()
        .with("type"@, JsonView::Text("object"@))
        .with(
            "description"@,
            JsonView::Text("One appended event as reported on the wire: its type and its derived tags. Not the event's fields, which live only in the log. See the `event.*` schemas for what each type declares."@),
        )
        .with(
            "properties"@,
            JsonView::object()
                .with(
                    "type"@,
                    name_schema_view(types).with("description"@, JsonView::Text("The event type. Its declared fields are documented under the matching `event.` schema."@)),
                )
                .with(
                    "tags"@,
                    JsonView::object()
                        .with("type"@, JsonView::Text("array"@))
                        .with(
                            "items"@,
                            JsonView::object().with("type"@, JsonView::Text("string"@)),
                        )
                        .with(
                            "description"@,
                            JsonView::Text("Derived tags, rendered `key:value` (or a bare `key` for a valueless tag) and sorted. Subject-encrypted and `unique` tags are omitted: their stored form is ciphertext and the idempotent-recovery path cannot reconstruct them, so omitting them keeps a fresh response and a recovered one identical."@),
                        ),
                ),
        )
        .with(
            "required"@,
            JsonView::array()
                .item(JsonView::Text("type"@))
                .item(JsonView::Text("tags"@)),
        )
        .with("additionalProperties"@, JsonView::Bool(false))
}

/// The schema of one appended event as a response reports it.
pub(crate) fn emitted_event_schema(types: &Vec<String>) -> (r: Json)
    ensures
        r@ == emitted_event_schema_view(views(types@)),
{
    Json::object()
        .with("type", Json::text("object"))
        .with(
            "description",
            Json::text("One appended event as reported on the wire: its type and its derived tags. Not the event's fields, which live only in the log. See the `event.*` schemas for what each type declares."),
        )
        .with(
            "properties",
            Json::object()
                .with(
                    "type",
                    name_schema(types).with("description", Json::text("The event type. Its declared fields are documented under the matching `event.` schema.")),
                )
                .with(
                    "tags",
                    Json::object()
                        .with("type", Json::text("array"))
                        .with("items", Json::object().with("type", Json::text("string")))
                        .with(
                            "description",
                            Json::text("Derived tags, rendered `key:value` (or a bare `key` for a valueless tag) and sorted. Subject-encrypted and `unique` tags are omitted: their stored form is ciphertext and the idempotent-recovery path cannot reconstruct them, so omitting them keeps a fresh response and a recovered one identical."),
                        ),
                ),
        )
        .with("required", Json::array().item(Json::text("type")).item(Json::text("tags")))
        .with("additionalProperties", Json::Bool(false))
}

} // verus!
