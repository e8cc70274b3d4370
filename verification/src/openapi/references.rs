//! Every reference in the document names a schema that is there.

use vstd::prelude::*;

use crate::json::JsonView;
use crate::list::{distinct, lemma_place, lemma_place_exists, place_of};
use crate::openapi::{
    DOCS_ROUTE, HEALTH_ROUTE, OPENAPI_ROUTE, ProjectorSurface, REPLAY_ROUTE, RouteView, SKIP_ROUTE,
    STATUS_ROUTE, Settings, Surface, Wait, by_path, closed_object_view, command_path_view,
    command_routes, component_candidates, component_keys, components, document, effect_names_view,
    entity_candidate, entity_components, entity_field_view, entity_key, entity_notes,
    entity_properties, entity_required, entity_schema_view, event_candidate, event_components,
    event_field_view, event_key, event_notes, event_properties, event_required, event_schema_view,
    event_types, filter_params_view, fixed_schemas, get_one_path_view, indexes_view,
    input_properties, last_of_each, limit_text_view, listed, named_views, operation_ids,
    operation_routes, path_items, projector_names_view, projector_tags, read_routes, read_tag_view,
    required_inputs, routes, scan_params_view, scan_path_view, served, tags_view, unsigned_view,
    wait_params_view,
};
use crate::openapi::fields::{annotated_view, field_schema_view, nullable_view};
use crate::openapi::names::{claims, first_free, numbered};
use crate::openapi::parts::{
    COMMANDS_TAG, OPERATIONS_TAG, command_accepted_schema_view, command_error_schema_view,
    docs_path_view, effect_status_schema_view, emitted_event_schema_view, error_detail_schema_view,
    error_schema_view, header_param_view, health_path_view, name_schema_view, openapi_path_view,
    path_param_view, position_schema_view, projector_status_schema_view, query_param_view,
    read_unavailable_response_view, replay_path_view, response_view, schema_ref_view,
    skip_path_view, status_path_view, status_schema_view,
};
use crate::order::lemma_sorted_contains;
use crate::read_api::{filterable, DEFAULT_LIMIT};
use crate::read_model::key_kind_view;
use crate::schema::{field_named, EntityDef, EventDef, FieldKind, FieldMeta, IndexDef, InputSchema};

verus! {

/// Whether every reference in a document names one of `keys`.
#[verifier::opaque]
pub open spec fn refs_resolve(json: JsonView, keys: Set<Seq<char>>) -> bool
    decreases json,
{
    match json {
        JsonView::Array(items) => forall|i: int|
            0 <= i < items.len() ==> refs_resolve(#[trigger] items[i], keys),
        JsonView::Object(members) => forall|name: Seq<char>|
            #[trigger] members.contains_key(name) ==> if name == "$ref"@ {
                names_one_of(members[name], keys)
            } else {
                refs_resolve(members[name], keys)
            },
        _ => true,
    }
}

/// Whether a reference names one of `keys`.
pub open spec fn names_one_of(reference: JsonView, keys: Set<Seq<char>>) -> bool {
    exists|key: Seq<char>|
        #[trigger] keys.contains(key) && reference == JsonView::Text("#/components/schemas/"@ + key)
}

pub broadcast proof fn lemma_with(
    object: JsonView,
    name: Seq<char>,
    value: JsonView,
    keys: Set<Seq<char>>,
)
    requires
        object is Object,
        refs_resolve(object, keys),
        refs_resolve(value, keys),
        name != "$ref"@,
    ensures
        #[trigger] refs_resolve(object.with(name, value), keys),
{
    reveal_with_fuel(refs_resolve, 1);
}

pub broadcast proof fn lemma_with_is_object(object: JsonView, name: Seq<char>, value: JsonView)
    requires
        object is Object,
    ensures
        (#[trigger] object.with(name, value)) is Object,
{
}

pub broadcast proof fn lemma_no_members(keys: Set<Seq<char>>)
    ensures
        #[trigger] refs_resolve(JsonView::object(), keys),
{
    reveal_with_fuel(refs_resolve, 1);
}

pub broadcast proof fn lemma_item(list: JsonView, value: JsonView, keys: Set<Seq<char>>)
    requires
        list is Array,
        refs_resolve(list, keys),
        refs_resolve(value, keys),
    ensures
        #[trigger] refs_resolve(list.item(value), keys),
{
    reveal_with_fuel(refs_resolve, 1);
}

pub broadcast proof fn lemma_item_is_array(list: JsonView, value: JsonView)
    requires
        list is Array,
    ensures
        (#[trigger] list.item(value)) is Array,
{
}

pub broadcast proof fn lemma_no_items(keys: Set<Seq<char>>)
    ensures
        #[trigger] refs_resolve(JsonView::array(), keys),
{
    reveal_with_fuel(refs_resolve, 1);
}

pub broadcast proof fn lemma_scalar(json: JsonView, keys: Set<Seq<char>>)
    requires
        !(json is Array),
        !(json is Object),
    ensures
        #[trigger] refs_resolve(json, keys),
{
    reveal_with_fuel(refs_resolve, 1);
}

pub broadcast proof fn lemma_texts(list: Seq<Seq<char>>, keys: Set<Seq<char>>)
    ensures
        #[trigger] refs_resolve(JsonView::texts(list), keys),
{
    reveal_with_fuel(refs_resolve, 2);
}

pub broadcast proof fn lemma_reference(name: Seq<char>, keys: Set<Seq<char>>)
    requires
        keys.contains(name),
    ensures
        #[trigger] refs_resolve(schema_ref_view(name), keys),
{
    reveal_with_fuel(refs_resolve, 1);
}

pub broadcast group group_refs {
    lemma_with,
    lemma_with_is_object,
    lemma_no_members,
    lemma_item,
    lemma_item_is_array,
    lemma_no_items,
    lemma_scalar,
    lemma_texts,
    lemma_reference,
}

/// No name that the document itself uses is that of a reference.
proof fn lemma_names()
    ensures
        "200"@ != "$ref"@,
        "202"@ != "$ref"@,
        "400"@ != "$ref"@,
        "404"@ != "$ref"@,
        "409"@ != "$ref"@,
        "422"@ != "$ref"@,
        "500"@ != "$ref"@,
        "503"@ != "$ref"@,
        "CommandAccepted"@ != "$ref"@,
        "CommandError"@ != "$ref"@,
        "EffectStatus"@ != "$ref"@,
        "EmittedEvent"@ != "$ref"@,
        "Error"@ != "$ref"@,
        "ErrorDetail"@ != "$ref"@,
        "ProjectorStatus"@ != "$ref"@,
        "Retry-After"@ != "$ref"@,
        "Status"@ != "$ref"@,
        "additionalProperties"@ != "$ref"@,
        "application/json"@ != "$ref"@,
        "causation_id"@ != "$ref"@,
        "chunk_seams"@ != "$ref"@,
        "code"@ != "$ref"@,
        "columns"@ != "$ref"@,
        "commands"@ != "$ref"@,
        "components"@ != "$ref"@,
        "consecutive_failures"@ != "$ref"@,
        "content"@ != "$ref"@,
        "correlation_id"@ != "$ref"@,
        "default"@ != "$ref"@,
        "description"@ != "$ref"@,
        "effect"@ != "$ref"@,
        "effects"@ != "$ref"@,
        "enum"@ != "$ref"@,
        "error"@ != "$ref"@,
        "events"@ != "$ref"@,
        "events_folded"@ != "$ref"@,
        "failed"@ != "$ref"@,
        "first"@ != "$ref"@,
        "folds"@ != "$ref"@,
        "format"@ != "$ref"@,
        "headers"@ != "$ref"@,
        "in"@ != "$ref"@,
        "info"@ != "$ref"@,
        "internal"@ != "$ref"@,
        "item"@ != "$ref"@,
        "items"@ != "$ref"@,
        "lag"@ != "$ref"@,
        "last"@ != "$ref"@,
        "last_error"@ != "$ref"@,
        "last_terminal_error"@ != "$ref"@,
        "log_head"@ != "$ref"@,
        "maxLength"@ != "$ref"@,
        "message"@ != "$ref"@,
        "minimum"@ != "$ref"@,
        "name"@ != "$ref"@,
        "next_cursor"@ != "$ref"@,
        "openapi"@ != "$ref"@,
        "operationId"@ != "$ref"@,
        "parameters"@ != "$ref"@,
        "paths"@ != "$ref"@,
        "position"@ != "$ref"@,
        "positions"@ != "$ref"@,
        "projector"@ != "$ref"@,
        "projectors"@ != "$ref"@,
        "properties"@ != "$ref"@,
        "public"@ != "$ref"@,
        "quarantined"@ != "$ref"@,
        "readiness"@ != "$ref"@,
        "requestBody"@ != "$ref"@,
        "required"@ != "$ref"@,
        "responses"@ != "$ref"@,
        "running"@ != "$ref"@,
        "schema"@ != "$ref"@,
        "schemas"@ != "$ref"@,
        "status"@ != "$ref"@,
        "summary"@ != "$ref"@,
        "tags"@ != "$ref"@,
        "terminal_skips"@ != "$ref"@,
        "text/html"@ != "$ref"@,
        "text/plain"@ != "$ref"@,
        "title"@ != "$ref"@,
        "type"@ != "$ref"@,
        "uptime_seconds"@ != "$ref"@,
        "verify"@ != "$ref"@,
        "version"@ != "$ref"@,
        "x-hekla-filterable"@ != "$ref"@,
        "x-hekla-indexed"@ != "$ref"@,
        "x-hekla-indexes"@ != "$ref"@,
        "x-hekla-is-key"@ != "$ref"@,
        "x-hekla-key"@ != "$ref"@,
        "x-hekla-subject"@ != "$ref"@,
        "x-hekla-unique"@ != "$ref"@,
{
    reveal_strlit("$ref");
    assert("$ref"@[0] == '$');
    reveal_strlit("200");
    assert("200"@[0] == '2');
    reveal_strlit("202");
    assert("202"@[0] == '2');
    reveal_strlit("400");
    assert("400"@[0] == '4');
    reveal_strlit("404");
    assert("404"@[0] == '4');
    reveal_strlit("409");
    assert("409"@[0] == '4');
    reveal_strlit("422");
    assert("422"@[0] == '4');
    reveal_strlit("500");
    assert("500"@[0] == '5');
    reveal_strlit("503");
    assert("503"@[0] == '5');
    reveal_strlit("CommandAccepted");
    assert("CommandAccepted"@[0] == 'C');
    reveal_strlit("CommandError");
    assert("CommandError"@[0] == 'C');
    reveal_strlit("EffectStatus");
    assert("EffectStatus"@[0] == 'E');
    reveal_strlit("EmittedEvent");
    assert("EmittedEvent"@[0] == 'E');
    reveal_strlit("Error");
    assert("Error"@[0] == 'E');
    reveal_strlit("ErrorDetail");
    assert("ErrorDetail"@[0] == 'E');
    reveal_strlit("ProjectorStatus");
    assert("ProjectorStatus"@[0] == 'P');
    reveal_strlit("Retry-After");
    assert("Retry-After"@[0] == 'R');
    reveal_strlit("Status");
    assert("Status"@[0] == 'S');
    reveal_strlit("additionalProperties");
    assert("additionalProperties"@[0] == 'a');
    reveal_strlit("application/json");
    assert("application/json"@[0] == 'a');
    reveal_strlit("causation_id");
    assert("causation_id"@[0] == 'c');
    reveal_strlit("chunk_seams");
    assert("chunk_seams"@[0] == 'c');
    reveal_strlit("code");
    assert("code"@[0] == 'c');
    reveal_strlit("columns");
    assert("columns"@[0] == 'c');
    reveal_strlit("commands");
    assert("commands"@[0] == 'c');
    reveal_strlit("components");
    assert("components"@[0] == 'c');
    reveal_strlit("consecutive_failures");
    assert("consecutive_failures"@[0] == 'c');
    reveal_strlit("content");
    assert("content"@[0] == 'c');
    reveal_strlit("correlation_id");
    assert("correlation_id"@[0] == 'c');
    reveal_strlit("default");
    assert("default"@[0] == 'd');
    reveal_strlit("description");
    assert("description"@[0] == 'd');
    reveal_strlit("effect");
    assert("effect"@[0] == 'e');
    reveal_strlit("effects");
    assert("effects"@[0] == 'e');
    reveal_strlit("enum");
    assert("enum"@[0] == 'e');
    reveal_strlit("error");
    assert("error"@[0] == 'e');
    reveal_strlit("events");
    assert("events"@[0] == 'e');
    reveal_strlit("events_folded");
    assert("events_folded"@[0] == 'e');
    reveal_strlit("failed");
    assert("failed"@[0] == 'f');
    reveal_strlit("first");
    assert("first"@[0] == 'f');
    reveal_strlit("folds");
    assert("folds"@[0] == 'f');
    reveal_strlit("format");
    assert("format"@[0] == 'f');
    reveal_strlit("headers");
    assert("headers"@[0] == 'h');
    reveal_strlit("in");
    assert("in"@[0] == 'i');
    reveal_strlit("info");
    assert("info"@[0] == 'i');
    reveal_strlit("internal");
    assert("internal"@[0] == 'i');
    reveal_strlit("item");
    assert("item"@[0] == 'i');
    reveal_strlit("items");
    assert("items"@[0] == 'i');
    reveal_strlit("lag");
    assert("lag"@[0] == 'l');
    reveal_strlit("last");
    assert("last"@[0] == 'l');
    reveal_strlit("last_error");
    assert("last_error"@[0] == 'l');
    reveal_strlit("last_terminal_error");
    assert("last_terminal_error"@[0] == 'l');
    reveal_strlit("log_head");
    assert("log_head"@[0] == 'l');
    reveal_strlit("maxLength");
    assert("maxLength"@[0] == 'm');
    reveal_strlit("message");
    assert("message"@[0] == 'm');
    reveal_strlit("minimum");
    assert("minimum"@[0] == 'm');
    reveal_strlit("name");
    assert("name"@[0] == 'n');
    reveal_strlit("next_cursor");
    assert("next_cursor"@[0] == 'n');
    reveal_strlit("openapi");
    assert("openapi"@[0] == 'o');
    reveal_strlit("operationId");
    assert("operationId"@[0] == 'o');
    reveal_strlit("parameters");
    assert("parameters"@[0] == 'p');
    reveal_strlit("paths");
    assert("paths"@[0] == 'p');
    reveal_strlit("position");
    assert("position"@[0] == 'p');
    reveal_strlit("positions");
    assert("positions"@[0] == 'p');
    reveal_strlit("projector");
    assert("projector"@[0] == 'p');
    reveal_strlit("projectors");
    assert("projectors"@[0] == 'p');
    reveal_strlit("properties");
    assert("properties"@[0] == 'p');
    reveal_strlit("public");
    assert("public"@[0] == 'p');
    reveal_strlit("quarantined");
    assert("quarantined"@[0] == 'q');
    reveal_strlit("readiness");
    assert("readiness"@[0] == 'r');
    reveal_strlit("requestBody");
    assert("requestBody"@[0] == 'r');
    reveal_strlit("required");
    assert("required"@[0] == 'r');
    reveal_strlit("responses");
    assert("responses"@[0] == 'r');
    reveal_strlit("running");
    assert("running"@[0] == 'r');
    reveal_strlit("schema");
    assert("schema"@[0] == 's');
    reveal_strlit("schemas");
    assert("schemas"@[0] == 's');
    reveal_strlit("status");
    assert("status"@[0] == 's');
    reveal_strlit("summary");
    assert("summary"@[0] == 's');
    reveal_strlit("tags");
    assert("tags"@[0] == 't');
    reveal_strlit("terminal_skips");
    assert("terminal_skips"@[0] == 't');
    reveal_strlit("text/html");
    assert("text/html"@[0] == 't');
    reveal_strlit("text/plain");
    assert("text/plain"@[0] == 't');
    reveal_strlit("title");
    assert("title"@[0] == 't');
    reveal_strlit("type");
    assert("type"@[0] == 't');
    reveal_strlit("uptime_seconds");
    assert("uptime_seconds"@[0] == 'u');
    reveal_strlit("verify");
    assert("verify"@[0] == 'v');
    reveal_strlit("version");
    assert("version"@[0] == 'v');
    reveal_strlit("x-hekla-filterable");
    assert("x-hekla-filterable"@[0] == 'x');
    reveal_strlit("x-hekla-indexed");
    assert("x-hekla-indexed"@[0] == 'x');
    reveal_strlit("x-hekla-indexes");
    assert("x-hekla-indexes"@[0] == 'x');
    reveal_strlit("x-hekla-is-key");
    assert("x-hekla-is-key"@[0] == 'x');
    reveal_strlit("x-hekla-key");
    assert("x-hekla-key"@[0] == 'x');
    reveal_strlit("x-hekla-subject");
    assert("x-hekla-subject"@[0] == 'x');
    reveal_strlit("x-hekla-unique");
    assert("x-hekla-unique"@[0] == 'x');
}

/// Whether the schemas that are always present are among `keys`.
pub open spec fn knows_fixed(keys: Set<Seq<char>>) -> bool {
    &&& keys.contains("ErrorDetail"@)
    &&& keys.contains("Error"@)
    &&& keys.contains("CommandError"@)
    &&& keys.contains("CommandAccepted"@)
    &&& keys.contains("EmittedEvent"@)
    &&& keys.contains("Status"@)
    &&& keys.contains("ProjectorStatus"@)
    &&& keys.contains("EffectStatus"@)
}

pub broadcast proof fn lemma_response(description: Seq<char>, schema: JsonView, keys: Set<Seq<char>>)
    requires
        refs_resolve(schema, keys),
    ensures
        #[trigger] refs_resolve(response_view(description, schema), keys),
{
    broadcast use group_refs;

    lemma_names();
}

pub broadcast proof fn lemma_path_param(name: Seq<char>, description: Seq<char>, schema: JsonView, keys: Set<Seq<char>>)
    requires
        refs_resolve(schema, keys),
    ensures
        #[trigger] refs_resolve(path_param_view(name, description, schema), keys),
{
    broadcast use group_refs;

    lemma_names();
}

pub broadcast proof fn lemma_query_param(name: Seq<char>, description: Seq<char>, schema: JsonView, keys: Set<Seq<char>>)
    requires
        refs_resolve(schema, keys),
    ensures
        #[trigger] refs_resolve(query_param_view(name, description, schema), keys),
{
    broadcast use group_refs;

    lemma_names();
}

pub broadcast proof fn lemma_header_param(name: Seq<char>, description: Seq<char>, keys: Set<Seq<char>>)
    ensures
        #[trigger] refs_resolve(header_param_view(name, description), keys),
{
    broadcast use group_refs;

    lemma_names();
}

pub broadcast proof fn lemma_position_schema(description: Seq<char>, keys: Set<Seq<char>>)
    ensures
        #[trigger] refs_resolve(position_schema_view(description), keys),
{
    broadcast use group_refs;

    lemma_names();
}

pub broadcast proof fn lemma_name_schema(names: Seq<Seq<char>>, keys: Set<Seq<char>>)
    ensures
        #[trigger] refs_resolve(name_schema_view(names), keys),
{
    broadcast use group_refs;

    lemma_names();
}

pub broadcast group group_parts {
    lemma_response,
    lemma_path_param,
    lemma_query_param,
    lemma_header_param,
    lemma_position_schema,
    lemma_name_schema,
}

proof fn lemma_error_detail_schema(keys: Set<Seq<char>>)
    requires
        knows_fixed(keys),
    ensures
        refs_resolve(error_detail_schema_view(), keys),
{
    broadcast use {group_refs, group_parts};

    lemma_names();
}

proof fn lemma_error_schema(keys: Set<Seq<char>>)
    requires
        knows_fixed(keys),
    ensures
        refs_resolve(error_schema_view(), keys),
{
    broadcast use {group_refs, group_parts};

    lemma_names();
}

proof fn lemma_command_error_schema(keys: Set<Seq<char>>)
    requires
        knows_fixed(keys),
    ensures
        refs_resolve(command_error_schema_view(), keys),
{
    broadcast use {group_refs, group_parts};

    lemma_names();
}

proof fn lemma_command_accepted_schema(keys: Set<Seq<char>>)
    requires
        knows_fixed(keys),
    ensures
        refs_resolve(command_accepted_schema_view(), keys),
{
    broadcast use {group_refs, group_parts};

    lemma_names();
}

proof fn lemma_status_schema(keys: Set<Seq<char>>)
    requires
        knows_fixed(keys),
    ensures
        refs_resolve(status_schema_view(), keys),
{
    broadcast use {group_refs, group_parts};

    lemma_names();
}

proof fn lemma_projector_status_schema(keys: Set<Seq<char>>)
    requires
        knows_fixed(keys),
    ensures
        refs_resolve(projector_status_schema_view(), keys),
{
    broadcast use {group_refs, group_parts};

    lemma_names();
}

proof fn lemma_effect_status_schema(keys: Set<Seq<char>>)
    requires
        knows_fixed(keys),
    ensures
        refs_resolve(effect_status_schema_view(), keys),
{
    broadcast use {group_refs, group_parts};

    lemma_names();
}

proof fn lemma_read_unavailable_response(keys: Set<Seq<char>>)
    requires
        knows_fixed(keys),
    ensures
        refs_resolve(read_unavailable_response_view(), keys),
{
    broadcast use {group_refs, group_parts};

    lemma_names();
}

proof fn lemma_replay_path(projectors: Seq<Seq<char>>, keys: Set<Seq<char>>)
    requires
        knows_fixed(keys),
    ensures
        refs_resolve(replay_path_view(projectors), keys),
{
    broadcast use {group_refs, group_parts};

    lemma_names();
}

proof fn lemma_skip_path(effects: Seq<Seq<char>>, keys: Set<Seq<char>>)
    requires
        knows_fixed(keys),
    ensures
        refs_resolve(skip_path_view(effects), keys),
{
    broadcast use {group_refs, group_parts};

    lemma_names();
}

proof fn lemma_status_path(keys: Set<Seq<char>>)
    requires
        knows_fixed(keys),
    ensures
        refs_resolve(status_path_view(), keys),
{
    broadcast use {group_refs, group_parts};

    lemma_names();
}

proof fn lemma_health_path(keys: Set<Seq<char>>)
    requires
        knows_fixed(keys),
    ensures
        refs_resolve(health_path_view(), keys),
{
    broadcast use {group_refs, group_parts};

    lemma_names();
}

proof fn lemma_openapi_path(keys: Set<Seq<char>>)
    requires
        knows_fixed(keys),
    ensures
        refs_resolve(openapi_path_view(), keys),
{
    broadcast use {group_refs, group_parts};

    lemma_names();
}

proof fn lemma_docs_path(keys: Set<Seq<char>>)
    requires
        knows_fixed(keys),
    ensures
        refs_resolve(docs_path_view(), keys),
{
    broadcast use {group_refs, group_parts};

    lemma_names();
}

proof fn lemma_emitted_event_schema(types: Seq<Seq<char>>, keys: Set<Seq<char>>)
    requires
        knows_fixed(keys),
    ensures
        refs_resolve(emitted_event_schema_view(types), keys),
{
    broadcast use {group_refs, group_parts};

    lemma_names();
}

// ---------------------------------------------------------------------------
// What a project declares
// ---------------------------------------------------------------------------

proof fn lemma_field_schema(kind: FieldKind, keys: Set<Seq<char>>)
    ensures
        refs_resolve(field_schema_view(kind), keys),
        field_schema_view(kind) is Object,
{
    broadcast use group_refs;

    lemma_names();
}

proof fn lemma_nullable(schema: JsonView, keys: Set<Seq<char>>)
    requires
        refs_resolve(schema, keys),
        schema is Object,
    ensures
        refs_resolve(nullable_view(schema), keys),
{
    broadcast use group_refs;

    lemma_names();
    if let Some(JsonView::Array(variants)) = schema.member("enum"@) {
        assert(refs_resolve(JsonView::Array(variants), keys)) by {
            reveal_with_fuel(refs_resolve, 1);
        }
        assert(JsonView::Array(variants).item(JsonView::Null) == JsonView::Array(
            variants.push(JsonView::Null),
        ));
    }
}

proof fn lemma_annotated(kind: FieldKind, notes: Seq<Seq<char>>, keys: Set<Seq<char>>)
    ensures
        refs_resolve(annotated_view(kind, notes), keys),
        annotated_view(kind, notes) is Object,
{
    broadcast use group_refs;

    lemma_names();
    lemma_field_schema(kind, keys);
}

proof fn lemma_closed_object(properties: JsonView, required: Seq<Seq<char>>, keys: Set<Seq<char>>)
    requires
        refs_resolve(properties, keys),
    ensures
        refs_resolve(closed_object_view(properties, required), keys),
        closed_object_view(properties, required) is Object,
{
    broadcast use group_refs;

    lemma_names();
}

proof fn lemma_input_properties(fields: Seq<(String, FieldKind)>, keys: Set<Seq<char>>)
    requires
        forall|i: int| 0 <= i < fields.len() ==> (#[trigger] fields[i]).0@ != "$ref"@,
    ensures
        refs_resolve(input_properties(fields), keys),
        input_properties(fields) is Object,
    decreases fields.len(),
{
    broadcast use group_refs;

    if fields.len() > 0 {
        lemma_input_properties(fields.drop_last(), keys);
        let last = fields[fields.len() - 1];
        assert(last.0@ != "$ref"@);
        lemma_field_schema(last.1, keys);
        lemma_nullable(field_schema_view(last.1), keys);
    }
}

proof fn lemma_command_path(name: Seq<char>, schema: InputSchema, keys: Set<Seq<char>>)
    requires
        knows_fixed(keys),
        forall|i: int| 0 <= i < schema.fields.len() ==> (#[trigger] schema.fields@[i]).0@ != "$ref"@,
    ensures
        refs_resolve(command_path_view(name, schema), keys),
        command_path_view(name, schema) is Object,
{
    broadcast use {group_refs, group_parts};

    lemma_names();
    lemma_input_properties(schema.fields@, keys);
    lemma_closed_object(input_properties(schema.fields@), required_inputs(schema.fields@), keys);
}

proof fn lemma_wait_params(list: JsonView, wait: Wait, keys: Set<Seq<char>>)
    requires
        list is Array,
        refs_resolve(list, keys),
    ensures
        refs_resolve(wait_params_view(list, wait), keys),
        wait_params_view(list, wait) is Array,
{
    broadcast use {group_refs, group_parts};

    lemma_names();
}

proof fn lemma_filter_params(
    list: JsonView,
    entity: EntityDef,
    fields: Seq<Seq<char>>,
    keys: Set<Seq<char>>,
)
    requires
        list is Array,
        refs_resolve(list, keys),
    ensures
        refs_resolve(filter_params_view(list, entity, fields), keys),
        filter_params_view(list, entity, fields) is Array,
    decreases fields.len(),
{
    broadcast use {group_refs, group_parts};

    if fields.len() > 0 {
        lemma_filter_params(list, entity, fields.drop_last(), keys);
        lemma_field_schema(field_named(entity.fields@, fields.last())->0.kind, keys);
    }
}

proof fn lemma_get_one_path(
    projector: Seq<char>,
    entity: EntityDef,
    key: Seq<char>,
    wait: Wait,
    keys: Set<Seq<char>>,
)
    requires
        knows_fixed(keys),
        keys.contains(key),
    ensures
        refs_resolve(get_one_path_view(projector, entity, key, wait), keys),
        get_one_path_view(projector, entity, key, wait) is Object,
{
    broadcast use {group_refs, group_parts};

    lemma_names();
    lemma_read_unavailable_response(keys);
    lemma_field_schema(key_kind_view(entity), keys);
    lemma_wait_params(
        JsonView::array().item(
            path_param_view(
                "key"@,
                "The row's `"@ + entity.key@ + "`."@,
                field_schema_view(key_kind_view(entity)),
            ),
        ),
        wait,
        keys,
    );
}

proof fn lemma_scan_params(entity: EntityDef, wait: Wait, keys: Set<Seq<char>>)
    ensures
        refs_resolve(scan_params_view(entity, wait), keys),
{
    broadcast use {group_refs, group_parts};

    lemma_names();
    let start = JsonView::array().item(
        query_param_view(
            "limit"@,
            limit_text_view(),
            unsigned_view().with("default"@, JsonView::Int(DEFAULT_LIMIT as int)),
        ),
    ).item(
        query_param_view(
            "cursor"@,
            "An opaque forward cursor from a previous page's `next_cursor`. Pagination is by key, never by offset, so rows are neither skipped nor repeated when the model changes between pages."@,
            JsonView::object().with("type"@, JsonView::Text("string"@)),
        ),
    );
    lemma_wait_params(start, wait, keys);
    lemma_filter_params(wait_params_view(start, wait), entity, distinct(filterable(entity)), keys);
}

proof fn lemma_scan_path(
    projector: Seq<char>,
    entity: EntityDef,
    key: Seq<char>,
    wait: Wait,
    keys: Set<Seq<char>>,
)
    requires
        knows_fixed(keys),
        keys.contains(key),
    ensures
        refs_resolve(scan_path_view(projector, entity, key, wait), keys),
        scan_path_view(projector, entity, key, wait) is Object,
{
    broadcast use {group_refs, group_parts};

    lemma_names();
    lemma_read_unavailable_response(keys);
    lemma_scan_params(entity, wait, keys);
}

proof fn lemma_event_field(meta: FieldMeta, keys: Set<Seq<char>>)
    ensures
        refs_resolve(event_field_view(meta), keys),
{
    broadcast use group_refs;

    lemma_names();
    lemma_annotated(meta.kind, event_notes(meta), keys);
}

proof fn lemma_event_properties(fields: Seq<(String, FieldMeta)>, keys: Set<Seq<char>>)
    requires
        forall|i: int| 0 <= i < fields.len() ==> (#[trigger] fields[i]).0@ != "$ref"@,
    ensures
        refs_resolve(event_properties(fields), keys),
        event_properties(fields) is Object,
    decreases fields.len(),
{
    broadcast use group_refs;

    if fields.len() > 0 {
        lemma_event_properties(fields.drop_last(), keys);
        lemma_event_field(fields.last().1, keys);
        assert(fields[fields.len() - 1].0@ != "$ref"@);
    }
}

proof fn lemma_event_schema(event_type: Seq<char>, def: EventDef, keys: Set<Seq<char>>)
    requires
        forall|i: int| 0 <= i < def.fields.len() ==> (#[trigger] def.fields@[i]).0@ != "$ref"@,
    ensures
        refs_resolve(event_schema_view(event_type, def), keys),
{
    broadcast use group_refs;

    lemma_names();
    lemma_event_properties(def.fields@, keys);
    lemma_closed_object(event_properties(def.fields@), event_required(def.fields@), keys);
}

proof fn lemma_entity_field(entity: EntityDef, name: Seq<char>, meta: FieldMeta, keys: Set<Seq<char>>)
    ensures
        refs_resolve(entity_field_view(entity, name, meta), keys),
{
    broadcast use group_refs;

    lemma_names();
    lemma_annotated(meta.kind, entity_notes(entity, name, meta), keys);
}

proof fn lemma_entity_properties(
    entity: EntityDef,
    fields: Seq<(String, FieldMeta)>,
    keys: Set<Seq<char>>,
)
    requires
        forall|i: int| 0 <= i < fields.len() ==> (#[trigger] fields[i]).0@ != "$ref"@,
    ensures
        refs_resolve(entity_properties(entity, fields), keys),
        entity_properties(entity, fields) is Object,
    decreases fields.len(),
{
    broadcast use group_refs;

    if fields.len() > 0 {
        lemma_entity_properties(entity, fields.drop_last(), keys);
        lemma_entity_field(entity, fields.last().0@, fields.last().1, keys);
        assert(fields[fields.len() - 1].0@ != "$ref"@);
    }
}

proof fn lemma_indexes(indexes: Seq<IndexDef>, keys: Set<Seq<char>>)
    ensures
        refs_resolve(indexes_view(indexes), keys),
        indexes_view(indexes) is Array,
    decreases indexes.len(),
{
    broadcast use group_refs;

    lemma_names();
    if indexes.len() > 0 {
        lemma_indexes(indexes.drop_last(), keys);
    }
}

proof fn lemma_entity_schema(projector: Seq<char>, entity: EntityDef, keys: Set<Seq<char>>)
    requires
        forall|i: int| 0 <= i < entity.fields.len() ==> (#[trigger] entity.fields@[i]).0@ != "$ref"@,
    ensures
        refs_resolve(entity_schema_view(projector, entity), keys),
{
    broadcast use group_refs;

    lemma_names();
    lemma_entity_properties(entity, entity.fields@, keys);
    lemma_closed_object(
        entity_properties(entity, entity.fields@),
        entity_required(entity.fields@),
        keys,
    );
    lemma_indexes(entity.indexes@, keys);
}

// ---------------------------------------------------------------------------
// The whole document
// ---------------------------------------------------------------------------

/// Whether no declared field has the name that a reference has in a document.
pub open spec fn plainly_named(surface: Surface) -> bool {
    &&& forall|i: int, j: int|
        0 <= i < surface.commands.len() && 0 <= j < surface.commands@[i].1.fields.len() ==> (
        #[trigger] surface.commands@[i].1.fields@[j]).0@ != "$ref"@
    &&& forall|i: int, j: int|
        0 <= i < surface.events.len() && 0 <= j < surface.events@[i].1.fields.len() ==> (
        #[trigger] surface.events@[i].1.fields@[j]).0@ != "$ref"@
    &&& forall|k: int, j: int|
        0 <= k < served(surface.projectors@).len() && 0 <= j < served(
            surface.projectors@,
        )[k].1.fields.len() ==> (#[trigger] served(surface.projectors@)[k].1.fields@[j]).0@
            != "$ref"@
}

/// The names of the schemas of a document.
pub open spec fn schema_names(components: JsonView) -> Set<Seq<char>> {
    Set::new(|name: Seq<char>| components.member(name) is Some)
}

/// What the components have, they keep: the schemas that are always present, and one under
/// the key of each of the first events.
proof fn lemma_event_keys(
    events: Seq<(Seq<char>, EventDef)>,
    entities: Seq<(Seq<char>, EntityDef)>,
    upto: nat,
)
    requires
        upto <= events.len(),
    ensures
        event_components(events, entities, upto) is Object,
        knows_fixed(schema_names(event_components(events, entities, upto))),
    decreases upto,
{
    if upto > 0 {
        lemma_event_keys(events, entities, (upto - 1) as nat);
    }
}

proof fn lemma_entity_keys(
    events: Seq<(Seq<char>, EventDef)>,
    entities: Seq<(Seq<char>, EntityDef)>,
    upto: nat,
)
    requires
        upto <= entities.len(),
    ensures
        entity_components(events, entities, upto) is Object,
        knows_fixed(schema_names(entity_components(events, entities, upto))),
        forall|i: int|
            0 <= i < upto ==> entity_components(events, entities, upto).member(
                entity_key(events, entities, (#[trigger] entities[i]).0, entities[i].1.name@),
            ) is Some,
    decreases upto,
{
    if upto == 0 {
        lemma_event_keys(events, entities, events.len());
    } else {
        lemma_entity_keys(events, entities, (upto - 1) as nat);
    }
}

/// A component key is never that of a reference: it begins with what it is a key of, or is
/// one of the names that are always present.
proof fn lemma_key_is_plain(candidate: Seq<char>, n: nat)
    requires
        candidate.len() > 0,
        candidate[0] != '$',
    ensures
        numbered(candidate, n) != "$ref"@,
{
    reveal_strlit("$ref");
    assert("$ref"@[0] == '$');
    assert(numbered(candidate, n)[0] == candidate[0]);
}

proof fn lemma_claims_are_plain(taken: Seq<Seq<char>>, candidates: Seq<Seq<char>>)
    requires
        forall|i: int|
            0 <= i < candidates.len() ==> (#[trigger] candidates[i]).len() > 0 && candidates[i][0]
                != '$',
    ensures
        claims(taken, candidates).len() == candidates.len(),
        forall|i: int|
            0 <= i < candidates.len() ==> #[trigger] claims(taken, candidates)[i] != "$ref"@,
    decreases candidates.len(),
{
    if candidates.len() > 0 {
        let rest = candidates.drop_last();
        assert forall|i: int| 0 <= i < rest.len() implies (#[trigger] rest[i]).len() > 0
            && rest[i][0] != '$' by {
            assert(rest[i] == candidates[i]);
        }
        lemma_claims_are_plain(taken, rest);
        let last = candidates[candidates.len() - 1];
        let busy = taken + claims(taken, rest);
        lemma_key_is_plain(last, choose|n: nat| first_free(busy, last, n));
    }
}

proof fn lemma_component_keys_are_plain(
    events: Seq<(Seq<char>, EventDef)>,
    entities: Seq<(Seq<char>, EntityDef)>,
)
    ensures
        component_keys(events, entities).len() == events.len() + entities.len(),
        forall|i: int|
            0 <= i < events.len() + entities.len() ==> #[trigger] component_keys(events, entities)[i]
                != "$ref"@,
{
    let candidates = component_candidates(events, entities);
    reveal_strlit("event.");
    reveal_strlit("entity.");
    assert("event."@[0] == 'e');
    assert("entity."@[0] == 'e');
    assert forall|i: int| 0 <= i < candidates.len() implies (#[trigger] candidates[i]).len() > 0
        && candidates[i][0] != '$' by {
        if i < events.len() {
            assert(candidates[i] == event_candidate(events[i].0));
        } else {
            let entity = entities[i - events.len()];
            assert(candidates[i] == entity_candidate(entity.0, entity.1.name@));
        }
    }
    lemma_claims_are_plain(fixed_schemas(), candidates);
}

proof fn lemma_event_components_resolve(
    events: Seq<(Seq<char>, EventDef)>,
    entities: Seq<(Seq<char>, EntityDef)>,
    upto: nat,
    keys: Set<Seq<char>>,
)
    requires
        upto <= events.len(),
        knows_fixed(keys),
        forall|i: int, j: int|
            0 <= i < events.len() && 0 <= j < events[i].1.fields.len() ==> (
            #[trigger] events[i].1.fields@[j]).0@ != "$ref"@,
    ensures
        refs_resolve(event_components(events, entities, upto), keys),
        event_components(events, entities, upto) is Object,
    decreases upto,
{
    broadcast use group_refs;

    if upto == 0 {
        lemma_names();
        lemma_error_detail_schema(keys);
        lemma_error_schema(keys);
        lemma_command_error_schema(keys);
        lemma_command_accepted_schema(keys);
        lemma_emitted_event_schema(event_types(events), keys);
        lemma_status_schema(keys);
        lemma_projector_status_schema(keys);
        lemma_effect_status_schema(keys);
    } else {
        lemma_event_components_resolve(events, entities, (upto - 1) as nat, keys);
        let event = events[upto - 1];
        lemma_component_keys_are_plain(events, entities);
        let wanted = |one: (Seq<char>, EventDef)| one.0 == event.0;
        lemma_place_exists(events, wanted, upto - 1);
        lemma_place(events, wanted);
        let at = place_of(events, wanted)->0;
        assert(event_key(events, entities, event.0) == component_keys(events, entities)[at]);
        assert forall|j: int| 0 <= j < event.1.fields.len() implies (
        #[trigger] event.1.fields@[j]).0@ != "$ref"@ by {
            assert(events[upto - 1].1.fields@[j].0@ != "$ref"@);
        }
        lemma_event_schema(event.0, event.1, keys);
    }
}

proof fn lemma_entity_components_resolve(
    events: Seq<(Seq<char>, EventDef)>,
    entities: Seq<(Seq<char>, EntityDef)>,
    upto: nat,
    keys: Set<Seq<char>>,
)
    requires
        upto <= entities.len(),
        knows_fixed(keys),
        forall|i: int, j: int|
            0 <= i < events.len() && 0 <= j < events[i].1.fields.len() ==> (
            #[trigger] events[i].1.fields@[j]).0@ != "$ref"@,
        forall|i: int, j: int|
            0 <= i < entities.len() && 0 <= j < entities[i].1.fields.len() ==> (
            #[trigger] entities[i].1.fields@[j]).0@ != "$ref"@,
    ensures
        refs_resolve(entity_components(events, entities, upto), keys),
        entity_components(events, entities, upto) is Object,
    decreases upto,
{
    broadcast use group_refs;

    if upto == 0 {
        lemma_event_components_resolve(events, entities, events.len(), keys);
    } else {
        lemma_entity_components_resolve(events, entities, (upto - 1) as nat, keys);
        let entity = entities[upto - 1];
        lemma_component_keys_are_plain(events, entities);
        let wanted = |one: (Seq<char>, EntityDef)|
            one.0 == entity.0 && one.1.name@ == entity.1.name@;
        lemma_place_exists(entities, wanted, upto - 1);
        lemma_place(entities, wanted);
        let at = place_of(entities, wanted)->0;
        assert(entity_key(events, entities, entity.0, entity.1.name@) == component_keys(
            events,
            entities,
        )[events.len() + at]);
        assert forall|j: int| 0 <= j < entity.1.fields.len() implies (
        #[trigger] entity.1.fields@[j]).0@ != "$ref"@ by {
            assert(entities[upto - 1].1.fields@[j].0@ != "$ref"@);
        }
        lemma_entity_schema(entity.0, entity.1, keys);
    }
}

proof fn lemma_tags(projectors: Seq<ProjectorSurface>, keys: Set<Seq<char>>)
    ensures
        refs_resolve(projector_tags(projectors), keys),
        projector_tags(projectors) is Array,
    decreases projectors.len(),
{
    broadcast use group_refs;

    lemma_names();
    if projectors.len() > 0 {
        lemma_tags(projectors.drop_last(), keys);
    }
}

/// Whether what is said of a route is an object whose references resolve, under a path and
/// a method of its own.
pub open spec fn route_resolves(route: RouteView, keys: Set<Seq<char>>) -> bool {
    &&& route.body is Object
    &&& refs_resolve(route.body, keys)
    &&& route.path != "$ref"@
    &&& route.method != "$ref"@
}

proof fn lemma_read_routes(
    events: Seq<(Seq<char>, EventDef)>,
    entities: Seq<(Seq<char>, EntityDef)>,
    wait: Wait,
    upto: nat,
    keys: Set<Seq<char>>,
)
    requires
        upto <= entities.len(),
        knows_fixed(keys),
        forall|i: int|
            0 <= i < entities.len() ==> keys.contains(
                entity_key(events, entities, (#[trigger] entities[i]).0, entities[i].1.name@),
            ),
    ensures
        forall|i: int|
            0 <= i < read_routes(events, entities, wait, upto).len() ==> route_resolves(
                #[trigger] read_routes(events, entities, wait, upto)[i],
                keys,
            ),
    decreases upto,
{
    if upto > 0 {
        lemma_read_routes(events, entities, wait, (upto - 1) as nat, keys);
        let (projector, entity) = entities[upto - 1];
        let key = entity_key(events, entities, projector, entity.name@);
        assert(entities[upto - 1].0 == projector);
        lemma_scan_path(projector, entity, key, wait, keys);
        lemma_get_one_path(projector, entity, key, wait, keys);
        lemma_plain_literals();
        let before = read_routes(events, entities, wait, (upto - 1) as nat);
        let all = read_routes(events, entities, wait, upto);
        lemma_starts_plainly("/read/"@, projector + "/"@ + entity.name@);
        lemma_starts_plainly("/read/"@, projector + "/"@ + entity.name@ + "/{key}"@);
        assert("/read/"@ + projector + "/"@ + entity.name@ =~= "/read/"@ + (projector + "/"@
            + entity.name@));
        assert("/read/"@ + projector + "/"@ + entity.name@ + "/{key}"@ =~= "/read/"@ + (projector
            + "/"@ + entity.name@ + "/{key}"@));
        assert forall|i: int| 0 <= i < all.len() implies route_resolves(#[trigger] all[i], keys) by {
            if i < before.len() {
                assert(all[i] == before[i]);
            }
        }
    }
}

/// The words that paths and methods begin with.
proof fn lemma_plain_literals()
    ensures
        "/read/"@.len() > 0,
        "/read/"@[0] == '/',
        "/commands/"@.len() > 0,
        "/commands/"@[0] == '/',
        "get"@ != "$ref"@,
        "post"@ != "$ref"@,
        REPLAY_ROUTE@ != "$ref"@,
        SKIP_ROUTE@ != "$ref"@,
        STATUS_ROUTE@ != "$ref"@,
        HEALTH_ROUTE@ != "$ref"@,
        OPENAPI_ROUTE@ != "$ref"@,
        DOCS_ROUTE@ != "$ref"@,
{
    reveal_strlit("$ref");
    assert("$ref"@[0] == '$');
    reveal_strlit("/read/");
    assert("/read/"@[0] == '/');
    reveal_strlit("/commands/");
    assert("/commands/"@[0] == '/');
    reveal_strlit("get");
    assert("get"@[0] == 'g');
    reveal_strlit("post");
    assert("post"@[0] == 'p');
    reveal_strlit("/projectors/{name}/replay");
    assert("/projectors/{name}/replay"@[0] == '/');
    reveal_strlit("/effects/{name}/skip/{position}");
    assert("/effects/{name}/skip/{position}"@[0] == '/');
    reveal_strlit("/status");
    assert("/status"@[0] == '/');
    reveal_strlit("/health");
    assert("/health"@[0] == '/');
    reveal_strlit("/openapi.json");
    assert("/openapi.json"@[0] == '/');
    reveal_strlit("/docs");
    assert("/docs"@[0] == '/');
}

proof fn lemma_starts_plainly(start: Seq<char>, rest: Seq<char>)
    requires
        start.len() > 0,
        start[0] == '/',
    ensures
        start + rest != "$ref"@,
{
    reveal_strlit("$ref");
    assert("$ref"@[0] == '$');
    assert((start + rest)[0] == '/');
}

proof fn lemma_routes(surface: Surface, wait: Wait, keys: Set<Seq<char>>)
    requires
        plainly_named(surface),
        knows_fixed(keys),
        forall|i: int|
            0 <= i < served(surface.projectors@).len() ==> keys.contains(
                entity_key(
                    named_views(surface.events@),
                    served(surface.projectors@),
                    (#[trigger] served(surface.projectors@)[i]).0,
                    served(surface.projectors@)[i].1.name@,
                ),
            ),
    ensures
        forall|i: int|
            0 <= i < routes(surface, wait).len() ==> route_resolves(
                #[trigger] routes(surface, wait)[i],
                keys,
            ),
{
    let events = named_views(surface.events@);
    let entities = served(surface.projectors@);
    let commands = named_views(surface.commands@);
    let first = command_routes(commands);
    let second = read_routes(events, entities, wait, entities.len());
    let third = operation_routes(
        projector_names_view(surface.projectors@),
        effect_names_view(surface.effects@),
    );
    lemma_plain_literals();
    lemma_read_routes(events, entities, wait, entities.len(), keys);
    lemma_replay_path(projector_names_view(surface.projectors@), keys);
    lemma_skip_path(effect_names_view(surface.effects@), keys);
    lemma_status_path(keys);
    lemma_health_path(keys);
    lemma_openapi_path(keys);
    lemma_docs_path(keys);
    let all = routes(surface, wait);
    assert forall|i: int| 0 <= i < all.len() implies route_resolves(#[trigger] all[i], keys) by {
        if i < first.len() {
            let (name, schema) = commands[i];
            assert(schema == *surface.commands@[i].1);
            assert forall|j: int| 0 <= j < schema.fields.len() implies (
            #[trigger] schema.fields@[j]).0@ != "$ref"@ by {
                assert(surface.commands@[i].1.fields@[j].0@ != "$ref"@);
            }
            lemma_command_path(name, schema, keys);
            lemma_starts_plainly("/commands/"@, name);
            assert(all[i] == first[i]);
        } else if i < first.len() + second.len() {
            assert(all[i] == second[i - first.len()]);
        } else {
            assert(all[i] == third[i - first.len() - second.len()]);
        }
    }
}

proof fn lemma_last_of_each_within(routes: Seq<RouteView>)
    ensures
        forall|i: int|
            0 <= i < last_of_each(routes).len() ==> routes.contains(#[trigger] last_of_each(routes)[i]),
    decreases routes.len(),
{
    if routes.len() > 0 {
        let rest = routes.skip(1);
        lemma_last_of_each_within(rest);
        let all = last_of_each(routes);
        let later = last_of_each(rest);
        assert forall|i: int| 0 <= i < all.len() implies routes.contains(#[trigger] all[i]) by {
            if i < later.len() {
                assert(all[i] == later[i]);
                let k = choose|k: int| 0 <= k < rest.len() && rest[k] == later[i];
                assert(routes[k + 1] == all[i]);
            } else {
                assert(routes[0] == all[i]);
            }
        }
    }
}

proof fn lemma_paths(list: Seq<RouteView>, ids: Seq<Seq<char>>, upto: nat, keys: Set<Seq<char>>)
    requires
        upto <= list.len(),
        forall|i: int| 0 <= i < list.len() ==> route_resolves(#[trigger] list[i], keys),
    ensures
        refs_resolve(path_items(list, ids, upto), keys),
        path_items(list, ids, upto) is Object,
    decreases upto,
{
    broadcast use group_refs;

    lemma_names();
    if upto > 0 {
        lemma_paths(list, ids, (upto - 1) as nat, keys);
        assert(route_resolves(list[upto - 1], keys));
    }
}

/// Every reference in the document names a schema of it, whatever the project declares.
/// Only a field that is itself called as a reference is could be taken for one.
pub proof fn law_every_reference_resolves(surface: Surface, settings: Settings)
    requires
        plainly_named(surface),
    ensures
        refs_resolve(
            document(surface, settings),
            schema_names(components(named_views(surface.events@), served(surface.projectors@))),
        ),
{
    broadcast use group_refs;

    lemma_names();
    let events = named_views(surface.events@);
    let entities = served(surface.projectors@);
    let keys = schema_names(components(events, entities));
    lemma_entity_keys(events, entities, entities.len());
    assert forall|i: int| 0 <= i < entities.len() implies keys.contains(
        entity_key(events, entities, (#[trigger] entities[i]).0, entities[i].1.name@),
    ) by {}
    assert forall|i: int, j: int| 0 <= i < events.len() && 0 <= j < events[i].1.fields.len() implies (
    #[trigger] events[i].1.fields@[j]).0@ != "$ref"@ by {
        assert(events[i].1 == *surface.events@[i].1);
        assert(surface.events@[i].1.fields@[j].0@ != "$ref"@);
    }
    lemma_entity_components_resolve(events, entities, entities.len(), keys);
    lemma_tags(surface.projectors@, keys);
    lemma_routes(surface, settings.wait, keys);
    let all = routes(surface, settings.wait);
    let list = listed(all);
    lemma_last_of_each_within(all);
    assert forall|i: int| 0 <= i < list.len() implies route_resolves(#[trigger] list[i], keys) by {
        lemma_sorted_contains(last_of_each(all), by_path(), list[i]);
        assert(list.contains(list[i]));
        let k = choose|k: int|
            0 <= k < last_of_each(all).len() && last_of_each(all)[k] == list[i];
        assert(all.contains(last_of_each(all)[k]));
        let r = choose|r: int| 0 <= r < all.len() && all[r] == list[i];
        assert(route_resolves(all[r], keys));
    }
    lemma_paths(list, operation_ids(list), list.len(), keys);
}

// ---------------------------------------------------------------------------
// Tags
// ---------------------------------------------------------------------------

/// The tags that the document declares.
pub open spec fn declared_tags(surface: Surface) -> Seq<Seq<char>> {
    seq![COMMANDS_TAG@] + projector_names_view(surface.projectors@).map_values(
        |name: Seq<char>| read_tag_view(name),
    ) + seq![OPERATIONS_TAG@]
}

/// The names of a list of tags.
pub open spec fn tag_names(tags: JsonView) -> Seq<Option<JsonView>> {
    match tags {
        JsonView::Array(items) => items.map_values(|tag: JsonView| tag.member("name"@)),
        _ => Seq::empty(),
    }
}

/// No member of an operation but its tags is called so.
proof fn lemma_not_tags()
    ensures
        "summary"@ != "tags"@,
        "description"@ != "tags"@,
        "parameters"@ != "tags"@,
        "requestBody"@ != "tags"@,
        "responses"@ != "tags"@,
        "description"@ != "name"@,
{
    reveal_strlit("tags");
    reveal_strlit("summary");
    reveal_strlit("description");
    reveal_strlit("parameters");
    reveal_strlit("requestBody");
    reveal_strlit("responses");
    reveal_strlit("name");
    assert("tags"@[0] == 't');
    assert("summary"@[0] == 's');
    assert("description"@[0] == 'd');
    assert("parameters"@[0] == 'p');
    assert("requestBody"@[0] == 'r');
    assert("responses"@[0] == 'r');
    assert("name"@[0] == 'n');
}

proof fn lemma_tag_names(projectors: Seq<ProjectorSurface>)
    ensures
        projector_tags(projectors) is Array,
        tag_names(projector_tags(projectors)) == (seq![COMMANDS_TAG@] + projector_names_view(
            projectors,
        ).map_values(|name: Seq<char>| read_tag_view(name))).map_values(
            |name: Seq<char>| Some(JsonView::Text(name)),
        ),
    decreases projectors.len(),
{
    lemma_not_tags();
    let names = (seq![COMMANDS_TAG@] + projector_names_view(projectors).map_values(
        |name: Seq<char>| read_tag_view(name),
    )).map_values(|name: Seq<char>| Some(JsonView::Text(name)));
    if projectors.len() == 0 {
        assert(tag_names(projector_tags(projectors)) =~= names);
    } else {
        let rest = projectors.drop_last();
        lemma_tag_names(rest);
        let before = (seq![COMMANDS_TAG@] + projector_names_view(rest).map_values(
            |name: Seq<char>| read_tag_view(name),
        )).map_values(|name: Seq<char>| Some(JsonView::Text(name)));
        let last = Some(JsonView::Text(read_tag_view(projectors.last().name@)));
        assert(tag_names(projector_tags(projectors)) =~= tag_names(projector_tags(rest)).push(last));
        assert(names =~= before.push(last));
    }
}

/// The tags are declared in the order that a page should show them: commands, each
/// projector's read model, and the operator endpoints.
pub proof fn law_tags_are_declared_in_order(surface: Surface)
    ensures
        tag_names(tags_view(surface.projectors@)) == declared_tags(surface).map_values(
            |name: Seq<char>| Some(JsonView::Text(name)),
        ),
{
    lemma_not_tags();
    lemma_tag_names(surface.projectors@);
    let front = seq![COMMANDS_TAG@] + projector_names_view(surface.projectors@).map_values(
        |name: Seq<char>| read_tag_view(name),
    );
    let last = Some(JsonView::Text(OPERATIONS_TAG@));
    assert(tag_names(tags_view(surface.projectors@)) =~= tag_names(
        projector_tags(surface.projectors@),
    ).push(last));
    assert(declared_tags(surface).map_values(|name: Seq<char>| Some(JsonView::Text(name)))
        =~= front.map_values(|name: Seq<char>| Some(JsonView::Text(name))).push(last));
    assert(tag_names(tags_view(surface.projectors@)) =~= declared_tags(surface).map_values(
        |name: Seq<char>| Some(JsonView::Text(name)),
    ));
}

proof fn lemma_read_route_tags(
    events: Seq<(Seq<char>, EventDef)>,
    entities: Seq<(Seq<char>, EntityDef)>,
    wait: Wait,
    upto: nat,
    at: int,
) -> (tag: Seq<char>)
    requires
        upto <= entities.len(),
        0 <= at < read_routes(events, entities, wait, upto).len(),
    ensures
        read_routes(events, entities, wait, upto)[at].body.member("tags"@) == Some(
            JsonView::array().item(JsonView::Text(tag)),
        ),
        exists|k: int| 0 <= k < upto && tag == read_tag_view((#[trigger] entities[k]).0),
    decreases upto,
{
    lemma_not_tags();
    let before = read_routes(events, entities, wait, (upto - 1) as nat);
    if at < before.len() {
        lemma_read_route_tags(events, entities, wait, (upto - 1) as nat, at)
    } else {
        assert(read_tag_view(entities[upto - 1].0) == read_tag_view(entities[upto - 1].0));
        read_tag_view(entities[upto - 1].0)
    }
}

proof fn lemma_served_by(projectors: Seq<ProjectorSurface>, at: int) -> (k: int)
    requires
        0 <= at < served(projectors).len(),
    ensures
        0 <= k < projectors.len(),
        served(projectors)[at].0 == projectors[k].name@,
    decreases projectors.len(),
{
    let rest = projectors.drop_last();
    if at < served(rest).len() {
        lemma_served_by(rest, at)
    } else {
        projectors.len() - 1
    }
}

/// Every operation has one tag, and every tag that is used is declared.
pub proof fn law_every_operation_is_tagged(surface: Surface, wait: Wait, at: int)
    requires
        0 <= at < routes(surface, wait).len(),
    ensures
        exists|tag: Seq<char>| #[trigger]
            declared_tags(surface).contains(tag) && routes(surface, wait)[at].body.member("tags"@)
                == Some(JsonView::array().item(JsonView::Text(tag))),
{
    lemma_not_tags();
    let events = named_views(surface.events@);
    let entities = served(surface.projectors@);
    let first = command_routes(named_views(surface.commands@));
    let second = read_routes(events, entities, wait, entities.len());
    let third = operation_routes(
        projector_names_view(surface.projectors@),
        effect_names_view(surface.effects@),
    );
    let all = routes(surface, wait);
    let tags = declared_tags(surface);
    assert(tags[0] == COMMANDS_TAG@);
    assert(tags[tags.len() - 1] == OPERATIONS_TAG@);
    if at < first.len() {
        assert(all[at] == first[at]);
        assert(tags.contains(COMMANDS_TAG@));
    } else if at < first.len() + second.len() {
        let i = at - first.len();
        assert(all[at] == second[i]);
        let tag = lemma_read_route_tags(events, entities, wait, entities.len(), i);
        let k = choose|k: int| 0 <= k < entities.len() && tag == read_tag_view((#[trigger] entities[k]).0);
        let p = lemma_served_by(surface.projectors@, k);
        assert(tags[p + 1] == tag);
        assert(tags.contains(tag));
    } else {
        assert(all[at] == third[at - first.len() - second.len()]);
        assert(tags.contains(OPERATIONS_TAG@));
    }
}

} // verus!
