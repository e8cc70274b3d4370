//! The document of the interface: which fields it says must be sent, how it says that values
//! travel, and under which path each command and each entity is found.

use vstd::prelude::*;

use crate::json::JsonView;
use crate::laws::texts::{lemma_joined_part, lemma_part_behind, lemma_part_in_front, lemma_part_of_itself};
use crate::list::distinct;
use crate::openapi::fields::{annotated_view, field_schema_view};
use crate::openapi::names::{claimed, component_view, identifier_view, lemma_claimed};
use crate::openapi::parts::{
    emitted_event_schema_view, name_schema_view, position_schema_view, query_param_view, replay_path_view, schema_ref_view,
    skip_path_view,
};
use crate::openapi::{
    by_path, clause_types, command_path_view, command_routes, document, entity_field_view, entity_key, entity_notes,
    entity_properties, entity_required, entity_schema_view, event_field_view, event_notes, event_properties,
    event_required, event_schema_view, fixed_components, filter_param_view, filter_params_view, get_one_params_view, get_one_path_view,
    indexes_view, input_properties, input_property, input_schema_view, last_of_each, listed, materialises, built_from,
    operation_ids, operation_routes, path_items, projector_tag_view, paths_view, project_effects, project_projectors, public_commands, read_routes,
    required_inputs, routes, scan_params_view, scan_path_view, served, subscribed, components, named_views, tags_view,
    ProjectorSurface, RouteView, Settings, Surface, Unit, Wait,
};
use crate::order::{lemma_sorted_contains, lemma_sorted_keeps, sorted, text_order};
use crate::projector::EventSpec;
use crate::read_api::filterable;
use crate::schema::{field_named, EntityDef, EventDef, FieldKind, FieldMeta, IndexDef, InputSchema, ModuleDef};
use crate::text::{has_part, joined, views};

verus! {

/// The words of a schema are different words.
proof fn lemma_schema_words()
    ensures
        "type"@ != "maxLength"@,
        "type"@ != "format"@,
        "type"@ != "description"@,
        "type"@ != "enum"@,
        "type"@ != "minimum"@,
        "type"@ != "x-hekla-indexed"@,
        "type"@ != "x-hekla-unique"@,
        "type"@ != "x-hekla-subject"@,
        "type"@ != "x-hekla-filterable"@,
        "type"@ != "x-hekla-is-key"@,
        "type"@ != "title"@,
        "type"@ != "properties"@,
        "type"@ != "required"@,
        "type"@ != "additionalProperties"@,
        "type"@ != "x-hekla-key"@,
        "type"@ != "x-hekla-indexes"@,
        "maxLength"@ != "format"@,
        "maxLength"@ != "description"@,
        "maxLength"@ != "enum"@,
        "maxLength"@ != "minimum"@,
        "maxLength"@ != "x-hekla-indexed"@,
        "maxLength"@ != "x-hekla-unique"@,
        "maxLength"@ != "x-hekla-subject"@,
        "maxLength"@ != "x-hekla-filterable"@,
        "maxLength"@ != "x-hekla-is-key"@,
        "maxLength"@ != "title"@,
        "maxLength"@ != "properties"@,
        "maxLength"@ != "required"@,
        "maxLength"@ != "additionalProperties"@,
        "maxLength"@ != "x-hekla-key"@,
        "maxLength"@ != "x-hekla-indexes"@,
        "format"@ != "description"@,
        "format"@ != "enum"@,
        "format"@ != "minimum"@,
        "format"@ != "x-hekla-indexed"@,
        "format"@ != "x-hekla-unique"@,
        "format"@ != "x-hekla-subject"@,
        "format"@ != "x-hekla-filterable"@,
        "format"@ != "x-hekla-is-key"@,
        "format"@ != "title"@,
        "format"@ != "properties"@,
        "format"@ != "required"@,
        "format"@ != "additionalProperties"@,
        "format"@ != "x-hekla-key"@,
        "format"@ != "x-hekla-indexes"@,
        "description"@ != "enum"@,
        "description"@ != "minimum"@,
        "description"@ != "x-hekla-indexed"@,
        "description"@ != "x-hekla-unique"@,
        "description"@ != "x-hekla-subject"@,
        "description"@ != "x-hekla-filterable"@,
        "description"@ != "x-hekla-is-key"@,
        "description"@ != "title"@,
        "description"@ != "properties"@,
        "description"@ != "required"@,
        "description"@ != "additionalProperties"@,
        "description"@ != "x-hekla-key"@,
        "description"@ != "x-hekla-indexes"@,
        "enum"@ != "minimum"@,
        "enum"@ != "x-hekla-indexed"@,
        "enum"@ != "x-hekla-unique"@,
        "enum"@ != "x-hekla-subject"@,
        "enum"@ != "x-hekla-filterable"@,
        "enum"@ != "x-hekla-is-key"@,
        "enum"@ != "title"@,
        "enum"@ != "properties"@,
        "enum"@ != "required"@,
        "enum"@ != "additionalProperties"@,
        "enum"@ != "x-hekla-key"@,
        "enum"@ != "x-hekla-indexes"@,
        "minimum"@ != "x-hekla-indexed"@,
        "minimum"@ != "x-hekla-unique"@,
        "minimum"@ != "x-hekla-subject"@,
        "minimum"@ != "x-hekla-filterable"@,
        "minimum"@ != "x-hekla-is-key"@,
        "minimum"@ != "title"@,
        "minimum"@ != "properties"@,
        "minimum"@ != "required"@,
        "minimum"@ != "additionalProperties"@,
        "minimum"@ != "x-hekla-key"@,
        "minimum"@ != "x-hekla-indexes"@,
        "x-hekla-indexed"@ != "x-hekla-unique"@,
        "x-hekla-indexed"@ != "x-hekla-subject"@,
        "x-hekla-indexed"@ != "x-hekla-filterable"@,
        "x-hekla-indexed"@ != "x-hekla-is-key"@,
        "x-hekla-indexed"@ != "title"@,
        "x-hekla-indexed"@ != "properties"@,
        "x-hekla-indexed"@ != "required"@,
        "x-hekla-indexed"@ != "additionalProperties"@,
        "x-hekla-indexed"@ != "x-hekla-key"@,
        "x-hekla-indexed"@ != "x-hekla-indexes"@,
        "x-hekla-unique"@ != "x-hekla-subject"@,
        "x-hekla-unique"@ != "x-hekla-filterable"@,
        "x-hekla-unique"@ != "x-hekla-is-key"@,
        "x-hekla-unique"@ != "title"@,
        "x-hekla-unique"@ != "properties"@,
        "x-hekla-unique"@ != "required"@,
        "x-hekla-unique"@ != "additionalProperties"@,
        "x-hekla-unique"@ != "x-hekla-key"@,
        "x-hekla-unique"@ != "x-hekla-indexes"@,
        "x-hekla-subject"@ != "x-hekla-filterable"@,
        "x-hekla-subject"@ != "x-hekla-is-key"@,
        "x-hekla-subject"@ != "title"@,
        "x-hekla-subject"@ != "properties"@,
        "x-hekla-subject"@ != "required"@,
        "x-hekla-subject"@ != "additionalProperties"@,
        "x-hekla-subject"@ != "x-hekla-key"@,
        "x-hekla-subject"@ != "x-hekla-indexes"@,
        "x-hekla-filterable"@ != "x-hekla-is-key"@,
        "x-hekla-filterable"@ != "title"@,
        "x-hekla-filterable"@ != "properties"@,
        "x-hekla-filterable"@ != "required"@,
        "x-hekla-filterable"@ != "additionalProperties"@,
        "x-hekla-filterable"@ != "x-hekla-key"@,
        "x-hekla-filterable"@ != "x-hekla-indexes"@,
        "x-hekla-is-key"@ != "title"@,
        "x-hekla-is-key"@ != "properties"@,
        "x-hekla-is-key"@ != "required"@,
        "x-hekla-is-key"@ != "additionalProperties"@,
        "x-hekla-is-key"@ != "x-hekla-key"@,
        "x-hekla-is-key"@ != "x-hekla-indexes"@,
        "title"@ != "properties"@,
        "title"@ != "required"@,
        "title"@ != "additionalProperties"@,
        "title"@ != "x-hekla-key"@,
        "title"@ != "x-hekla-indexes"@,
        "properties"@ != "required"@,
        "properties"@ != "additionalProperties"@,
        "properties"@ != "x-hekla-key"@,
        "properties"@ != "x-hekla-indexes"@,
        "required"@ != "additionalProperties"@,
        "required"@ != "x-hekla-key"@,
        "required"@ != "x-hekla-indexes"@,
        "additionalProperties"@ != "x-hekla-key"@,
        "additionalProperties"@ != "x-hekla-indexes"@,
        "x-hekla-key"@ != "x-hekla-indexes"@,
{
    reveal_strlit("type");
    reveal_strlit("maxLength");
    reveal_strlit("format");
    reveal_strlit("description");
    reveal_strlit("enum");
    reveal_strlit("minimum");
    reveal_strlit("x-hekla-indexed");
    reveal_strlit("x-hekla-unique");
    reveal_strlit("x-hekla-subject");
    reveal_strlit("x-hekla-filterable");
    reveal_strlit("x-hekla-is-key");
    reveal_strlit("title");
    reveal_strlit("properties");
    reveal_strlit("required");
    reveal_strlit("additionalProperties");
    reveal_strlit("x-hekla-key");
    reveal_strlit("x-hekla-indexes");
    assert("type"@.len() == 4);
    assert("maxLength"@.len() == 9);
    assert("format"@.len() == 6);
    assert("description"@.len() == 11);
    assert("enum"@.len() == 4);
    assert("minimum"@.len() == 7);
    assert("x-hekla-indexed"@.len() == 15);
    assert("x-hekla-unique"@.len() == 14);
    assert("x-hekla-subject"@.len() == 15);
    assert("x-hekla-filterable"@.len() == 18);
    assert("x-hekla-is-key"@.len() == 14);
    assert("title"@.len() == 5);
    assert("properties"@.len() == 10);
    assert("required"@.len() == 8);
    assert("additionalProperties"@.len() == 20);
    assert("x-hekla-key"@.len() == 11);
    assert("x-hekla-indexes"@.len() == 15);
    assert("type"@[0] == 't');
    assert("enum"@[0] == 'e');
    assert("description"@[0] == 'd');
    assert("x-hekla-key"@[0] == 'x');
    assert("x-hekla-indexed"@[8] == 'i');
    assert("x-hekla-subject"@[8] == 's');
    assert("x-hekla-indexed"@[14] == 'd');
    assert("x-hekla-indexes"@[14] == 's');
    assert("x-hekla-unique"@[8] == 'u');
    assert("x-hekla-is-key"@[8] == 'i');
    assert("x-hekla-indexes"@[8] == 'i');
}

/// The words of an endpoint are different words.
proof fn lemma_path_words()
    ensures
        "tags"@ != "summary"@,
        "tags"@ != "description"@,
        "tags"@ != "parameters"@,
        "tags"@ != "requestBody"@,
        "tags"@ != "responses"@,
        "tags"@ != "operationId"@,
        "tags"@ != "required"@,
        "tags"@ != "content"@,
        "tags"@ != "name"@,
        "tags"@ != "in"@,
        "tags"@ != "schema"@,
        "tags"@ != "schemas"@,
        "tags"@ != "openapi"@,
        "tags"@ != "info"@,
        "tags"@ != "paths"@,
        "tags"@ != "components"@,
        "tags"@ != "version"@,
        "tags"@ != "title"@,
        "tags"@ != "columns"@,
        "tags"@ != "default"@,
        "summary"@ != "description"@,
        "summary"@ != "parameters"@,
        "summary"@ != "requestBody"@,
        "summary"@ != "responses"@,
        "summary"@ != "operationId"@,
        "summary"@ != "required"@,
        "summary"@ != "content"@,
        "summary"@ != "name"@,
        "summary"@ != "in"@,
        "summary"@ != "schema"@,
        "summary"@ != "schemas"@,
        "summary"@ != "openapi"@,
        "summary"@ != "info"@,
        "summary"@ != "paths"@,
        "summary"@ != "components"@,
        "summary"@ != "version"@,
        "summary"@ != "title"@,
        "summary"@ != "columns"@,
        "summary"@ != "default"@,
        "description"@ != "parameters"@,
        "description"@ != "requestBody"@,
        "description"@ != "responses"@,
        "description"@ != "operationId"@,
        "description"@ != "required"@,
        "description"@ != "content"@,
        "description"@ != "name"@,
        "description"@ != "in"@,
        "description"@ != "schema"@,
        "description"@ != "schemas"@,
        "description"@ != "openapi"@,
        "description"@ != "info"@,
        "description"@ != "paths"@,
        "description"@ != "components"@,
        "description"@ != "version"@,
        "description"@ != "title"@,
        "description"@ != "columns"@,
        "description"@ != "default"@,
        "parameters"@ != "requestBody"@,
        "parameters"@ != "responses"@,
        "parameters"@ != "operationId"@,
        "parameters"@ != "required"@,
        "parameters"@ != "content"@,
        "parameters"@ != "name"@,
        "parameters"@ != "in"@,
        "parameters"@ != "schema"@,
        "parameters"@ != "schemas"@,
        "parameters"@ != "openapi"@,
        "parameters"@ != "info"@,
        "parameters"@ != "paths"@,
        "parameters"@ != "components"@,
        "parameters"@ != "version"@,
        "parameters"@ != "title"@,
        "parameters"@ != "columns"@,
        "parameters"@ != "default"@,
        "requestBody"@ != "responses"@,
        "requestBody"@ != "operationId"@,
        "requestBody"@ != "required"@,
        "requestBody"@ != "content"@,
        "requestBody"@ != "name"@,
        "requestBody"@ != "in"@,
        "requestBody"@ != "schema"@,
        "requestBody"@ != "schemas"@,
        "requestBody"@ != "openapi"@,
        "requestBody"@ != "info"@,
        "requestBody"@ != "paths"@,
        "requestBody"@ != "components"@,
        "requestBody"@ != "version"@,
        "requestBody"@ != "title"@,
        "requestBody"@ != "columns"@,
        "requestBody"@ != "default"@,
        "responses"@ != "operationId"@,
        "responses"@ != "required"@,
        "responses"@ != "content"@,
        "responses"@ != "name"@,
        "responses"@ != "in"@,
        "responses"@ != "schema"@,
        "responses"@ != "schemas"@,
        "responses"@ != "openapi"@,
        "responses"@ != "info"@,
        "responses"@ != "paths"@,
        "responses"@ != "components"@,
        "responses"@ != "version"@,
        "responses"@ != "title"@,
        "responses"@ != "columns"@,
        "responses"@ != "default"@,
        "operationId"@ != "required"@,
        "operationId"@ != "content"@,
        "operationId"@ != "name"@,
        "operationId"@ != "in"@,
        "operationId"@ != "schema"@,
        "operationId"@ != "schemas"@,
        "operationId"@ != "openapi"@,
        "operationId"@ != "info"@,
        "operationId"@ != "paths"@,
        "operationId"@ != "components"@,
        "operationId"@ != "version"@,
        "operationId"@ != "title"@,
        "operationId"@ != "columns"@,
        "operationId"@ != "default"@,
        "required"@ != "content"@,
        "required"@ != "name"@,
        "required"@ != "in"@,
        "required"@ != "schema"@,
        "required"@ != "schemas"@,
        "required"@ != "openapi"@,
        "required"@ != "info"@,
        "required"@ != "paths"@,
        "required"@ != "components"@,
        "required"@ != "version"@,
        "required"@ != "title"@,
        "required"@ != "columns"@,
        "required"@ != "default"@,
        "content"@ != "name"@,
        "content"@ != "in"@,
        "content"@ != "schema"@,
        "content"@ != "schemas"@,
        "content"@ != "openapi"@,
        "content"@ != "info"@,
        "content"@ != "paths"@,
        "content"@ != "components"@,
        "content"@ != "version"@,
        "content"@ != "title"@,
        "content"@ != "columns"@,
        "content"@ != "default"@,
        "name"@ != "in"@,
        "name"@ != "schema"@,
        "name"@ != "schemas"@,
        "name"@ != "openapi"@,
        "name"@ != "info"@,
        "name"@ != "paths"@,
        "name"@ != "components"@,
        "name"@ != "version"@,
        "name"@ != "title"@,
        "name"@ != "columns"@,
        "name"@ != "default"@,
        "in"@ != "schema"@,
        "in"@ != "schemas"@,
        "in"@ != "openapi"@,
        "in"@ != "info"@,
        "in"@ != "paths"@,
        "in"@ != "components"@,
        "in"@ != "version"@,
        "in"@ != "title"@,
        "in"@ != "columns"@,
        "in"@ != "default"@,
        "schema"@ != "schemas"@,
        "schema"@ != "openapi"@,
        "schema"@ != "info"@,
        "schema"@ != "paths"@,
        "schema"@ != "components"@,
        "schema"@ != "version"@,
        "schema"@ != "title"@,
        "schema"@ != "columns"@,
        "schema"@ != "default"@,
        "schemas"@ != "openapi"@,
        "schemas"@ != "info"@,
        "schemas"@ != "paths"@,
        "schemas"@ != "components"@,
        "schemas"@ != "version"@,
        "schemas"@ != "title"@,
        "schemas"@ != "columns"@,
        "schemas"@ != "default"@,
        "openapi"@ != "info"@,
        "openapi"@ != "paths"@,
        "openapi"@ != "components"@,
        "openapi"@ != "version"@,
        "openapi"@ != "title"@,
        "openapi"@ != "columns"@,
        "openapi"@ != "default"@,
        "info"@ != "paths"@,
        "info"@ != "components"@,
        "info"@ != "version"@,
        "info"@ != "title"@,
        "info"@ != "columns"@,
        "info"@ != "default"@,
        "paths"@ != "components"@,
        "paths"@ != "version"@,
        "paths"@ != "title"@,
        "paths"@ != "columns"@,
        "paths"@ != "default"@,
        "components"@ != "version"@,
        "components"@ != "title"@,
        "components"@ != "columns"@,
        "components"@ != "default"@,
        "version"@ != "title"@,
        "version"@ != "columns"@,
        "version"@ != "default"@,
        "title"@ != "columns"@,
        "title"@ != "default"@,
        "columns"@ != "default"@,
{
    reveal_strlit("tags");
    reveal_strlit("summary");
    reveal_strlit("description");
    reveal_strlit("parameters");
    reveal_strlit("requestBody");
    reveal_strlit("responses");
    reveal_strlit("operationId");
    reveal_strlit("required");
    reveal_strlit("content");
    reveal_strlit("name");
    reveal_strlit("in");
    reveal_strlit("schema");
    reveal_strlit("schemas");
    reveal_strlit("openapi");
    reveal_strlit("info");
    reveal_strlit("paths");
    reveal_strlit("components");
    reveal_strlit("version");
    reveal_strlit("title");
    reveal_strlit("columns");
    reveal_strlit("default");
    assert("tags"@.len() == 4);
    assert("summary"@.len() == 7);
    assert("description"@.len() == 11);
    assert("parameters"@.len() == 10);
    assert("requestBody"@.len() == 11);
    assert("responses"@.len() == 9);
    assert("operationId"@.len() == 11);
    assert("required"@.len() == 8);
    assert("content"@.len() == 7);
    assert("name"@.len() == 4);
    assert("in"@.len() == 2);
    assert("schema"@.len() == 6);
    assert("schemas"@.len() == 7);
    assert("openapi"@.len() == 7);
    assert("info"@.len() == 4);
    assert("paths"@.len() == 5);
    assert("components"@.len() == 10);
    assert("version"@.len() == 7);
    assert("title"@.len() == 5);
    assert("columns"@.len() == 7);
    assert("default"@.len() == 7);
    assert("tags"@[0] == 't');
    assert("name"@[0] == 'n');
    assert("info"@[0] == 'i');
    assert("summary"@[0] == 's');
    assert("content"@[0] == 'c');
    assert("summary"@[1] == 'u');
    assert("schemas"@[1] == 'c');
    assert("openapi"@[0] == 'o');
    assert("version"@[0] == 'v');
    assert("columns"@[0] == 'c');
    assert("default"@[0] == 'd');
    assert("description"@[0] == 'd');
    assert("requestBody"@[0] == 'r');
    assert("operationId"@[0] == 'o');
    assert("parameters"@[0] == 'p');
    assert("components"@[0] == 'c');
    assert("schemas"@[0] == 's');
    assert("content"@[2] == 'n');
    assert("columns"@[2] == 'l');
    assert("paths"@[0] == 'p');
    assert("title"@[0] == 't');
}

/// The statuses of an answer are different.
proof fn lemma_status_words()
    ensures
        "200"@ != "202"@,
        "200"@ != "400"@,
        "200"@ != "404"@,
        "200"@ != "409"@,
        "200"@ != "422"@,
        "200"@ != "500"@,
        "200"@ != "503"@,
        "202"@ != "400"@,
        "202"@ != "404"@,
        "202"@ != "409"@,
        "202"@ != "422"@,
        "202"@ != "500"@,
        "202"@ != "503"@,
        "400"@ != "404"@,
        "400"@ != "409"@,
        "400"@ != "422"@,
        "400"@ != "500"@,
        "400"@ != "503"@,
        "404"@ != "409"@,
        "404"@ != "422"@,
        "404"@ != "500"@,
        "404"@ != "503"@,
        "409"@ != "422"@,
        "409"@ != "500"@,
        "409"@ != "503"@,
        "422"@ != "500"@,
        "422"@ != "503"@,
        "500"@ != "503"@,
{
    reveal_strlit("200");
    reveal_strlit("202");
    reveal_strlit("400");
    reveal_strlit("404");
    reveal_strlit("409");
    reveal_strlit("422");
    reveal_strlit("500");
    reveal_strlit("503");
    assert("200"@.len() == 3);
    assert("202"@.len() == 3);
    assert("400"@.len() == 3);
    assert("404"@.len() == 3);
    assert("409"@.len() == 3);
    assert("422"@.len() == 3);
    assert("500"@.len() == 3);
    assert("503"@.len() == 3);
    assert("200"@[2] == '0');
    assert("202"@[2] == '2');
    assert("200"@[0] == '2');
    assert("400"@[0] == '4');
    assert("404"@[0] == '4');
    assert("409"@[0] == '4');
    assert("422"@[0] == '4');
    assert("500"@[0] == '5');
    assert("503"@[0] == '5');
    assert("202"@[0] == '2');
    assert("400"@[2] == '0');
    assert("404"@[2] == '4');
    assert("409"@[2] == '9');
    assert("400"@[1] == '0');
    assert("422"@[1] == '2');
    assert("404"@[1] == '0');
    assert("409"@[1] == '0');
    assert("500"@[2] == '0');
    assert("503"@[2] == '3');
}

/// The words of an answer are different words.
proof fn lemma_answer_words()
    ensures
        "item"@ != "items"@,
        "item"@ != "position"@,
        "item"@ != "next_cursor"@,
        "item"@ != "type"@,
        "item"@ != "properties"@,
        "item"@ != "required"@,
        "item"@ != "additionalProperties"@,
        "items"@ != "position"@,
        "items"@ != "next_cursor"@,
        "items"@ != "type"@,
        "items"@ != "properties"@,
        "items"@ != "required"@,
        "items"@ != "additionalProperties"@,
        "position"@ != "next_cursor"@,
        "position"@ != "type"@,
        "position"@ != "properties"@,
        "position"@ != "required"@,
        "position"@ != "additionalProperties"@,
        "next_cursor"@ != "type"@,
        "next_cursor"@ != "properties"@,
        "next_cursor"@ != "required"@,
        "next_cursor"@ != "additionalProperties"@,
        "type"@ != "properties"@,
        "type"@ != "required"@,
        "type"@ != "additionalProperties"@,
        "properties"@ != "required"@,
        "properties"@ != "additionalProperties"@,
        "required"@ != "additionalProperties"@,
{
    reveal_strlit("item");
    reveal_strlit("items");
    reveal_strlit("position");
    reveal_strlit("next_cursor");
    reveal_strlit("type");
    reveal_strlit("properties");
    reveal_strlit("required");
    reveal_strlit("additionalProperties");
    assert("item"@.len() == 4);
    assert("items"@.len() == 5);
    assert("position"@.len() == 8);
    assert("next_cursor"@.len() == 11);
    assert("type"@.len() == 4);
    assert("properties"@.len() == 10);
    assert("required"@.len() == 8);
    assert("additionalProperties"@.len() == 20);
    assert("item"@[0] == 'i');
    assert("type"@[0] == 't');
    assert("position"@[0] == 'p');
    assert("required"@[0] == 'r');
}

// ---------------------------------------------------------------------------
// Fields
// ---------------------------------------------------------------------------

/// A field's schema says how its values travel: an integer as a number, a flag as a flag, and
/// anything else with a form of its own as a text, of that form. An optional field has the
/// schema of what it may hold.
pub proof fn law_a_schema_says_how_a_value_travels(kind: FieldKind, max: u32)
    requires
        !(kind is Optional),
    ensures
        field_schema_view(FieldKind::Optional(Box::new(kind))) == field_schema_view(kind),
        kind is Text || kind is Uuid || kind is Timestamp || kind is Money || kind is OneOf ==> field_schema_view(
            kind,
        ).member("type"@) == Some(JsonView::Text("string"@)),
        kind is I64 || kind is U64 ==> field_schema_view(kind).member("type"@) == Some(JsonView::Text("integer"@)),
        kind is Bool ==> field_schema_view(kind).member("type"@) == Some(JsonView::Text("boolean"@)),
        kind is Json ==> field_schema_view(kind) == JsonView::object(),
        field_schema_view(kind).member("maxLength"@) == Some(JsonView::Int(max as int)) <==> kind == (
        FieldKind::Text { max_length: Some(max) }),
        !(kind is Text) ==> field_schema_view(kind).member("maxLength"@) is None,
        field_schema_view(kind).member("minimum"@) == if kind is U64 {
            Some(JsonView::Int(0))
        } else {
            None
        },
        field_schema_view(kind).member("format"@) == if kind is Uuid {
            Some(JsonView::Text("uuid"@))
        } else if kind is Timestamp {
            Some(JsonView::Text("date-time"@))
        } else if kind is I64 {
            Some(JsonView::Text("int64"@))
        } else {
            None
        },
        field_schema_view(kind).member("enum"@) == match kind {
            FieldKind::OneOf(variants) => Some(JsonView::texts(views(variants@))),
            _ => None,
        },
        kind is Money ==> field_schema_view(kind).member("description"@) is Some,
{
    lemma_schema_words();
}

/// An optional input may be sent as null: its schema admits one more type and, where it is held
/// to variants, one more variant. What else it says stays, and an input that may not be left
/// out does not admit null.
pub proof fn law_an_optional_input_admits_null(kind: FieldKind, other: Seq<char>)
    requires
        !(kind is Optional),
    ensures
        input_property(kind) == field_schema_view(kind),
        input_property(FieldKind::Optional(Box::new(kind))).member("type"@) == match field_schema_view(kind).member(
            "type"@,
        ) {
            Some(single) => Some(JsonView::Array(seq![single, JsonView::Text("null"@)])),
            None => None,
        },
        kind matches FieldKind::OneOf(variants) ==> input_property(FieldKind::Optional(Box::new(kind))).member(
            "enum"@,
        ) == Some(
            JsonView::Array(
                Seq::new(
                    variants@.len() + 1,
                    |i: int|
                        if i < variants@.len() {
                            JsonView::Text(variants@[i]@)
                        } else {
                            JsonView::Null
                        },
                ),
            ),
        ),
        other != "type"@ && other != "enum"@ ==> input_property(FieldKind::Optional(Box::new(kind))).member(other)
            == field_schema_view(kind).member(other),
        !(kind is OneOf) ==> input_property(FieldKind::Optional(Box::new(kind))).member("enum"@) is None,
{
    lemma_schema_words();
    let wrapped = FieldKind::Optional(Box::new(kind));
    let schema = field_schema_view(kind);
    assert(field_schema_view(wrapped) == schema);
    law_a_schema_says_how_a_value_travels(kind, 0);
    if let Some(JsonView::Text(single)) = schema.member("type"@) {
        assert(JsonView::array().item(JsonView::Text(single)).item(JsonView::Text("null"@)) == JsonView::Array(
            Seq::<JsonView>::empty().push(JsonView::Text(single)).push(JsonView::Text("null"@)),
        ));
        assert(Seq::<JsonView>::empty().push(JsonView::Text(single)).push(JsonView::Text("null"@)) =~= seq![
            JsonView::Text(single),
            JsonView::Text("null"@),
        ]);
    }
    if let FieldKind::OneOf(variants) = kind {
        let items = Seq::new(variants@.len(), |i: int| JsonView::Text(views(variants@)[i]));
        assert(schema.member("enum"@) == Some(JsonView::texts(views(variants@))));
        assert(Seq::new(views(variants@).len(), |i: int| JsonView::Text(views(variants@)[i])) =~= items);
        assert(items.push(JsonView::Null) =~= Seq::new(
            variants@.len() + 1,
            |i: int|
                if i < variants@.len() {
                    JsonView::Text(variants@[i]@)
                } else {
                    JsonView::Null
                },
        ));
    }
}

/// Notes on a field stand in its description, behind what its kind says of itself, and change
/// nothing else.
pub proof fn law_notes_stand_beside_what_a_kind_says(kind: FieldKind, notes: Seq<Seq<char>>, at: int, other: Seq<char>)
    requires
        0 <= at < notes.len(),
    ensures
        other != "description"@ ==> annotated_view(kind, notes).member(other) == field_schema_view(kind).member(other),
        annotated_view(kind, notes).member("description"@) matches Some(JsonView::Text(text)) && has_part(
            text,
            notes[at],
        ) && (field_schema_view(kind).member("description"@) matches Some(JsonView::Text(own)) ==> has_part(text, own)),
        annotated_view(kind, Seq::empty()) == field_schema_view(kind),
{
    lemma_schema_words();
    let schema = field_schema_view(kind);
    let said = joined(notes, " "@);
    lemma_joined_part(notes, " "@, at);
    if let Some(JsonView::Text(own)) = schema.member("description"@) {
        lemma_part_of_itself(own);
        lemma_part_in_front(own, ". "@, own);
        lemma_part_in_front(own + ". "@, said, own);
        lemma_part_behind(own + ". "@, said, notes[at]);
    }
}

/// What is said of an event's field is what was declared of it: whether it is indexed, whether
/// it is unique, and whose key it is sealed under.
pub proof fn law_an_event_field_is_described_as_declared(meta: FieldMeta)
    ensures
        event_field_view(meta).member("x-hekla-indexed"@) == Some(JsonView::Bool(meta.indexed)),
        event_field_view(meta).member("x-hekla-unique"@) == Some(JsonView::Bool(meta.unique)),
        event_field_view(meta).member("x-hekla-subject"@) == match meta.subject {
            Some(subject) => Some(JsonView::Text(subject@)),
            None => None,
        },
        event_field_view(meta).member("type"@) == field_schema_view(meta.kind).member("type"@),
        event_field_view(meta).member("enum"@) == field_schema_view(meta.kind).member("enum"@),
        event_field_view(meta).member("format"@) == field_schema_view(meta.kind).member("format"@),
        event_field_view(meta).member("maxLength"@) == field_schema_view(meta.kind).member("maxLength"@),
        event_field_view(meta).member("minimum"@) == field_schema_view(meta.kind).member("minimum"@),
{
    lemma_schema_words();
    let notes = event_notes(meta);
    assert(notes.len() > 0);
    law_notes_stand_beside_what_a_kind_says(meta.kind, notes, 0, "x-hekla-subject"@);
}

/// What is said of an entity's column is what was declared of it: whether it can be filtered
/// by, whether it is the key, and whose key it is sealed under.
pub proof fn law_a_column_is_described_as_declared(entity: EntityDef, name: Seq<char>, meta: FieldMeta)
    ensures
        entity_field_view(entity, name, meta).member("x-hekla-filterable"@) == Some(
            JsonView::Bool(filterable(entity).contains(name)),
        ),
        entity_field_view(entity, name, meta).member("x-hekla-is-key"@) == if name == entity.key@ {
            Some(JsonView::Bool(true))
        } else {
            None
        },
        entity_field_view(entity, name, meta).member("x-hekla-subject"@) == match meta.subject {
            Some(subject) => Some(JsonView::Text(subject@)),
            None => None,
        },
        entity_field_view(entity, name, meta).member("type"@) == field_schema_view(meta.kind).member("type"@),
        entity_field_view(entity, name, meta).member("enum"@) == field_schema_view(meta.kind).member("enum"@),
        entity_field_view(entity, name, meta).member("format"@) == field_schema_view(meta.kind).member("format"@),
        entity_field_view(entity, name, meta).member("maxLength"@) == field_schema_view(meta.kind).member("maxLength"@),
        entity_field_view(entity, name, meta).member("minimum"@) == field_schema_view(meta.kind).member("minimum"@),
{
    lemma_schema_words();
    let notes = entity_notes(entity, name, meta);
    assert(notes.len() > 0);
}

/// A sealed field is said to be sealed, under the subject that it is sealed under.
pub proof fn law_a_sealed_field_names_its_subject(entity: EntityDef, name: Seq<char>, meta: FieldMeta)
    requires
        meta.subject is Some,
    ensures
        event_field_view(meta).member("description"@) matches Some(JsonView::Text(text)) && has_part(
            text,
            meta.subject->0@,
        ),
        entity_field_view(entity, name, meta).member("description"@) matches Some(JsonView::Text(text)) && has_part(
            text,
            meta.subject->0@,
        ),
{
    lemma_schema_words();
    let subject = meta.subject->0@;
    let in_event = event_notes(meta);
    let in_entity = entity_notes(entity, name, meta);
    lemma_part_of_itself(subject);
    lemma_part_behind("Encrypted under the subject `"@, subject, subject);
    lemma_part_in_front(
        "Encrypted under the subject `"@ + subject,
        "`: stored as ciphertext, and readable only through `reveal()` in an effect. Erasing that subject makes it permanently unreadable."@,
        subject,
    );
    lemma_part_in_front(
        "Encrypted under the subject `"@ + subject,
        "`, and decrypted on read. Absent from the row when that subject's key has been erased or the value will not decrypt under the current master."@,
        subject,
    );
    assert(has_part(in_event[0], subject));
    assert(has_part(in_entity[1], subject));
    lemma_said(meta.kind, in_event, 0, subject);
    lemma_said(meta.kind, in_entity, 1, subject);
}

proof fn lemma_said(kind: FieldKind, notes: Seq<Seq<char>>, at: int, part: Seq<char>)
    requires
        0 <= at < notes.len(),
        has_part(notes[at], part),
    ensures
        annotated_view(kind, notes).member("description"@) matches Some(JsonView::Text(text)) && has_part(text, part),
{
    lemma_schema_words();
    let said = joined(notes, " "@);
    lemma_joined_within(notes, " "@, at, part);
    if let Some(JsonView::Text(own)) = field_schema_view(kind).member("description"@) {
        lemma_part_behind(own + ". "@, said, part);
    }
}

/// What stands in one of several texts stands in all of them together.
proof fn lemma_joined_within(list: Seq<Seq<char>>, separator: Seq<char>, at: int, part: Seq<char>)
    requires
        0 <= at < list.len(),
        has_part(list[at], part),
    ensures
        has_part(joined(list, separator), part),
    decreases list.len(),
{
    if list.len() > 1 {
        let rest = list.drop_last();
        if at < rest.len() {
            lemma_joined_within(rest, separator, at, part);
            lemma_part_in_front(joined(rest, separator), separator, part);
            lemma_part_in_front(joined(rest, separator) + separator, list.last(), part);
        } else {
            lemma_part_behind(joined(rest, separator) + separator, list.last(), part);
        }
    }
}

// ---------------------------------------------------------------------------
// What has to be sent
// ---------------------------------------------------------------------------

/// A command has to be sent exactly the inputs that are not optional.
pub proof fn law_an_input_has_to_be_sent_unless_it_is_optional(fields: Seq<(String, FieldKind)>, name: Seq<char>)
    ensures
        required_inputs(fields).contains(name) <==> exists|i: int|
            0 <= i < fields.len() && (#[trigger] fields[i]).0@ == name && !(fields[i].1 is Optional),
    decreases fields.len(),
{
    let all = required_inputs(fields);
    if fields.len() > 0 {
        let rest = fields.drop_last();
        let before = required_inputs(rest);
        law_an_input_has_to_be_sent_unless_it_is_optional(rest, name);
        if before.contains(name) {
            let i = choose|i: int| 0 <= i < rest.len() && (#[trigger] rest[i]).0@ == name && !(rest[i].1 is Optional);
            assert(fields[i] == rest[i]);
            let k = before.index_of(name);
            assert(all[k] == name);
        }
        if !(fields.last().1 is Optional) {
            assert(all[before.len() as int] == fields.last().0@);
        }
        if all.contains(name) && !before.contains(name) {
            let k = choose|k: int| 0 <= k < all.len() && all[k] == name;
            if k < before.len() {
                assert(before[k] == name);
            }
            assert(fields[fields.len() - 1].0@ == name);
        }
        if exists|i: int| 0 <= i < fields.len() && (#[trigger] fields[i]).0@ == name && !(fields[i].1 is Optional) {
            let i = choose|i: int|
                0 <= i < fields.len() && (#[trigger] fields[i]).0@ == name && !(fields[i].1 is Optional);
            if i < rest.len() {
                assert(rest[i] == fields[i]);
            }
        }
    }
}

/// An event always has exactly the fields that are not optional.
pub proof fn law_an_event_has_what_is_not_optional(fields: Seq<(String, FieldMeta)>, name: Seq<char>)
    ensures
        event_required(fields).contains(name) <==> exists|i: int|
            0 <= i < fields.len() && (#[trigger] fields[i]).0@ == name && !(fields[i].1.kind is Optional),
    decreases fields.len(),
{
    let all = event_required(fields);
    if fields.len() > 0 {
        let rest = fields.drop_last();
        let before = event_required(rest);
        law_an_event_has_what_is_not_optional(rest, name);
        if before.contains(name) {
            let i = choose|i: int|
                0 <= i < rest.len() && (#[trigger] rest[i]).0@ == name && !(rest[i].1.kind is Optional);
            assert(fields[i] == rest[i]);
            let k = before.index_of(name);
            assert(all[k] == name);
        }
        if !(fields.last().1.kind is Optional) {
            assert(all[before.len() as int] == fields.last().0@);
        }
        if all.contains(name) && !before.contains(name) {
            let k = choose|k: int| 0 <= k < all.len() && all[k] == name;
            if k < before.len() {
                assert(before[k] == name);
            }
            assert(fields[fields.len() - 1].0@ == name);
        }
        if exists|i: int| 0 <= i < fields.len() && (#[trigger] fields[i]).0@ == name && !(fields[i].1.kind is Optional) {
            let i = choose|i: int|
                0 <= i < fields.len() && (#[trigger] fields[i]).0@ == name && !(fields[i].1.kind is Optional);
            if i < rest.len() {
                assert(rest[i] == fields[i]);
            }
        }
    }
}

/// Whether a row always has a column: a null is left out, and so is what can no longer be
/// opened.
pub open spec fn always_there(meta: FieldMeta) -> bool {
    !(meta.kind is Optional) && meta.subject is None
}

/// A row always has exactly the columns that are neither optional nor sealed.
pub proof fn law_a_row_has_what_is_neither_optional_nor_sealed(fields: Seq<(String, FieldMeta)>, name: Seq<char>)
    ensures
        entity_required(fields).contains(name) <==> exists|i: int|
            0 <= i < fields.len() && (#[trigger] fields[i]).0@ == name && always_there(fields[i].1),
    decreases fields.len(),
{
    let all = entity_required(fields);
    if fields.len() > 0 {
        let rest = fields.drop_last();
        let before = entity_required(rest);
        law_a_row_has_what_is_neither_optional_nor_sealed(rest, name);
        if before.contains(name) {
            let i = choose|i: int| 0 <= i < rest.len() && (#[trigger] rest[i]).0@ == name && always_there(rest[i].1);
            assert(fields[i] == rest[i]);
            let k = before.index_of(name);
            assert(all[k] == name);
        }
        if always_there(fields.last().1) {
            assert(all[before.len() as int] == fields.last().0@);
        }
        if all.contains(name) && !before.contains(name) {
            let k = choose|k: int| 0 <= k < all.len() && all[k] == name;
            if k < before.len() {
                assert(before[k] == name);
            }
            assert(fields[fields.len() - 1].0@ == name);
        }
        if exists|i: int| 0 <= i < fields.len() && (#[trigger] fields[i]).0@ == name && always_there(fields[i].1) {
            let i = choose|i: int|
                0 <= i < fields.len() && (#[trigger] fields[i]).0@ == name && always_there(fields[i].1);
            if i < rest.len() {
                assert(rest[i] == fields[i]);
            }
        }
    }
}

// ---------------------------------------------------------------------------
// Schemas of commands, events and rows
// ---------------------------------------------------------------------------

/// Each input has its own schema among those of a command, and nothing else has one.
pub proof fn law_each_input_has_its_schema(fields: Seq<(String, FieldKind)>, at: int, other: Seq<char>)
    requires
        0 <= at < fields.len(),
        forall|j: int| at < j < fields.len() ==> (#[trigger] fields[j]).0@ != fields[at].0@,
        forall|j: int| 0 <= j < fields.len() ==> (#[trigger] fields[j]).0@ != other,
    ensures
        input_properties(fields) is Object,
        input_properties(fields).member(fields[at].0@) == Some(input_property(fields[at].1)),
        input_properties(fields).member(other) is None,
    decreases fields.len(),
{
    let rest = fields.drop_last();
    let last = fields[fields.len() - 1];
    assert(last.0@ != other);
    assert forall|j: int| 0 <= j < rest.len() implies (#[trigger] rest[j]).0@ != other by {
        assert(rest[j] == fields[j]);
    }
    if at < rest.len() {
        assert(rest[at] == fields[at]);
        assert forall|j: int| at < j < rest.len() implies (#[trigger] rest[j]).0@ != rest[at].0@ by {
            assert(rest[j] == fields[j]);
        }
        law_each_input_has_its_schema(rest, at, other);
    } else {
        lemma_no_other_input(rest, other);
    }
}

proof fn lemma_no_other_input(fields: Seq<(String, FieldKind)>, other: Seq<char>)
    requires
        forall|j: int| 0 <= j < fields.len() ==> (#[trigger] fields[j]).0@ != other,
    ensures
        input_properties(fields) is Object,
        input_properties(fields).member(other) is None,
    decreases fields.len(),
{
    if fields.len() > 0 {
        let rest = fields.drop_last();
        assert(fields[fields.len() - 1].0@ != other);
        assert forall|j: int| 0 <= j < rest.len() implies (#[trigger] rest[j]).0@ != other by {
            assert(rest[j] == fields[j]);
        }
        lemma_no_other_input(rest, other);
    }
}

/// Each field of an event has its own schema, and nothing else has one.
pub proof fn law_each_event_field_has_its_schema(fields: Seq<(String, FieldMeta)>, at: int, other: Seq<char>)
    requires
        0 <= at < fields.len(),
        forall|j: int| at < j < fields.len() ==> (#[trigger] fields[j]).0@ != fields[at].0@,
        forall|j: int| 0 <= j < fields.len() ==> (#[trigger] fields[j]).0@ != other,
    ensures
        event_properties(fields) is Object,
        event_properties(fields).member(fields[at].0@) == Some(event_field_view(fields[at].1)),
        event_properties(fields).member(other) is None,
    decreases fields.len(),
{
    let rest = fields.drop_last();
    let last = fields[fields.len() - 1];
    assert(last.0@ != other);
    assert forall|j: int| 0 <= j < rest.len() implies (#[trigger] rest[j]).0@ != other by {
        assert(rest[j] == fields[j]);
    }
    if at < rest.len() {
        assert(rest[at] == fields[at]);
        assert forall|j: int| at < j < rest.len() implies (#[trigger] rest[j]).0@ != rest[at].0@ by {
            assert(rest[j] == fields[j]);
        }
        law_each_event_field_has_its_schema(rest, at, other);
    } else {
        lemma_no_other_event_field(rest, other);
    }
}

proof fn lemma_no_other_event_field(fields: Seq<(String, FieldMeta)>, other: Seq<char>)
    requires
        forall|j: int| 0 <= j < fields.len() ==> (#[trigger] fields[j]).0@ != other,
    ensures
        event_properties(fields) is Object,
        event_properties(fields).member(other) is None,
    decreases fields.len(),
{
    if fields.len() > 0 {
        let rest = fields.drop_last();
        assert(fields[fields.len() - 1].0@ != other);
        assert forall|j: int| 0 <= j < rest.len() implies (#[trigger] rest[j]).0@ != other by {
            assert(rest[j] == fields[j]);
        }
        lemma_no_other_event_field(rest, other);
    }
}

/// Each column of an entity has its own schema, and nothing else has one.
pub proof fn law_each_column_has_its_schema(entity: EntityDef, fields: Seq<(String, FieldMeta)>, at: int, other: Seq<char>)
    requires
        0 <= at < fields.len(),
        forall|j: int| at < j < fields.len() ==> (#[trigger] fields[j]).0@ != fields[at].0@,
        forall|j: int| 0 <= j < fields.len() ==> (#[trigger] fields[j]).0@ != other,
    ensures
        entity_properties(entity, fields) is Object,
        entity_properties(entity, fields).member(fields[at].0@) == Some(
            entity_field_view(entity, fields[at].0@, fields[at].1),
        ),
        entity_properties(entity, fields).member(other) is None,
    decreases fields.len(),
{
    let rest = fields.drop_last();
    let last = fields[fields.len() - 1];
    assert(last.0@ != other);
    assert forall|j: int| 0 <= j < rest.len() implies (#[trigger] rest[j]).0@ != other by {
        assert(rest[j] == fields[j]);
    }
    if at < rest.len() {
        assert(rest[at] == fields[at]);
        assert forall|j: int| at < j < rest.len() implies (#[trigger] rest[j]).0@ != rest[at].0@ by {
            assert(rest[j] == fields[j]);
        }
        law_each_column_has_its_schema(entity, rest, at, other);
    } else {
        lemma_no_other_column(entity, rest, other);
    }
}

proof fn lemma_no_other_column(entity: EntityDef, fields: Seq<(String, FieldMeta)>, other: Seq<char>)
    requires
        forall|j: int| 0 <= j < fields.len() ==> (#[trigger] fields[j]).0@ != other,
    ensures
        entity_properties(entity, fields) is Object,
        entity_properties(entity, fields).member(other) is None,
    decreases fields.len(),
{
    if fields.len() > 0 {
        let rest = fields.drop_last();
        assert(fields[fields.len() - 1].0@ != other);
        assert forall|j: int| 0 <= j < rest.len() implies (#[trigger] rest[j]).0@ != other by {
            assert(rest[j] == fields[j]);
        }
        lemma_no_other_column(entity, rest, other);
    }
}

/// Whether a schema is that of an object with these members, of which some are always there, and
/// with no others.
pub open spec fn closes_over(schema: JsonView, properties: JsonView, required: Seq<Seq<char>>) -> bool {
    &&& schema.member("type"@) == Some(JsonView::Text("object"@))
    &&& schema.member("properties"@) == Some(properties)
    &&& schema.member("additionalProperties"@) == Some(JsonView::Bool(false))
    &&& schema.member("required"@) matches Some(JsonView::Array(items))
    &&& items.len() == required.len()
    &&& forall|i: int| 0 <= i < required.len() ==> #[trigger] items[i] == JsonView::Text(required[i])
}

/// A command's body, an event and a row are each described as an object with their fields and no
/// others, under their own names.
pub proof fn law_a_schema_is_of_an_object_with_its_fields(
    schema: InputSchema,
    event_type: Seq<char>,
    def: EventDef,
    projector: Seq<char>,
    entity: EntityDef,
)
    ensures
        closes_over(input_schema_view(schema), input_properties(schema.fields@), required_inputs(schema.fields@)),
        closes_over(event_schema_view(event_type, def), event_properties(def.fields@), event_required(def.fields@)),
        closes_over(
            entity_schema_view(projector, entity),
            entity_properties(entity, entity.fields@),
            entity_required(entity.fields@),
        ),
        event_schema_view(event_type, def).member("title"@) == Some(JsonView::Text(event_type)),
        entity_schema_view(projector, entity).member("title"@) == Some(JsonView::Text(entity.name@)),
        entity_schema_view(projector, entity).member("x-hekla-key"@) == Some(JsonView::Text(entity.key@)),
        entity_schema_view(projector, entity).member("x-hekla-indexes"@) == Some(indexes_view(entity.indexes@)),
{
    lemma_schema_words();
}

/// Each index is listed with its name and its columns, in order.
pub proof fn law_each_index_is_listed(indexes: Seq<IndexDef>, at: int)
    requires
        0 <= at < indexes.len(),
    ensures
        indexes_view(indexes) matches JsonView::Array(items) && items.len() == indexes.len() && items[at].member(
            "name"@,
        ) == Some(JsonView::Text(indexes[at].name@)) && items[at].member("columns"@) == Some(
            JsonView::texts(views(indexes[at].columns@)),
        ),
{
    lemma_indexes(indexes);
}

proof fn lemma_indexes(indexes: Seq<IndexDef>)
    ensures
        indexes_view(indexes) is Array,
        indexes_view(indexes)->Array_0.len() == indexes.len(),
        forall|i: int|
            0 <= i < indexes.len() ==> (#[trigger] indexes_view(indexes)->Array_0[i]).member("name"@) == Some(
                JsonView::Text(indexes[i].name@),
            ) && indexes_view(indexes)->Array_0[i].member("columns"@) == Some(
                JsonView::texts(views(indexes[i].columns@)),
            ),
    decreases indexes.len(),
{
    lemma_path_words();
    if indexes.len() > 0 {
        let rest = indexes.drop_last();
        lemma_indexes(rest);
        assert forall|i: int| 0 <= i < indexes.len() implies (#[trigger] indexes_view(indexes)->Array_0[i]).member(
            "name"@,
        ) == Some(JsonView::Text(indexes[i].name@)) && indexes_view(indexes)->Array_0[i].member("columns"@) == Some(
            JsonView::texts(views(indexes[i].columns@)),
        ) by {
            if i < rest.len() {
                assert(indexes_view(indexes)->Array_0[i] == indexes_view(rest)->Array_0[i]);
                assert(rest[i] == indexes[i]);
            }
        }
    }
}

// ---------------------------------------------------------------------------
// What is described
// ---------------------------------------------------------------------------

/// Whether a clause of a subscription selects the events of a type by naming it.
pub open spec fn names_type(clause: EventSpec, event_type: Seq<char>) -> bool {
    match clause {
        EventSpec::Filter { event_type: named, .. } => named@ == event_type,
        _ => false,
    }
}

/// A subscription selects every event where one of its clauses does, and otherwise exactly the
/// types that its clauses name, each once.
pub proof fn law_a_subscription_selects_what_its_clauses_name(sources: Seq<EventSpec>, event_type: Seq<char>)
    ensures
        subscribed(sources) is None <==> exists|i: int| 0 <= i < sources.len() && #[trigger] sources[i] is All,
        subscribed(sources) is Some ==> (subscribed(sources)->0.contains(event_type) <==> exists|i: int|
            0 <= i < sources.len() && names_type(#[trigger] sources[i], event_type)),
        subscribed(sources) is Some ==> subscribed(sources)->0.no_duplicates(),
{
    lemma_clauses(sources, event_type);
    if let Some(types) = clause_types(sources) {
        let once = distinct(types);
        lemma_distinct(types, event_type);
        lemma_sorted_contains(once, text_order(), event_type);
        lemma_sorted_keeps(once, text_order());
        once.lemma_multiset_has_no_duplicates();
        sorted(once, text_order()).lemma_multiset_has_no_duplicates_conv();
    }
}

proof fn lemma_distinct(list: Seq<Seq<char>>, item: Seq<char>)
    ensures
        distinct(list).contains(item) == list.contains(item),
        distinct(list).no_duplicates(),
    decreases list.len(),
{
    if list.len() > 0 {
        let rest = list.drop_last();
        let before = distinct(rest);
        lemma_distinct(rest, item);
        if list.contains(item) {
            let k = choose|k: int| 0 <= k < list.len() && list[k] == item;
            if k < rest.len() {
                assert(rest[k] == item);
                assert(rest.contains(item));
            }
        }
        if rest.contains(item) {
            let k = rest.index_of(item);
            assert(list[k] == item);
        }
        if before.contains(item) {
            let k = before.index_of(item);
            assert(distinct(list)[k] == item);
        }
        if !before.contains(list.last()) {
            assert(distinct(list)[before.len() as int] == list.last());
            assert(list[list.len() - 1] == list.last());
            assert(distinct(list).contains(item) ==> before.contains(item) || item == list.last()) by {
                if distinct(list).contains(item) {
                    let k = choose|k: int| 0 <= k < distinct(list).len() && distinct(list)[k] == item;
                    if k < before.len() {
                        assert(before[k] == item);
                    }
                }
            }
        }
    }
}

proof fn lemma_clauses(sources: Seq<EventSpec>, event_type: Seq<char>)
    ensures
        clause_types(sources) is None <==> exists|i: int| 0 <= i < sources.len() && #[trigger] sources[i] is All,
        clause_types(sources) is Some ==> (clause_types(sources)->0.contains(event_type) <==> exists|i: int|
            0 <= i < sources.len() && names_type(#[trigger] sources[i], event_type)),
    decreases sources.len(),
{
    if sources.len() > 0 {
        let rest = sources.drop_last();
        lemma_clauses(rest, event_type);
        assert(sources.last() == sources[sources.len() - 1]);
        if exists|i: int| 0 <= i < rest.len() && #[trigger] rest[i] is All {
            let i = choose|i: int| 0 <= i < rest.len() && #[trigger] rest[i] is All;
            assert(sources[i] is All);
        }
        if exists|i: int| 0 <= i < sources.len() && #[trigger] sources[i] is All {
            let i = choose|i: int| 0 <= i < sources.len() && #[trigger] sources[i] is All;
            if i < rest.len() {
                assert(rest[i] is All);
            }
        }
        if clause_types(sources) is Some {
            let all = clause_types(sources)->0;
            let before = clause_types(rest)->0;
            assert(all[before.len() as int] == sources.last()->event_type@);
            if before.contains(event_type) {
                let k = before.index_of(event_type);
                assert(all[k] == event_type);
                let i = choose|i: int| 0 <= i < rest.len() && names_type(#[trigger] rest[i], event_type);
                assert(names_type(sources[i], event_type));
            }
            if all.contains(event_type) && !before.contains(event_type) {
                let k = choose|k: int| 0 <= k < all.len() && all[k] == event_type;
                if k < before.len() {
                    assert(before[k] == event_type);
                }
                assert(names_type(sources[sources.len() - 1], event_type));
            }
            if exists|i: int| 0 <= i < sources.len() && names_type(#[trigger] sources[i], event_type) {
                let i = choose|i: int| 0 <= i < sources.len() && names_type(#[trigger] sources[i], event_type);
                if i < rest.len() {
                    assert(names_type(rest[i], event_type));
                }
            }
        }
    }
}

/// A module is described as what it is: a command that anyone may invoke with its inputs, a
/// projector with its entities and its subscription, and an effect with its subscription.
pub proof fn law_a_module_is_described_as_what_it_is(units: Seq<Unit>, at: int)
    requires
        0 <= at < units.len(),
    ensures
        units[at].def matches ModuleDef::Command { name, input } ==> (!units[at].internal ==> public_commands(
            units,
        ).contains((name@, input))),
        units[at].def matches ModuleDef::Projector { name, entities, .. } ==> project_projectors(units).contains(
            (name@, entities@, subscribed(units[at].sources@)),
        ),
        units[at].def matches ModuleDef::Effect { name, .. } ==> project_effects(units).contains(
            (name@, subscribed(units[at].sources@)),
        ),
    decreases units.len(),
{
    let rest = units.drop_last();
    if at < rest.len() {
        assert(rest[at] == units[at]);
        law_a_module_is_described_as_what_it_is(rest, at);
        match units[at].def {
            ModuleDef::Command { name, input } => {
                if !units[at].internal {
                    let k = public_commands(rest).index_of((name@, input));
                    assert(public_commands(units)[k] == (name@, input));
                }
            },
            ModuleDef::Projector { name, entities, .. } => {
                let own = (name@, entities@, subscribed(units[at].sources@));
                let k = project_projectors(rest).index_of(own);
                assert(project_projectors(units)[k] == own);
            },
            ModuleDef::Effect { name, .. } => {
                let own = (name@, subscribed(units[at].sources@));
                let k = project_effects(rest).index_of(own);
                assert(project_effects(units)[k] == own);
            },
        }
    } else {
        match units[at].def {
            ModuleDef::Command { name, input } => {
                if !units[at].internal {
                    assert(public_commands(units).last() == (name@, input));
                }
            },
            ModuleDef::Projector { name, entities, .. } => {
                assert(project_projectors(units).last() == (name@, entities@, subscribed(units[at].sources@)));
            },
            ModuleDef::Effect { name, .. } => {
                assert(project_effects(units).last() == (name@, subscribed(units[at].sources@)));
            },
        }
    }
}

/// What is served is every entity of every projector, each under the projector's own name, and
/// nothing else.
pub proof fn law_every_entity_is_served_by_its_projector(
    projectors: Seq<ProjectorSurface>,
    projector: Seq<char>,
    entity: EntityDef,
)
    ensures
        served(projectors).contains((projector, entity)) <==> exists|i: int|
            0 <= i < projectors.len() && serves(#[trigger] projectors[i], projector, entity),
    decreases projectors.len(),
{
    if projectors.len() > 0 {
        let rest = projectors.drop_last();
        let last = projectors.last();
        let before = served(rest);
        let all = served(projectors);
        law_every_entity_is_served_by_its_projector(rest, projector, entity);
        if all.contains((projector, entity)) {
            let k = choose|k: int| 0 <= k < all.len() && all[k] == (projector, entity);
            if k < before.len() {
                assert(before[k] == (projector, entity));
                let i = choose|i: int| 0 <= i < rest.len() && serves(#[trigger] rest[i], projector, entity);
                assert(serves(projectors[i], projector, entity));
            } else {
                assert(last.entities@[k - before.len()] == entity);
                assert(serves(projectors[projectors.len() - 1], projector, entity));
            }
        }
        if exists|i: int| 0 <= i < projectors.len() && serves(#[trigger] projectors[i], projector, entity) {
            let i = choose|i: int| 0 <= i < projectors.len() && serves(#[trigger] projectors[i], projector, entity);
            if i < rest.len() {
                assert(serves(rest[i], projector, entity));
                let k = before.index_of((projector, entity));
                assert(all[k] == (projector, entity));
            } else {
                let k = last.entities@.index_of(entity);
                assert(all[before.len() + k] == (projector, entity));
            }
        }
    }
}

/// Whether a projector of that name has that entity.
pub open spec fn serves(surface: ProjectorSurface, projector: Seq<char>, entity: EntityDef) -> bool {
    surface.name@ == projector && surface.entities@.contains(entity)
}

// ---------------------------------------------------------------------------
// Endpoints
// ---------------------------------------------------------------------------

/// What an answer of some status holds.
pub open spec fn answered(operation: JsonView, status: Seq<char>) -> Option<JsonView> {
    match operation.member("responses"@) {
        Some(responses) => match responses.member(status) {
            Some(response) => match response.member("content"@) {
                Some(content) => match content.member("application/json"@) {
                    Some(media) => media.member("schema"@),
                    None => None,
                },
                None => None,
            },
            None => None,
        },
        None => None,
    }
}

/// A command is executed by posting its inputs to the path that ends in its name. Its body is
/// needed exactly where some input is, and is held to the schema of its inputs.
pub proof fn law_a_command_is_executed_at_its_path(commands: Seq<(Seq<char>, InputSchema)>, at: int)
    requires
        0 <= at < commands.len(),
    ensures
        command_routes(commands).len() == commands.len(),
        command_routes(commands)[at].path == "/commands/"@ + commands[at].0,
        command_routes(commands)[at].method == "post"@,
        command_routes(commands)[at].body.member("requestBody"@) matches Some(body) && body.member("required"@) == Some(
            JsonView::Bool(
                exists|i: int|
                    0 <= i < commands[at].1.fields@.len() && !((#[trigger] commands[at].1.fields@[i]).1 is Optional),
            ),
        ) && (body.member("content"@) matches Some(content) && content.member("application/json"@) == Some(
            JsonView::object().with("schema"@, input_schema_view(commands[at].1)),
        )),
        command_routes(commands)[at].body.member("summary"@) matches Some(JsonView::Text(text)) && has_part(
            text,
            commands[at].0,
        ),
        answered(command_routes(commands)[at].body, "200"@) == Some(schema_ref_view("CommandAccepted"@)),
        answered(command_routes(commands)[at].body, "400"@) == Some(schema_ref_view("CommandError"@)),
        answered(command_routes(commands)[at].body, "409"@) == Some(schema_ref_view("CommandError"@)),
        answered(command_routes(commands)[at].body, "422"@) == Some(schema_ref_view("CommandError"@)),
        answered(command_routes(commands)[at].body, "500"@) == Some(schema_ref_view("CommandError"@)),
        answered(command_routes(commands)[at].body, "503"@) == Some(schema_ref_view("CommandError"@)),
{
    lemma_path_words();
    lemma_status_words();
    let (name, schema) = commands[at];
    lemma_part_of_itself(name);
    lemma_part_behind("execute the `"@, name, name);
    lemma_part_in_front("execute the `"@ + name, "` command"@, name);
    assert(command_routes(commands)[at].body == command_path_view(name, schema));
}

/// Each entity is scanned at the path of its projector and its name, and one row of it is read at
/// the same path with the key behind it. Both answer with rows of the entity's own schema.
pub proof fn law_an_entity_is_read_at_its_path(
    events: Seq<(Seq<char>, EventDef)>,
    entities: Seq<(Seq<char>, EntityDef)>,
    wait: Wait,
    at: int,
)
    requires
        0 <= at < entities.len(),
    ensures
        ({
            let all = read_routes(events, entities, wait, entities.len());
            let (projector, entity) = entities[at];
            let key = entity_key(events, entities, projector, entity.name@);
            &&& all.len() == 2 * entities.len()
            &&& all[2 * at].path == "/read/"@ + projector + "/"@ + entity.name@
            &&& all[2 * at].method == "get"@
            &&& all[2 * at].body == scan_path_view(projector, entity, key, wait)
            &&& all[2 * at + 1].path == "/read/"@ + projector + "/"@ + entity.name@ + "/{key}"@
            &&& all[2 * at + 1].method == "get"@
            &&& all[2 * at + 1].body == get_one_path_view(projector, entity, key, wait)
        }),
{
    lemma_read_routes(events, entities, wait, entities.len(), at);
}

proof fn lemma_read_routes(
    events: Seq<(Seq<char>, EventDef)>,
    entities: Seq<(Seq<char>, EntityDef)>,
    wait: Wait,
    upto: nat,
    at: int,
)
    requires
        0 <= at < upto <= entities.len(),
    ensures
        ({
            let all = read_routes(events, entities, wait, upto);
            let (projector, entity) = entities[at];
            let key = entity_key(events, entities, projector, entity.name@);
            &&& all.len() == 2 * upto
            &&& all[2 * at].path == "/read/"@ + projector + "/"@ + entity.name@
            &&& all[2 * at].method == "get"@
            &&& all[2 * at].body == scan_path_view(projector, entity, key, wait)
            &&& all[2 * at + 1].path == "/read/"@ + projector + "/"@ + entity.name@ + "/{key}"@
            &&& all[2 * at + 1].method == "get"@
            &&& all[2 * at + 1].body == get_one_path_view(projector, entity, key, wait)
        }),
    decreases upto,
{
    if at < upto - 1 {
        lemma_read_routes(events, entities, wait, (upto - 1) as nat, at);
    } else if upto >= 2 {
        lemma_read_routes(events, entities, wait, (upto - 1) as nat, upto - 2);
    } else {
        assert(read_routes(events, entities, wait, 0).len() == 0);
    }
}

/// The rows that a read answers with are of the schema that the entity's key names: one row
/// under `item`, or a list of them under `items`. A read says what it may be asked.
pub proof fn law_a_read_answers_with_rows_of_its_entity(projector: Seq<char>, entity: EntityDef, key: Seq<char>, wait: Wait)
    ensures
        answered(get_one_path_view(projector, entity, key, wait), "200"@) matches Some(schema) && (schema.member(
            "properties"@,
        ) matches Some(properties) && properties.member("item"@) == Some(schema_ref_view(key)) && properties.member(
            "position"@,
        ) is Some),
        answered(scan_path_view(projector, entity, key, wait), "200"@) matches Some(schema) && (schema.member(
            "properties"@,
        ) matches Some(properties) && properties.member("position"@) is Some && properties.member("next_cursor"@) is Some
            && (properties.member("items"@) matches Some(list) && list.member("items"@) == Some(schema_ref_view(key)))),
        answered(get_one_path_view(projector, entity, key, wait), "200"@) matches Some(schema)
            && requires_what_it_describes(schema),
        answered(scan_path_view(projector, entity, key, wait), "200"@) matches Some(schema)
            && requires_what_it_describes(schema),
        get_one_path_view(projector, entity, key, wait).member("parameters"@) == Some(get_one_params_view(entity, wait)),
        scan_path_view(projector, entity, key, wait).member("parameters"@) == Some(scan_params_view(entity, wait)),
{
    lemma_path_words();
    lemma_status_words();
    lemma_answer_words();
}

/// Whether a parameter is of that name and stands in that place, has to be given or not, and is
/// held to that schema.
pub open spec fn is_parameter(item: JsonView, name: Seq<char>, place: Seq<char>, needed: bool, schema: JsonView) -> bool {
    &&& item.member("name"@) == Some(JsonView::Text(name))
    &&& item.member("in"@) == Some(JsonView::Text(place))
    &&& item.member("required"@) == Some(JsonView::Bool(needed))
    &&& item.member("schema"@) == Some(schema)
}

/// A row is read by its key, which has to be given and is held to the schema of the key's column.
pub proof fn law_a_row_is_read_by_its_key(entity: EntityDef, wait: Wait)
    ensures
        get_one_params_view(entity, wait) matches JsonView::Array(items) && items.len() == 3 && is_parameter(
            items[0],
            "key"@,
            "path"@,
            true,
            field_schema_view(field_named(entity.fields@, entity.key@)->0.kind),
        ) && items[1].member("name"@) == Some(JsonView::Text("after"@)) && items[2].member("name"@) == Some(
            JsonView::Text("timeout_ms"@),
        ) && (items[2].member("schema"@) matches Some(schema) && schema.member("default"@) == Some(
            JsonView::Int(wait.default_ms as int),
        )),
{
    lemma_path_words();
    lemma_default_word();
}

proof fn lemma_default_word()
    ensures
        "default"@ != "type"@,
        "default"@ != "minimum"@,
{
    reveal_strlit("default");
    reveal_strlit("type");
    reveal_strlit("minimum");
    assert("default"@[0] == 'd');
    assert("minimum"@[0] == 'm');
    assert("type"@[0] == 't');
}

/// A scan takes a filter on exactly the columns that it can be filtered by, each once, held to
/// the schema of its column, behind the parameters of its page and its wait.
pub proof fn law_a_scan_takes_a_filter_on_each_column(entity: EntityDef, wait: Wait, name: Seq<char>)
    ensures
        scan_params_view(entity, wait) is Array,
        filterable(entity).contains(name) <==> exists|k: int|
            4 <= k < scan_params_view(entity, wait)->Array_0.len() && is_parameter(
                #[trigger] scan_params_view(entity, wait)->Array_0[k],
                name,
                "query"@,
                false,
                field_schema_view(field_named(entity.fields@, name)->0.kind),
            ),
        scan_params_view(entity, wait)->Array_0.len() == 4 + distinct(filterable(entity)).len(),
        distinct(filterable(entity)).no_duplicates(),
{
    lemma_path_words();
    let fields = distinct(filterable(entity));
    let all = scan_params_view(entity, wait)->Array_0;
    lemma_distinct(filterable(entity), name);
    let first = crate::openapi::wait_params_view(
        JsonView::array().item(
            query_param_view(
                "limit"@,
                crate::openapi::limit_text_view(),
                crate::openapi::unsigned_view().with(
                    "default"@,
                    JsonView::Int(crate::read_api::DEFAULT_LIMIT as int),
                ),
            ),
        ).item(
            query_param_view(
                "cursor"@,
                "An opaque forward cursor from a previous page's `next_cursor`. Pagination is by key, never by offset, so rows are neither skipped nor repeated when the model changes between pages."@,
                JsonView::object().with("type"@, JsonView::Text("string"@)),
            ),
        ),
        wait,
    );
    assert(first is Array && first->Array_0.len() == 4);
    lemma_filter_params(first, entity, fields);
    if fields.contains(name) {
        let i = fields.index_of(name);
        assert(all[4 + i] == filter_param_view(entity, name));
    }
    if exists|k: int|
        4 <= k < all.len() && is_parameter(
            #[trigger] all[k],
            name,
            "query"@,
            false,
            field_schema_view(field_named(entity.fields@, name)->0.kind),
        ) {
        let k = choose|k: int|
            4 <= k < all.len() && is_parameter(
                #[trigger] all[k],
                name,
                "query"@,
                false,
                field_schema_view(field_named(entity.fields@, name)->0.kind),
            );
        let i = k - 4;
        assert(all[4 + i] == filter_param_view(entity, fields[i]));
        assert(all[k].member("name"@) == Some(JsonView::Text(fields[i])));
        assert(fields[i] == name);
    }
}

proof fn lemma_filter_params(list: JsonView, entity: EntityDef, fields: Seq<Seq<char>>)
    requires
        list is Array,
    ensures
        filter_params_view(list, entity, fields) is Array,
        filter_params_view(list, entity, fields)->Array_0.len() == list->Array_0.len() + fields.len(),
        forall|i: int|
            0 <= i < fields.len() ==> filter_params_view(list, entity, fields)->Array_0[list->Array_0.len() + i]
                == filter_param_view(entity, #[trigger] fields[i]),
    decreases fields.len(),
{
    if fields.len() > 0 {
        let rest = fields.drop_last();
        lemma_filter_params(list, entity, rest);
        assert forall|i: int| 0 <= i < fields.len() implies filter_params_view(list, entity, fields)->Array_0[list->Array_0.len()
            + i] == filter_param_view(entity, #[trigger] fields[i]) by {
            if i < rest.len() {
                assert(rest[i] == fields[i]);
            }
        }
    }
}

// ---------------------------------------------------------------------------
// The document
// ---------------------------------------------------------------------------

/// Each route that is kept is the last of its path.
proof fn lemma_kept_is_last(routes: Seq<RouteView>, k: int) -> (i: int)
    requires
        0 <= k < last_of_each(routes).len(),
    ensures
        0 <= i < routes.len(),
        routes[i] == last_of_each(routes)[k],
        forall|j: int| i < j < routes.len() ==> (#[trigger] routes[j]).path != routes[i].path,
    decreases routes.len(),
{
    let rest = routes.skip(1);
    let later = last_of_each(rest);
    if k < later.len() {
        let i = lemma_kept_is_last(rest, k);
        assert(rest[i] == routes[i + 1]);
        assert forall|j: int| i + 1 < j < routes.len() implies (#[trigger] routes[j]).path != routes[i + 1].path by {
            assert(rest[j - 1] == routes[j]);
        }
        i + 1
    } else {
        assert forall|j: int| 0 < j < routes.len() implies (#[trigger] routes[j]).path != routes[0].path by {
            assert(rest[j - 1] == routes[j]);
            if rest[j - 1].path == routes[0].path {
                lemma_path_is_kept(rest, j - 1);
                let m = choose|m: int| 0 <= m < later.len() && (#[trigger] later[m]).path == rest[j - 1].path;
                assert(later[m].path == routes[0].path);
            }
        }
        0
    }
}

proof fn lemma_path_is_kept(routes: Seq<RouteView>, at: int)
    requires
        0 <= at < routes.len(),
    ensures
        exists|m: int|
            0 <= m < last_of_each(routes).len() && (#[trigger] last_of_each(routes)[m]).path == routes[at].path,
    decreases routes.len(),
{
    let rest = routes.skip(1);
    let later = last_of_each(rest);
    if at > 0 {
        lemma_path_is_kept(rest, at - 1);
        let m = choose|m: int| 0 <= m < later.len() && (#[trigger] later[m]).path == rest[at - 1].path;
        assert(last_of_each(routes)[m] == later[m]);
    } else if exists|m: int| 0 <= m < later.len() && (#[trigger] later[m]).path == routes[0].path {
        let m = choose|m: int| 0 <= m < later.len() && (#[trigger] later[m]).path == routes[0].path;
        assert(last_of_each(routes)[m] == later[m]);
    } else {
        assert(last_of_each(routes)[later.len() as int] == routes[0]);
    }
}

/// Among the paths, each has the operation of the last route listed under it.
proof fn lemma_path_item(list: Seq<RouteView>, ids: Seq<Seq<char>>, upto: nat, path: Seq<char>, at: int)
    requires
        0 <= at < upto <= list.len(),
        list[at].path == path,
        forall|j: int| at < j < upto ==> (#[trigger] list[j]).path != path,
    ensures
        path_items(list, ids, upto) is Object,
        path_items(list, ids, upto).member(path) == Some(
            JsonView::object().with(
                list[at].method,
                list[at].body.with("operationId"@, JsonView::Text(ids[at])),
            ),
        ),
    decreases upto,
{
    if at < upto - 1 {
        assert(list[upto - 1].path != path);
        lemma_path_item(list, ids, (upto - 1) as nat, path, at);
    } else {
        lemma_items_are_an_object(list, ids, (upto - 1) as nat);
    }
}

proof fn lemma_items_are_an_object(list: Seq<RouteView>, ids: Seq<Seq<char>>, upto: nat)
    ensures
        path_items(list, ids, upto) is Object,
    decreases upto,
{
    if upto > 0 {
        lemma_items_are_an_object(list, ids, (upto - 1) as nat);
    }
}

/// A path has the operation of the last route that was declared under it: its method, and what
/// is said of it, to which only an id is added.
pub proof fn law_a_path_has_the_operation_of_its_route(routes: Seq<RouteView>, at: int, other: Seq<char>)
    requires
        0 <= at < routes.len(),
        routes[at].body is Object,
        forall|j: int| at < j < routes.len() ==> (#[trigger] routes[j]).path != routes[at].path,
        other != "operationId"@,
    ensures
        paths_view(routes).member(routes[at].path) matches Some(item) && (item.member(routes[at].method) matches Some(
            operation,
        ) && operation.member(other) == routes[at].body.member(other) && operation.member("operationId"@) matches Some(
            JsonView::Text(_),
        )),
{
    let kept = last_of_each(routes);
    let list = listed(routes);
    let path = routes[at].path;
    lemma_path_is_kept(routes, at);
    let m = choose|m: int| 0 <= m < kept.len() && (#[trigger] kept[m]).path == path;
    let i = lemma_kept_is_last(routes, m);
    assert(i == at) by {
        if i < at {
            assert(routes[at].path != routes[i].path);
        } else if at < i {
            assert(routes[i].path != routes[at].path);
        }
    }
    assert(kept.contains(kept[m]));
    lemma_sorted_contains(kept, by_path(), kept[m]);
    assert forall|j: int| 0 <= j < list.len() && (#[trigger] list[j]).path == path implies list[j] == routes[at] by {
        assert(list.contains(list[j]));
        lemma_sorted_contains(kept, by_path(), list[j]);
        let n = kept.index_of(list[j]);
        let l = lemma_kept_is_last(routes, n);
        if l < at {
            assert(routes[at].path != routes[l].path);
        } else if at < l {
            assert(routes[l].path != routes[at].path);
        }
    }
    let last = lemma_last_with_path(list, path, list.index_of(kept[m]));
    lemma_path_item(list, operation_ids(list), list.len(), path, last);
}

proof fn lemma_last_with_path(list: Seq<RouteView>, path: Seq<char>, at: int) -> (last: int)
    requires
        0 <= at < list.len(),
        list[at].path == path,
    ensures
        at <= last < list.len(),
        list[last].path == path,
        forall|j: int| last < j < list.len() ==> (#[trigger] list[j]).path != path,
    decreases list.len() - at,
{
    if exists|j: int| at < j < list.len() && (#[trigger] list[j]).path == path {
        let j = choose|j: int| at < j < list.len() && (#[trigger] list[j]).path == path;
        lemma_last_with_path(list, path, j)
    } else {
        at
    }
}

/// The document names the version it was made for and holds the tags, the paths of every route,
/// and the schemas of every event and entity.
pub proof fn law_the_document_describes_the_surface(surface: Surface, settings: Settings)
    ensures
        document(surface, settings).member("openapi"@) == Some(JsonView::Text("3.1.0"@)),
        document(surface, settings).member("info"@) matches Some(info) && info.member("version"@) == Some(
            JsonView::Text(settings.version@),
        ),
        document(surface, settings).member("tags"@) == Some(tags_view(surface.projectors@)),
        document(surface, settings).member("paths"@) == Some(paths_view(routes(surface, settings.wait))),
        document(surface, settings).member("components"@) matches Some(held) && held.member("schemas"@) == Some(
            components(named_views(surface.events@), served(surface.projectors@)),
        ),
{
    lemma_path_words();
}

/// The routes are those of the commands, of the entities, and of the operator, and no others.
pub proof fn law_every_declared_route_is_one_of_the_surface(surface: Surface, wait: Wait, route: RouteView)
    ensures
        command_routes(named_views(surface.commands@)).contains(route) ==> routes(surface, wait).contains(route),
        read_routes(
            named_views(surface.events@),
            served(surface.projectors@),
            wait,
            served(surface.projectors@).len(),
        ).contains(route) ==> routes(surface, wait).contains(route),
{
    let a = command_routes(named_views(surface.commands@));
    let b = read_routes(
        named_views(surface.events@),
        served(surface.projectors@),
        wait,
        served(surface.projectors@).len(),
    );
    let all = routes(surface, wait);
    if a.contains(route) {
        let k = a.index_of(route);
        assert(all[k] == route);
    }
    if b.contains(route) {
        let k = b.index_of(route);
        assert(all[a.len() + k] == route);
    }
}

// ---------------------------------------------------------------------------
// Names
// ---------------------------------------------------------------------------

/// A name keeps its letters and digits in a key and in an id. In a key it keeps its dots, dashes
/// and underscores too. Whatever else it holds is an underscore.
pub proof fn law_a_name_keeps_what_may_stand_in_it(raw: Seq<char>, at: int)
    requires
        0 <= at < raw.len(),
    ensures
        component_view(raw).len() == raw.len(),
        identifier_view(raw).len() == raw.len(),
        'a' <= raw[at] <= 'z' || 'A' <= raw[at] <= 'Z' || '0' <= raw[at] <= '9' ==> component_view(raw)[at] == raw[at]
            && identifier_view(raw)[at] == raw[at],
        raw[at] == '.' || raw[at] == '-' ==> component_view(raw)[at] == raw[at] && identifier_view(raw)[at] == '_',
        component_view(raw)[at] == raw[at] || component_view(raw)[at] == '_',
        ({
            let c = identifier_view(raw)[at];
            'a' <= c <= 'z' || 'A' <= c <= 'Z' || '0' <= c <= '9' || c == '_'
        }),
        ({
            let c = component_view(raw)[at];
            'a' <= c <= 'z' || 'A' <= c <= 'Z' || '0' <= c <= '9' || c == '_' || c == '.' || c == '-'
        }),
{
}

/// A free name is taken as it is. Where it is not free, the name that is taken starts with it
/// and was free.
pub proof fn law_a_claimed_name_was_free(taken: Seq<Seq<char>>, candidate: Seq<char>)
    ensures
        !taken.contains(claimed(taken, candidate)),
        !taken.contains(candidate) ==> claimed(taken, candidate) == candidate,
        candidate.is_prefix_of(claimed(taken, candidate)),
{
    lemma_claimed(taken, candidate);
}

/// What a projector is built from names each of its types, and says so where it is built from
/// every event or from none. What it materialises names each of its entities.
pub proof fn law_a_projector_is_described_by_what_it_reads_and_keeps(
    types: Seq<Seq<char>>,
    entities: Seq<EntityDef>,
    at: int,
)
    ensures
        built_from(None) == "every event"@,
        built_from(Some(Seq::empty())) == "no declared source"@,
        0 <= at < types.len() ==> has_part(built_from(Some(types)), types[at]),
        0 <= at < entities.len() ==> has_part(materialises(entities), entities[at].name@),
        materialises(Seq::empty()) == "no entities"@,
{
    if 0 <= at < types.len() {
        lemma_joined_part(types, "`, `"@, at);
        lemma_part_behind("`"@, joined(types, "`, `"@), types[at]);
        lemma_part_in_front("`"@ + joined(types, "`, `"@), "`"@, types[at]);
    }
    if 0 <= at < entities.len() {
        let names = entities.map_values(|entity: EntityDef| entity.name@);
        lemma_joined_part(names, "`, `"@, at);
        lemma_part_behind("`"@, joined(names, "`, `"@), names[at]);
        lemma_part_in_front("`"@ + joined(names, "`, `"@), "`"@, names[at]);
    }
}

// ---------------------------------------------------------------------------
// The operator's endpoints
// ---------------------------------------------------------------------------

/// A name is held to those that there are. Where there are none, it is only a text.
pub proof fn law_a_name_is_held_to_those_that_there_are(names: Seq<Seq<char>>, at: int)
    ensures
        name_schema_view(names).member("type"@) == Some(JsonView::Text("string"@)),
        name_schema_view(names).member("enum"@) is None <==> names.len() == 0,
        0 <= at < names.len() ==> (name_schema_view(names).member("enum"@) matches Some(JsonView::Array(items))
            && items.len() == names.len() && items[at] == JsonView::Text(names[at])),
{
    lemma_schema_words();
}

/// A position is a whole number that is not negative.
pub proof fn law_a_position_is_a_whole_number(description: Seq<char>)
    ensures
        position_schema_view(description).member("type"@) == Some(JsonView::Text("integer"@)),
        position_schema_view(description).member("minimum"@) == Some(JsonView::Int(0)),
        position_schema_view(description).member("format"@) == Some(JsonView::Text("int64"@)),
        position_schema_view(description).member("description"@) == Some(JsonView::Text(description)),
{
    lemma_schema_words();
}

/// A projector is rebuilt by its name, and an effect is taken past a position by its name and
/// that position, all of which have to be given.
pub proof fn law_an_operator_names_what_there_is(projectors: Seq<Seq<char>>, effects: Seq<Seq<char>>)
    ensures
        replay_path_view(projectors).member("parameters"@) matches Some(JsonView::Array(items)) && items.len() == 1
            && is_parameter(items[0], "name"@, "path"@, true, name_schema_view(projectors)),
        skip_path_view(effects).member("parameters"@) matches Some(JsonView::Array(items)) && items.len() == 2
            && is_parameter(items[0], "name"@, "path"@, true, name_schema_view(effects)) && is_parameter(
            items[1],
            "position"@,
            "path"@,
            true,
            JsonView::object().with("type"@, JsonView::Text("integer"@)).with("minimum"@, JsonView::Int(0)),
        ),
        answered(replay_path_view(projectors), "202"@) matches Some(schema) && requires_what_it_describes(schema),
        answered(replay_path_view(projectors), "404"@) == Some(schema_ref_view("Error"@)),
        answered(replay_path_view(projectors), "503"@) == Some(schema_ref_view("Error"@)),
        answered(skip_path_view(effects), "202"@) matches Some(schema) && requires_what_it_describes(schema),
{
    lemma_path_words();
    lemma_status_words();
    lemma_answer_words();
}

/// The operator's endpoints stand at their paths: two are posted to, and the others are read.
pub proof fn law_the_operators_endpoints_stand_at_their_paths(projectors: Seq<Seq<char>>, effects: Seq<Seq<char>>)
    ensures
        operation_routes(projectors, effects).len() == 6,
        operation_routes(projectors, effects)[0].path == "/projectors/{name}/replay"@,
        operation_routes(projectors, effects)[0].body == replay_path_view(projectors),
        operation_routes(projectors, effects)[1].path == "/effects/{name}/skip/{position}"@,
        operation_routes(projectors, effects)[1].body == skip_path_view(effects),
        operation_routes(projectors, effects)[2].path == "/status"@,
        operation_routes(projectors, effects)[3].path == "/health"@,
        operation_routes(projectors, effects)[4].path == "/openapi.json"@,
        operation_routes(projectors, effects)[5].path == "/docs"@,
        forall|i: int|
            0 <= i < 6 ==> (#[trigger] operation_routes(projectors, effects)[i]).method == if i < 2 {
                "post"@
            } else {
                "get"@
            },
{
}

/// An appended event is reported with one of the declared types and with its tags.
pub proof fn law_an_appended_event_is_of_a_declared_type(types: Seq<Seq<char>>)
    ensures
        emitted_event_schema_view(types).member("properties"@) matches Some(properties) && properties.member(
            "tags"@,
        ) is Some && (properties.member("type"@) matches Some(schema) && schema.member("enum"@) == name_schema_view(
            types,
        ).member("enum"@) && schema.member("type"@) == Some(JsonView::Text("string"@))),
{
    lemma_schema_words();
    lemma_path_words();
    lemma_tags_word();
}

proof fn lemma_tags_word()
    ensures
        "tags"@ != "type"@,
{
    reveal_strlit("tags");
    reveal_strlit("type");
    assert("tags"@[1] == 'a');
    assert("type"@[1] == 'y');
}

/// A projector's tag names it, and tells of what it is built from and what it keeps.
pub proof fn law_a_projectors_tag_tells_of_it(
    name: Seq<char>,
    entities: Seq<EntityDef>,
    sources: Option<Seq<Seq<char>>>,
)
    ensures
        has_part(projector_tag_view(name, entities, sources), name),
        has_part(projector_tag_view(name, entities, sources), built_from(sources)),
        has_part(projector_tag_view(name, entities, sources), materialises(entities)),
{
    let from = built_from(sources);
    let kept = materialises(entities);
    let a = "The `"@ + name;
    let b = a + "` projector's read model, built from "@;
    let c = b + from;
    let d = c + " and materialising "@;
    let e = d + kept;
    let end =
        ". Rows are a view of the log rather than the log itself: they are eventually consistent, and every response carries the log `position` it was read at. Pass `after` for read-your-writes."@;
    lemma_part_of_itself(name);
    lemma_part_behind("The `"@, name, name);
    lemma_part_in_front(a, "` projector's read model, built from "@, name);
    lemma_part_in_front(b, from, name);
    lemma_part_in_front(c, " and materialising "@, name);
    lemma_part_in_front(d, kept, name);
    lemma_part_in_front(e, end, name);
    lemma_part_of_itself(from);
    lemma_part_behind(b, from, from);
    lemma_part_in_front(c, " and materialising "@, from);
    lemma_part_in_front(d, kept, from);
    lemma_part_in_front(e, end, from);
    lemma_part_of_itself(kept);
    lemma_part_behind(d, kept, kept);
    lemma_part_in_front(e, end, kept);
}

/// The schemas that are always present have different names.
proof fn lemma_fixed_names()
    ensures
        "ErrorDetail"@ != "Error"@,
        "ErrorDetail"@ != "CommandError"@,
        "ErrorDetail"@ != "CommandAccepted"@,
        "ErrorDetail"@ != "EmittedEvent"@,
        "ErrorDetail"@ != "Status"@,
        "ErrorDetail"@ != "ProjectorStatus"@,
        "ErrorDetail"@ != "EffectStatus"@,
        "Error"@ != "CommandError"@,
        "Error"@ != "CommandAccepted"@,
        "Error"@ != "EmittedEvent"@,
        "Error"@ != "Status"@,
        "Error"@ != "ProjectorStatus"@,
        "Error"@ != "EffectStatus"@,
        "CommandError"@ != "CommandAccepted"@,
        "CommandError"@ != "EmittedEvent"@,
        "CommandError"@ != "Status"@,
        "CommandError"@ != "ProjectorStatus"@,
        "CommandError"@ != "EffectStatus"@,
        "CommandAccepted"@ != "EmittedEvent"@,
        "CommandAccepted"@ != "Status"@,
        "CommandAccepted"@ != "ProjectorStatus"@,
        "CommandAccepted"@ != "EffectStatus"@,
        "EmittedEvent"@ != "Status"@,
        "EmittedEvent"@ != "ProjectorStatus"@,
        "EmittedEvent"@ != "EffectStatus"@,
        "Status"@ != "ProjectorStatus"@,
        "Status"@ != "EffectStatus"@,
        "ProjectorStatus"@ != "EffectStatus"@,
{
    reveal_strlit("ErrorDetail");
    reveal_strlit("Error");
    reveal_strlit("CommandError");
    reveal_strlit("CommandAccepted");
    reveal_strlit("EmittedEvent");
    reveal_strlit("Status");
    reveal_strlit("ProjectorStatus");
    reveal_strlit("EffectStatus");
    assert("ErrorDetail"@.len() == 11);
    assert("Error"@.len() == 5);
    assert("CommandError"@.len() == 12);
    assert("CommandAccepted"@.len() == 15);
    assert("EmittedEvent"@.len() == 12);
    assert("Status"@.len() == 6);
    assert("ProjectorStatus"@.len() == 15);
    assert("EffectStatus"@.len() == 12);
    assert("CommandError"@[0] == 'C');
    assert("EmittedEvent"@[0] == 'E');
    assert("EffectStatus"@[0] == 'E');
    assert("CommandAccepted"@[0] == 'C');
    assert("ProjectorStatus"@[0] == 'P');
    assert("EmittedEvent"@[1] == 'm');
    assert("EffectStatus"@[1] == 'f');
}

/// Whether a schema is of an object with the members that it describes and no others, and every
/// member that it says is always there is one of them.
pub open spec fn requires_what_it_describes(schema: JsonView) -> bool {
    &&& schema.member("type"@) == Some(JsonView::Text("object"@))
    &&& schema.member("additionalProperties"@) == Some(JsonView::Bool(false))
    &&& schema.member("properties"@) matches Some(properties)
    &&& schema.member("required"@) matches Some(JsonView::Array(items))
    &&& items.len() > 0
    &&& forall|i: int|
        0 <= i < items.len() ==> (#[trigger] items[i] matches JsonView::Text(name) && properties.member(name) is Some)
}

/// Each schema that is always present describes every member that it says is always there.
pub proof fn law_a_fixed_schema_requires_what_it_describes(types: Seq<Seq<char>>, name: Seq<char>)
    requires
        name == "ErrorDetail"@ || name == "Error"@ || name == "CommandError"@ || name == "CommandAccepted"@ || name
            == "EmittedEvent"@ || name == "Status"@ || name == "ProjectorStatus"@ || name == "EffectStatus"@,
    ensures
        fixed_components(types).member(name) matches Some(schema) && requires_what_it_describes(schema),
{
    lemma_fixed_names();
    lemma_schema_words();
}

} // verus!
