//! The schema of a field on the wire.

use vstd::prelude::*;

use crate::json::{Json, JsonView};
use crate::read_model::flat;
use crate::schema::{base_kind, FieldKind};
use crate::text::{decimal, join, join3, joined, views};

verus! {

/// The schema of a field of some kind, on the wire. An optional field has the schema of
/// what it may hold.
pub open spec fn field_schema_view(kind: FieldKind) -> JsonView {
    match base_kind(kind) {
        FieldKind::Text { max_length: Some(max) } => JsonView::object().with(
            "type"@,
            JsonView::Text("string"@),
        ).with("maxLength"@, JsonView::Int(max as int)),
        FieldKind::Text { max_length: None } => JsonView::object().with(
            "type"@,
            JsonView::Text("string"@),
        ),
        FieldKind::Uuid => JsonView::object().with("type"@, JsonView::Text("string"@)).with(
            "format"@,
            JsonView::Text("uuid"@),
        ),
        FieldKind::Timestamp => JsonView::object().with("type"@, JsonView::Text("string"@)).with(
            "format"@,
            JsonView::Text("date-time"@),
        ),
        FieldKind::Money { .. } => JsonView::object().with("type"@, JsonView::Text("string"@)).with(
            "description"@,
            JsonView::Text("decimal amount"@),
        ),
        FieldKind::OneOf(variants) => JsonView::object().with(
            "type"@,
            JsonView::Text("string"@),
        ).with("enum"@, JsonView::texts(views(variants@))),
        FieldKind::I64 => JsonView::object().with("type"@, JsonView::Text("integer"@)).with(
            "format"@,
            JsonView::Text("int64"@),
        ),
        FieldKind::U64 => JsonView::object().with("type"@, JsonView::Text("integer"@)).with(
            "minimum"@,
            JsonView::Int(0),
        ).with("description"@, JsonView::Text("unsigned 64-bit integer (0 to 2^64-1)"@)),
        FieldKind::Bool => JsonView::object().with("type"@, JsonView::Text("boolean"@)),
        FieldKind::Json | FieldKind::Optional(_) => JsonView::object(),
    }
}

/// The schema of a field of some kind.
///
/// An unsigned integer states its ceiling in words: many readers of JSON take a bound as
/// a float, which would corrupt it.
pub(crate) fn field_schema(kind: &FieldKind) -> (r: Json)
    requires
        flat(*kind),
    ensures
        r@ == field_schema_view(*kind),
{
    match kind.base() {
        FieldKind::Text { max_length: Some(max) } => Json::object().with(
            "type",
            Json::text("string"),
        ).with("maxLength", Json::Int(*max as i128)),
        FieldKind::Text { max_length: None } => Json::object().with("type", Json::text("string")),
        FieldKind::Uuid => Json::object().with("type", Json::text("string")).with(
            "format",
            Json::text("uuid"),
        ),
        FieldKind::Timestamp => Json::object().with("type", Json::text("string")).with(
            "format",
            Json::text("date-time"),
        ),
        FieldKind::Money { .. } => Json::object().with("type", Json::text("string")).with(
            "description",
            Json::text("decimal amount"),
        ),
        FieldKind::OneOf(variants) => Json::object().with("type", Json::text("string")).with(
            "enum",
            Json::texts(variants),
        ),
        FieldKind::I64 => Json::object().with("type", Json::text("integer")).with(
            "format",
            Json::text("int64"),
        ),
        FieldKind::U64 => Json::object().with("type", Json::text("integer")).with(
            "minimum",
            Json::Int(0),
        ).with("description", Json::text("unsigned 64-bit integer (0 to 2^64-1)")),
        FieldKind::Bool => Json::object().with("type", Json::text("boolean")),
        FieldKind::Json => Json::object(),
        FieldKind::Optional(_) => Json::object(),
    }
}

/// A schema widened to admit null: in its type, and among its variants, which would
/// otherwise refuse the null that the type permits. A schema without a type admits it
/// already.
pub open spec fn nullable_view(schema: JsonView) -> JsonView {
    match schema.member("type"@) {
        Some(JsonView::Text(single)) => {
            let widened = schema.with(
                "type"@,
                JsonView::array().item(JsonView::Text(single)).item(JsonView::Text("null"@)),
            );
            match schema.member("enum"@) {
                Some(JsonView::Array(variants)) => widened.with(
                    "enum"@,
                    JsonView::Array(variants.push(JsonView::Null)),
                ),
                _ => widened,
            }
        },
        _ => schema,
    }
}

/// A schema widened to admit null.
pub(crate) fn nullable(schema: Json) -> (r: Json)
    ensures
        r@ == nullable_view(schema@),
{
    let single = match schema.get("type") {
        Some(Json::Text(single)) => single.clone(),
        _ => {
            return schema;
        },
    };
    let variants = match schema.get("enum") {
        Some(found) => match found {
            Json::Array(_) => Some(found.copy().item(Json::Null)),
            _ => None,
        },
        None => None,
    };
    let widened = schema.with(
        "type",
        Json::array().item(Json::Text(single)).item(Json::text("null")),
    );
    match variants {
        Some(variants) => widened.with("enum", variants),
        None => widened,
    }
}

/// A field's schema with what is to be said of the field behind what is said of its kind.
pub open spec fn annotated_view(kind: FieldKind, notes: Seq<Seq<char>>) -> JsonView {
    let schema = field_schema_view(kind);
    if notes.len() == 0 {
        schema
    } else {
        match schema.member("description"@) {
            Some(JsonView::Text(existing)) => schema.with(
                "description"@,
                JsonView::Text(existing + ". "@ + joined(notes, " "@)),
            ),
            _ => schema.with("description"@, JsonView::Text(joined(notes, " "@))),
        }
    }
}

/// A field's schema with notes on the field. They never stand in for what the kind says
/// of itself: an amount of money would look like any other text.
pub(crate) fn annotated(kind: &FieldKind, notes: &Vec<String>) -> (r: Json)
    requires
        flat(*kind),
    ensures
        r@ == annotated_view(*kind, views(notes@)),
{
    let schema = field_schema(kind);
    if notes.len() == 0 {
        return schema;
    }
    let described = match schema.get("description") {
        Some(Json::Text(existing)) => join3(existing, ". ", &join(notes, " ")),
        _ => join(notes, " "),
    };
    schema.with("description", Json::Text(described))
}

} // verus!
