//! The SQL of a projector's read model: each declared entity is a table, and an entity
//! operation is one statement over it with its values bound by the declared kinds.

use serde_json::Value;
use vstd::prelude::*;

use crate::json::{Json, JsonView};
use crate::read_api::{
    bound_operator, chosen_index, choose_index, range_bounds, Access, AccessView, Filter, key_text};
use crate::schema::{
    base_kind, column_type, field_named, field_names, find_field, keyable, EntityDef, EntityOpKind, FieldKind, FieldMeta,
    meta_column_type,
};
use crate::sql::{quote_ident, quoted, quoted_all};
use crate::text::{
    has_part, join, joined, lemma_signed_decimal_value, parse_i64, parsed_i64, same, views,
};

verus! {

// ---------------------------------------------------------------------------
// Values
// ---------------------------------------------------------------------------

/// A value bound to a statement's parameter.
pub enum SqlValue {
    Null,
    Integer(i64),
    Text(String),
}

/// What a bound value is.
pub enum SqlView {
    Null,
    Integer(i64),
    Text(Seq<char>),
}

pub open spec fn sql_view(value: SqlValue) -> SqlView {
    match value {
        SqlValue::Null => SqlView::Null,
        SqlValue::Integer(n) => SqlView::Integer(n),
        SqlValue::Text(text) => SqlView::Text(text@),
    }
}

/// The values of a list.
pub open spec fn sql_views(values: Seq<SqlValue>) -> Seq<SqlView> {
    Seq::new(values.len(), |i: int| sql_view(values[i]))
}

/// A statement and the values of its parameters.
pub struct Statement {
    pub sql: String,
    pub binds: Vec<SqlValue>,
}

/// What a column holds when it is read.
pub enum Stored {
    Null,
    Integer(i64),
    /// A floating-point number as JSON writes it, absent where JSON cannot.
    Real(Option<String>),
    Text(Vec<u8>),
    Blob,
}

/// What a string given for a column of some kind is bound as, or why it cannot be.
pub open spec fn coerced(kind: FieldKind, raw: Seq<char>) -> Result<SqlView, Seq<char>> {
    match base_kind(kind) {
        FieldKind::Bool => if raw == "true"@ || raw == "1"@ {
            Ok(SqlView::Integer(1))
        } else if raw == "false"@ || raw == "0"@ {
            Ok(SqlView::Integer(0))
        } else {
            Err("expected a boolean (`true` or `false`)"@)
        },
        FieldKind::I64 | FieldKind::U64 => match parsed_i64(raw) {
            Some(n) => Ok(SqlView::Integer(n)),
            None => Err("expected an integer"@),
        },
        _ => Ok(SqlView::Text(raw)),
    }
}

pub open spec fn coercion_view(r: Result<SqlValue, &'static str>) -> Result<SqlView, Seq<char>> {
    match r {
        Ok(value) => Ok(sql_view(value)),
        Err(reason) => Err(reason@),
    }
}

/// Coerces the string form of a key or a filter value to the column's type. An error says
/// that the string cannot be of that type, so that a bad filter is refused rather than
/// matching nothing.
pub fn coerce_value(kind: &FieldKind, raw: &str) -> (r: Result<SqlValue, &'static str>)
    ensures
        coercion_view(r) == coerced(*kind, raw@),
{
    match kind.base() {
        // A Bool column is stored as an integer, so a word must bind as one too.
        FieldKind::Bool => {
            if same(raw, "true") || same(raw, "1") {
                Ok(SqlValue::Integer(1))
            } else if same(raw, "false") || same(raw, "0") {
                Ok(SqlValue::Integer(0))
            } else {
                Err("expected a boolean (`true` or `false`)")
            }
        },
        FieldKind::I64 | FieldKind::U64 => {
            match parse_i64(raw) {
                Some(n) => Ok(SqlValue::Integer(n)),
                None => Err("expected an integer"),
            }
        },
        _ => Ok(SqlValue::Text(raw.to_owned())),
    }
}

/// A string bound as its column's type, or as text where it is not of it.
pub open spec fn bound_or_text(kind: FieldKind, raw: Seq<char>) -> SqlView {
    match coerced(kind, raw) {
        Ok(value) => value,
        Err(_) => SqlView::Text(raw),
    }
}

/// Binds a key or filter string as its column's type, and as text where it does not
/// parse.
pub fn bind_or_text(kind: &FieldKind, raw: &str) -> (r: SqlValue)
    ensures
        sql_view(r) == bound_or_text(*kind, raw@),
{
    match coerce_value(kind, raw) {
        Ok(value) => value,
        Err(_) => SqlValue::Text(raw.to_owned()),
    }
}

// ---------------------------------------------------------------------------
// JSON members
// ---------------------------------------------------------------------------

/// One member of a JSON object, as far as a column is filled from it.
pub struct Member {
    pub value: Scalar,
    /// The member's value as JSON writes it.
    pub printed: String,
}

/// What a value is, and its content where it is not a container.
pub enum Scalar {
    Null,
    Bool(bool),
    /// A number, and its value where that is a 64-bit integer.
    Number(Option<i64>),
    Text(String),
    List,
    Object,
}

pub enum ScalarView {
    Null,
    Bool(bool),
    Number(Option<i64>),
    Text(Seq<char>),
    List,
    Object,
}

pub open spec fn scalar_view(value: Scalar) -> ScalarView {
    match value {
        Scalar::Null => ScalarView::Null,
        Scalar::Bool(b) => ScalarView::Bool(b),
        Scalar::Number(n) => ScalarView::Number(n),
        Scalar::Text(text) => ScalarView::Text(text@),
        Scalar::List => ScalarView::List,
        Scalar::Object => ScalarView::Object,
    }
}

/// A member's value, and that value as JSON writes it.
pub type MemberView = (ScalarView, Seq<char>);

pub open spec fn member_view(member: Member) -> MemberView {
    (scalar_view(member.value), member.printed@)
}

/// A list of members as a map: a later member of a name stands in for an earlier one.
pub open spec fn member_map(members: Seq<(String, Member)>) -> Map<Seq<char>, MemberView>
    decreases members.len(),
{
    if members.len() == 0 {
        Map::empty()
    } else {
        member_map(members.drop_last()).insert(members.last().0@, member_view(members.last().1))
    }
}

/// What `serde_json::from_str` reads a text as: an error, or a value, with its members
/// where it is an object.
pub uninterp spec fn json_document(text: Seq<char>) -> Result<
    ((ScalarView, Seq<char>), Map<Seq<char>, (ScalarView, Seq<char>)>),
    Seq<char>,
>;

pub open spec fn document_view(r: Result<(Member, Vec<(String, Member)>), String>) -> Result<
    (MemberView, Map<Seq<char>, MemberView>),
    Seq<char>,
> {
    match r {
        Ok((whole, members)) => Ok((member_view(whole), member_map(members@))),
        Err(message) => Err(message@),
    }
}

/// Whether the text that a member is written as reads as that member again: as the same
/// null, flag, integer or text, or as a list, an object or another number.
pub open spec fn reads_again(member: MemberView) -> bool {
    json_document(member.1) matches Ok((whole, _)) && whole.0 == member.0
}

/// Whether that holds of all members.
pub open spec fn written_members(members: Map<Seq<char>, MemberView>) -> bool {
    forall|name: Seq<char>| members.contains_key(name) ==> reads_again(#[trigger] members[name])
}

/// Whether the same holds of the members that are neither lists nor objects.
pub open spec fn written_scalars(members: Map<Seq<char>, MemberView>) -> bool {
    forall|name: Seq<char>|
        members.contains_key(name) && !((#[trigger] members[name]).0 is List) && !(
        members[name].0 is Object) ==> reads_again(members[name])
}

/// Whether a text holds none of the keys that `serde_json` keeps for itself, under which
/// an object is read as a number or as a document of its own: not as they are, and not
/// with a character of theirs given by its number.
pub open spec fn unreserved(text: Seq<char>) -> bool {
    !has_part(text, "$serde_json::private::"@) && !has_part(text, "\\u"@)
}

/// Reads a text with `serde_json::from_str`: the value, and its members where it is an
/// object, each with the text that `serde_json` writes it as. What the text is read as is
/// left to `serde_json`; claimed is that it depends on the text alone, and that what
/// `serde_json` writes a member as reads as that member again. Of a list and of an object
/// that is claimed only where the text is free of the keys that `serde_json` reserves: what
/// stands under one is read by other rules, and its written form may not be read again.
#[verifier::external_body]
pub(crate) fn parse_document(text: &str) -> (r: Result<(Member, Vec<(String, Member)>), String>)
    ensures
        document_view(r) == json_document(text@),
        r matches Ok((_, members)) ==> written_scalars(member_map(members@)),
        unreserved(text@) ==> (r matches Ok((_, members)) ==> written_members(member_map(members@))),
{
    let value = serde_json::from_str::<Value>(text).map_err(|err| err.to_string())?;
    let member = |value: &Value| Member { printed: value.to_string(), value: match value {
        Value::Null => Scalar::Null,
        Value::Bool(flag) => Scalar::Bool(*flag),
        Value::Number(number) => Scalar::Number(number.as_i64()),
        Value::String(text) => Scalar::Text(text.clone()),
        Value::Array(_) => Scalar::List,
        Value::Object(_) => Scalar::Object,
    } };
    let members = value.as_object().into_iter().flatten();
    Ok((member(&value), members.map(|(name, value)| (name.clone(), member(value))).collect()))
}

/// What a text is as an object: an error, something that is not an object, or an object's
/// members.
pub open spec fn json_object(text: Seq<char>) -> Result<Option<Map<Seq<char>, MemberView>>, Seq<char>> {
    match json_document(text) {
        Ok((whole, members)) => if whole.0 is Object {
            Ok(Some(members))
        } else {
            Ok(None)
        },
        Err(message) => Err(message),
    }
}

pub open spec fn object_view(r: Result<Option<Vec<(String, Member)>>, String>) -> Result<
    Option<Map<Seq<char>, MemberView>>,
    Seq<char>,
> {
    match r {
        Ok(Some(members)) => Ok(Some(member_map(members@))),
        Ok(None) => Ok(None),
        Err(message) => Err(message@),
    }
}

/// Reads a text as an object.
pub fn parse_object(text: &str) -> (r: Result<Option<Vec<(String, Member)>>, String>)
    ensures
        object_view(r) == json_object(text@),
        r matches Ok(Some(members)) ==> written_scalars(member_map(members@)),
        unreserved(text@) ==> (r matches Ok(Some(members)) ==> written_members(member_map(members@))),
{
    match parse_document(text) {
        Ok((whole, members)) => {
            if let Scalar::Object = whole.value {
                Ok(Some(members))
            } else {
                Ok(None)
            }
        },
        Err(message) => Err(message),
    }
}

/// Where the last member of a name stands.
fn find_member(members: &Vec<(String, Member)>, name: &str) -> (r: Option<usize>)
    ensures
        match r {
            Some(i) => i < members.len() && member_map(members@).contains_key(name@)
                && member_map(members@)[name@] == member_view(members@[i as int].1),
            None => !member_map(members@).contains_key(name@),
        },
{
    let mut i: usize = members.len();
    assert(members@.take(i as int) =~= members@);
    while i > 0
        invariant
            i <= members.len(),
            member_map(members@).contains_key(name@) == member_map(
                members@.take(i as int),
            ).contains_key(name@),
            member_map(members@).contains_key(name@) ==> member_map(members@)[name@] == member_map(
                members@.take(i as int),
            )[name@],
        decreases i,
    {
        assert(members@.take(i as int).drop_last() =~= members@.take(i as int - 1));
        i -= 1;
        if same(&members[i].0, name) {
            return Some(i);
        }
    }
    assert(members@.take(0) =~= Seq::empty());
    None
}

/// What a member's value is bound as in a column, or why it cannot be. A subject-scoped
/// column stores its ciphertext verbatim.
pub open spec fn column_value(meta: FieldMeta, member: MemberView) -> Result<SqlView, Seq<char>> {
    let (value, printed) = member;
    if value is Null {
        Ok(SqlView::Null)
    } else if meta.subject is Some {
        match value {
            ScalarView::Text(text) => Ok(SqlView::Text(text)),
            _ => Err("a subject-scoped column stores ciphertext text"@),
        }
    } else {
        match base_kind(meta.kind) {
            FieldKind::Bool => match value {
                ScalarView::Bool(flag) => Ok(
                    SqlView::Integer(
                        if flag {
                            1
                        } else {
                            0
                        },
                    ),
                ),
                ScalarView::Number(Some(n)) => Ok(SqlView::Integer(n)),
                _ => Err("expected a boolean"@),
            },
            FieldKind::I64 | FieldKind::U64 => match value {
                ScalarView::Number(Some(n)) => Ok(SqlView::Integer(n)),
                _ => Err("expected an integer"@),
            },
            FieldKind::Json => Ok(SqlView::Text(printed)),
            _ => match value {
                ScalarView::Text(text) => Ok(SqlView::Text(text)),
                _ => Err("expected a string"@),
            },
        }
    }
}


/// Whether a kind is wrapped in at most one `Optional`, as every declared kind is.
pub open spec fn flat(kind: FieldKind) -> bool {
    !(base_kind(kind) is Optional)
}

/// Whether the kinds of all columns are.
pub open spec fn flat_columns(entity: EntityDef) -> bool {
    forall|i: int| 0 <= i < entity.fields.len() ==> flat((#[trigger] entity.fields@[i]).1.kind)
}

/// Binds a member's value as its column's kind.
pub fn to_sql(meta: &FieldMeta, member: &Member) -> (r: Result<SqlValue, &'static str>)
    requires
        flat(meta.kind),
    ensures
        coercion_view(r) == column_value(*meta, member_view(*member)),
{
    if let Scalar::Null = &member.value {
        return Ok(SqlValue::Null);
    }
    if meta.subject.is_some() {
        return match &member.value {
            Scalar::Text(text) => Ok(SqlValue::Text(text.clone())),
            _ => Err("a subject-scoped column stores ciphertext text"),
        };
    }
    match meta.kind.base() {
        FieldKind::Bool => {
            match &member.value {
                Scalar::Bool(flag) => Ok(SqlValue::Integer(if *flag { 1 } else { 0 })),
                Scalar::Number(Some(n)) => Ok(SqlValue::Integer(*n)),
                _ => Err("expected a boolean"),
            }
        },
        FieldKind::I64 | FieldKind::U64 => {
            match &member.value {
                Scalar::Number(Some(n)) => Ok(SqlValue::Integer(*n)),
                _ => Err("expected an integer"),
            }
        },
        FieldKind::Json => Ok(SqlValue::Text(member.printed.clone())),
        _ => {
            match &member.value {
                Scalar::Text(text) => Ok(SqlValue::Text(text.clone())),
                _ => Err("expected a string"),
            }
        },
    }
}

// ---------------------------------------------------------------------------
// Statements
// ---------------------------------------------------------------------------

/// Why an entity operation cannot be applied.
pub enum ApplyError {
    /// Its row or its changes are not JSON.
    Syntax(String),
    /// The row of a put is not an object.
    PutNotObject,
    /// The changes of a patch are not an object.
    PatchNotObject,
    /// A column cannot hold what it was given.
    Column { name: String, reason: &'static str },
}

pub enum ApplyErrorView {
    Syntax(Seq<char>),
    PutNotObject,
    PatchNotObject,
    Column(Seq<char>, Seq<char>),
}

pub open spec fn apply_error_view(err: ApplyError) -> ApplyErrorView {
    match err {
        ApplyError::Syntax(message) => ApplyErrorView::Syntax(message@),
        ApplyError::PutNotObject => ApplyErrorView::PutNotObject,
        ApplyError::PatchNotObject => ApplyErrorView::PatchNotObject,
        ApplyError::Column { name, reason } => ApplyErrorView::Column(name@, reason@),
    }
}

/// How an operation that cannot be applied is reported.
pub open spec fn apply_message(err: ApplyErrorView) -> Seq<char> {
    match err {
        ApplyErrorView::Syntax(message) => message,
        ApplyErrorView::PutNotObject => "put row is not a JSON object"@,
        ApplyErrorView::PatchNotObject => "patch changes are not a JSON object"@,
        ApplyErrorView::Column(name, reason) => "column `"@ + name + "`: "@ + reason,
    }
}

impl ApplyError {
    pub fn message(&self) -> (r: String)
        ensures
            r@ == apply_message(apply_error_view(*self)),
    {
        match self {
            ApplyError::Syntax(message) => message.clone(),
            ApplyError::PutNotObject => "put row is not a JSON object".to_owned(),
            ApplyError::PatchNotObject => "patch changes are not a JSON object".to_owned(),
            ApplyError::Column { name, reason } => {
                let mut out = "column `".to_owned();
                out.append(name);
                out.append("`: ");
                out.append(reason);
                out
            },
        }
    }
}

/// The entity's columns as a list, in declared order.
pub open spec fn columns_sql(entity: EntityDef) -> Seq<char> {
    joined(quoted_all(field_names(entity.fields@)), ", "@)
}

/// The entity's columns as a comma-separated list, in declared order, so that a row's
/// columns line up with its fields.
pub fn column_list(entity: &EntityDef) -> (r: String)
    ensures
        r@ == columns_sql(*entity),
{
    let mut names: Vec<String> = Vec::new();
    let mut i: usize = 0;
    while i < entity.fields.len()
        invariant
            i <= entity.fields.len(),
            names.len() == i,
            forall|k: int| 0 <= k < i ==> (#[trigger] names@[k])@ == quoted(entity.fields@[k].0@),
        decreases entity.fields.len() - i,
    {
        names.push(quote_ident(&entity.fields[i].0));
        i += 1;
    }
    assert(views(names@) =~= quoted_all(field_names(entity.fields@)));
    join(&names, ", ")
}

/// The kind of an entity's key column.
pub fn key_kind(entity: &EntityDef) -> (r: &FieldKind)
    requires
        field_named(entity.fields@, entity.key@) is Some,
    ensures
        *r == field_named(entity.fields@, entity.key@)->0.kind,
{
    match find_field(&entity.fields, &entity.key) {
        Some(meta) => &meta.kind,
        None => &entity.fields[0].1.kind,
    }
}

/// As many question marks.
pub open spec fn marks(n: nat) -> Seq<Seq<char>> {
    Seq::new(n, |i: int| "?"@)
}

/// The statement that writes a whole row.
pub open spec fn put_sql(entity: EntityDef) -> Seq<char> {
    "INSERT OR REPLACE INTO "@ + quoted(entity.name@) + " ("@ + columns_sql(entity) + ") VALUES ("@
        + joined(marks(entity.fields.len() as nat), ", "@) + ")"@
}

/// What a column of a row is filled from: the member of its name, and null where there is
/// none.
pub open spec fn member_or_null(members: Map<Seq<char>, MemberView>, name: Seq<char>) -> MemberView {
    if members.contains_key(name) {
        members[name]
    } else {
        (ScalarView::Null, "null"@)
    }
}

/// The values of a row's first columns, or the first column that cannot hold its value.
pub open spec fn row_values(entity: EntityDef, members: Map<Seq<char>, MemberView>, upto: nat) -> Result<
    Seq<SqlView>,
    ApplyErrorView,
>
    decreases upto,
{
    if upto == 0 {
        Ok(Seq::empty())
    } else {
        match row_values(entity, members, (upto - 1) as nat) {
            Err(err) => Err(err),
            Ok(values) => {
                let (name, meta) = entity.fields@[upto - 1];
                match column_value(meta, member_or_null(members, name@)) {
                    Ok(value) => Ok(values.push(value)),
                    Err(reason) => Err(ApplyErrorView::Column(name@, reason)),
                }
            },
        }
    }
}

/// The columns a patch sets, among the first ones, with their values: those that its
/// changes name. Or the first column that cannot hold its value.
pub open spec fn patch_values(entity: EntityDef, members: Map<Seq<char>, MemberView>, upto: nat) -> Result<
    (Seq<Seq<char>>, Seq<SqlView>),
    ApplyErrorView,
>
    decreases upto,
{
    if upto == 0 {
        Ok((Seq::empty(), Seq::empty()))
    } else {
        match patch_values(entity, members, (upto - 1) as nat) {
            Err(err) => Err(err),
            Ok((assignments, values)) => {
                let (name, meta) = entity.fields@[upto - 1];
                if members.contains_key(name@) {
                    match column_value(meta, members[name@]) {
                        Ok(value) => Ok(
                            (assignments.push(quoted(name@) + " = ?"@), values.push(value)),
                        ),
                        Err(reason) => Err(ApplyErrorView::Column(name@, reason)),
                    }
                } else {
                    Ok((assignments, values))
                }
            },
        }
    }
}

/// The kind of an entity's key column.
pub open spec fn key_kind_view(entity: EntityDef) -> FieldKind {
    field_named(entity.fields@, entity.key@)->0.kind
}

/// A statement as its text and its values.
pub type StatementView = (Seq<char>, Seq<SqlView>);

pub open spec fn statement_view(statement: Statement) -> StatementView {
    (statement.sql@, sql_views(statement.binds@))
}

/// The statement a put comes to, for what its row was read as.
pub open spec fn put_statement(
    entity: EntityDef,
    row: Result<Option<Map<Seq<char>, MemberView>>, Seq<char>>,
) -> Result<Option<StatementView>, ApplyErrorView> {
    match row {
        Err(message) => Err(ApplyErrorView::Syntax(message)),
        Ok(None) => Err(ApplyErrorView::PutNotObject),
        Ok(Some(members)) => match row_values(entity, members, entity.fields.len() as nat) {
            Ok(values) => Ok(Some((put_sql(entity), values))),
            Err(err) => Err(err),
        },
    }
}

/// The statement a patch comes to, for what its changes were read as. One that changes no
/// column is no statement.
pub open spec fn patch_statement(
    entity: EntityDef,
    key: Seq<char>,
    changes: Result<Option<Map<Seq<char>, MemberView>>, Seq<char>>,
) -> Result<Option<StatementView>, ApplyErrorView> {
    match changes {
        Err(message) => Err(ApplyErrorView::Syntax(message)),
        Ok(None) => Err(ApplyErrorView::PatchNotObject),
        Ok(Some(members)) => match patch_values(entity, members, entity.fields.len() as nat) {
            Err(err) => Err(err),
            Ok((assignments, values)) => if assignments.len() == 0 {
                Ok(None)
            } else {
                Ok(
                    Some(
                        (
                            "UPDATE "@ + quoted(entity.name@) + " SET "@ + joined(assignments, ", "@)
                                + " WHERE "@ + quoted(entity.key@) + " = ?"@,
                            values.push(bound_or_text(key_kind_view(entity), key)),
                        ),
                    ),
                )
            },
        },
    }
}

/// The statement that deletes a row.
pub open spec fn delete_statement(entity: EntityDef, key: Seq<char>) -> StatementView {
    (
        "DELETE FROM "@ + quoted(entity.name@) + " WHERE "@ + quoted(entity.key@) + " = ?"@,
        seq![bound_or_text(key_kind_view(entity), key)],
    )
}

pub open spec fn applied_view(r: Result<Option<Statement>, ApplyError>) -> Result<
    Option<StatementView>,
    ApplyErrorView,
> {
    match r {
        Ok(Some(statement)) => Ok(Some(statement_view(statement))),
        Ok(None) => Ok(None),
        Err(err) => Err(apply_error_view(err)),
    }
}

/// What an entity operation comes to.
pub open spec fn op_statement(entity: EntityDef, op: EntityOpKind) -> Result<
    Option<StatementView>,
    ApplyErrorView,
> {
    match op {
        EntityOpKind::Put(row) => put_statement(entity, json_object(row@)),
        EntityOpKind::Patch { key, changes } => patch_statement(
            entity,
            key@,
            json_object(changes@),
        ),
        EntityOpKind::Delete(key) => Ok(Some(delete_statement(entity, key@))),
    }
}

/// The statement that writes a row of these members.
pub fn put_members(entity: &EntityDef, row: Result<Option<Vec<(String, Member)>>, String>) -> (r: Result<
    Option<Statement>,
    ApplyError,
>)
    requires
        flat_columns(*entity),
    ensures
        applied_view(r) == put_statement(*entity, object_view(row)),
{
    let members = match row {
        Err(message) => return Err(ApplyError::Syntax(message)),
        Ok(None) => return Err(ApplyError::PutNotObject),
        Ok(Some(members)) => members,
    };
    let mut values: Vec<SqlValue> = Vec::new();
    let mut places: Vec<String> = Vec::new();
    let none = Member { value: Scalar::Null, printed: "null".to_owned() };
    let mut i: usize = 0;
    let ghost map = member_map(members@);
    assert(sql_views(values@) =~= Seq::empty());
    while i < entity.fields.len()
        invariant
            i <= entity.fields.len(),
            flat_columns(*entity),
            map == member_map(members@),
            member_view(none) == (ScalarView::Null, "null"@),
            row_values(*entity, map, i as nat) == Ok::<Seq<SqlView>, ApplyErrorView>(sql_views(values@)),
            object_view(row) == Ok::<Option<Map<Seq<char>, MemberView>>, Seq<char>>(Some(map)),
            places.len() == i,
            forall|k: int| 0 <= k < i ==> (#[trigger] places@[k])@ == "?"@,
        decreases entity.fields.len() - i,
    {
        let name = &entity.fields[i].0;
        let meta = &entity.fields[i].1;
        assert(flat(entity.fields@[i as int].1.kind));
        let bound = match find_member(&members, name) {
            Some(at) => to_sql(meta, &members[at].1),
            None => to_sql(meta, &none),
        };
        match bound {
            Ok(value) => {
                let ghost was = sql_views(values@);
                values.push(value);
                assert(sql_views(values@) =~= was.push(sql_view(value)));
            },
            Err(reason) => {
                proof {
                    lemma_row_error(*entity, map, i as nat + 1, entity.fields.len() as nat);
                }
                return Err(ApplyError::Column { name: name.clone(), reason });
            },
        }
        places.push("?".to_owned());
        i += 1;
    }
    assert(views(places@) =~= marks(entity.fields.len() as nat));
    let mut sql = "INSERT OR REPLACE INTO ".to_owned();
    sql.append(&quote_ident(&entity.name));
    sql.append(" (");
    sql.append(&column_list(entity));
    sql.append(") VALUES (");
    sql.append(&join(&places, ", "));
    sql.append(")");
    Ok(Some(Statement { sql, binds: values }))
}

proof fn lemma_row_error(entity: EntityDef, members: Map<Seq<char>, MemberView>, at: nat, upto: nat)
    requires
        at <= upto,
        row_values(entity, members, at) is Err,
    ensures
        row_values(entity, members, upto) == row_values(entity, members, at),
    decreases upto,
{
    if at < upto {
        lemma_row_error(entity, members, at, (upto - 1) as nat);
    }
}

proof fn lemma_patch_error(
    entity: EntityDef,
    members: Map<Seq<char>, MemberView>,
    at: nat,
    upto: nat,
)
    requires
        at <= upto,
        patch_values(entity, members, at) is Err,
    ensures
        patch_values(entity, members, upto) == patch_values(entity, members, at),
    decreases upto,
{
    if at < upto {
        lemma_patch_error(entity, members, at, (upto - 1) as nat);
    }
}

/// The statement that sets the columns these members name.
pub fn patch_members(
    entity: &EntityDef,
    key: &str,
    changes: Result<Option<Vec<(String, Member)>>, String>,
) -> (r: Result<Option<Statement>, ApplyError>)
    requires
        flat_columns(*entity),
        field_named(entity.fields@, entity.key@) is Some,
    ensures
        applied_view(r) == patch_statement(*entity, key@, object_view(changes)),
{
    let members = match changes {
        Err(message) => return Err(ApplyError::Syntax(message)),
        Ok(None) => return Err(ApplyError::PatchNotObject),
        Ok(Some(members)) => members,
    };
    let mut assignments: Vec<String> = Vec::new();
    let mut values: Vec<SqlValue> = Vec::new();
    let mut i: usize = 0;
    let ghost map = member_map(members@);
    assert(sql_views(values@) =~= Seq::empty());
    assert(views(assignments@) =~= Seq::empty());
    while i < entity.fields.len()
        invariant
            i <= entity.fields.len(),
            flat_columns(*entity),
            map == member_map(members@),
            object_view(changes) == Ok::<Option<Map<Seq<char>, MemberView>>, Seq<char>>(Some(map)),
            patch_values(*entity, map, i as nat) == Ok::<
                (Seq<Seq<char>>, Seq<SqlView>),
                ApplyErrorView,
            >((views(assignments@), sql_views(values@))),
        decreases entity.fields.len() - i,
    {
        let name = &entity.fields[i].0;
        let meta = &entity.fields[i].1;
        assert(flat(entity.fields@[i as int].1.kind));
        if let Some(at) = find_member(&members, name) {
            match to_sql(meta, &members[at].1) {
                Ok(value) => {
                    let mut assignment = quote_ident(name);
                    assignment.append(" = ?");
                    let ghost was = sql_views(values@);
                    let ghost had = views(assignments@);
                    assignments.push(assignment);
                    values.push(value);
                    assert(sql_views(values@) =~= was.push(sql_view(value)));
                    assert(views(assignments@) =~= had.push(assignment@));
                },
                Err(reason) => {
                    proof {
                        lemma_patch_error(*entity, map, i as nat + 1, entity.fields.len() as nat);
                    }
                    return Err(ApplyError::Column { name: name.clone(), reason });
                },
            }
        }
        i += 1;
    }
    if assignments.len() == 0 {
        return Ok(None);
    }
    let ghost was = sql_views(values@);
    let last = bind_or_text(key_kind(entity), key);
    values.push(last);
    assert(sql_views(values@) =~= was.push(sql_view(last)));
    let mut sql = "UPDATE ".to_owned();
    sql.append(&quote_ident(&entity.name));
    sql.append(" SET ");
    sql.append(&join(&assignments, ", "));
    sql.append(" WHERE ");
    sql.append(&quote_ident(&entity.key));
    sql.append(" = ?");
    Ok(Some(Statement { sql, binds: values }))
}

/// The statement one entity operation comes to: a put replaces the row, a patch updates
/// the columns it names and is nothing where it names none, a delete deletes.
pub fn apply_one(entity: &EntityDef, op: &EntityOpKind) -> (r: Result<Option<Statement>, ApplyError>)
    requires
        flat_columns(*entity),
        !(op is Put) ==> field_named(entity.fields@, entity.key@) is Some,
    ensures
        applied_view(r) == op_statement(*entity, *op),
{
    match op {
        EntityOpKind::Put(row) => put_members(entity, parse_object(row)),
        EntityOpKind::Patch { key, changes } => patch_members(entity, key, parse_object(changes)),
        EntityOpKind::Delete(key) => {
            let mut sql = "DELETE FROM ".to_owned();
            sql.append(&quote_ident(&entity.name));
            sql.append(" WHERE ");
            sql.append(&quote_ident(&entity.key));
            sql.append(" = ?");
            let mut binds: Vec<SqlValue> = Vec::new();
            let bound = bind_or_text(key_kind(entity), key);
            binds.push(bound);
            assert(sql_views(binds@) =~= seq![sql_view(bound)]);
            Ok(Some(Statement { sql, binds }))
        },
    }
}

/// The statement that reads one row by its key.
pub open spec fn get_statement(entity: EntityDef, key: Seq<char>) -> StatementView {
    (
        "SELECT "@ + columns_sql(entity) + " FROM "@ + quoted(entity.name@) + " WHERE "@ + quoted(
            entity.key@,
        ) + " = ?"@,
        seq![bound_or_text(key_kind_view(entity), key)],
    )
}

/// The statement that reads one row by its key.
pub fn get(entity: &EntityDef, key: &str) -> (r: Statement)
    requires
        field_named(entity.fields@, entity.key@) is Some,
    ensures
        statement_view(r) == get_statement(*entity, key@),
{
    let mut sql = "SELECT ".to_owned();
    sql.append(&column_list(entity));
    sql.append(" FROM ");
    sql.append(&quote_ident(&entity.name));
    sql.append(" WHERE ");
    sql.append(&quote_ident(&entity.key));
    sql.append(" = ?");
    let mut binds: Vec<SqlValue> = Vec::new();
    let bound = bind_or_text(key_kind(entity), key);
    binds.push(bound);
    assert(sql_views(binds@) =~= seq![sql_view(bound)]);
    Statement { sql, binds }
}


/// What a column's string is bound as: by the kind of a declared column, and as text for
/// any other.
pub open spec fn bound_column(entity: EntityDef, column: Seq<char>, raw: Seq<char>) -> SqlView {
    match field_named(entity.fields@, column) {
        Some(meta) => bound_or_text(meta.kind, raw),
        None => SqlView::Text(raw),
    }
}

fn bind_column(entity: &EntityDef, column: &str, raw: &str) -> (r: SqlValue)
    ensures
        sql_view(r) == bound_column(*entity, column@, raw@),
{
    match find_field(&entity.fields, column) {
        Some(meta) => bind_or_text(&meta.kind, raw),
        None => SqlValue::Text(raw.to_owned()),
    }
}

/// The conditions of a scan.
pub open spec fn scan_clauses(entity: EntityDef, filter: Filter, after: Option<Seq<char>>) -> Seq<
    Seq<char>,
> {
    equal_clauses(filter) + range_clauses(filter) + match after {
        Some(_) => seq![quoted(entity.key@) + " > ?"@],
        None => Seq::empty(),
    }
}

pub open spec fn equal_clauses(filter: Filter) -> Seq<Seq<char>> {
    Seq::new(filter.equals.len() as nat, |i: int| quoted(filter.equals@[i].0@) + " = ?"@)
}

pub open spec fn range_clauses(filter: Filter) -> Seq<Seq<char>> {
    match filter.range {
        Some(range) => {
            let ends = range_bounds(range.1);
            Seq::new(
                ends.len(),
                |i: int|
                    quoted(range.0@) + " "@ + bound_operator(ends[i].1, ends[i].0) + " ?"@,
            )
        },
        None => Seq::empty(),
    }
}

/// The values of a scan's conditions.
pub open spec fn scan_binds(entity: EntityDef, filter: Filter, after: Option<Seq<char>>) -> Seq<
    SqlView,
> {
    equal_binds(entity, filter) + range_binds(entity, filter) + match after {
        Some(key) => seq![bound_or_text(key_kind_view(entity), key)],
        None => Seq::empty(),
    }
}

pub open spec fn equal_binds(entity: EntityDef, filter: Filter) -> Seq<SqlView> {
    Seq::new(
        filter.equals.len() as nat,
        |i: int| bound_column(entity, filter.equals@[i].0@, filter.equals@[i].1@),
    )
}

pub open spec fn range_binds(entity: EntityDef, filter: Filter) -> Seq<SqlView> {
    match filter.range {
        Some(range) => {
            let ends = range_bounds(range.1);
            Seq::new(ends.len(), |i: int| bound_column(entity, range.0@, ends[i].2))
        },
        None => Seq::empty(),
    }
}

/// The index a scan is held to, so that it cannot fall back to walking the table.
pub open spec fn pin_sql(entity: EntityDef, filter: Filter) -> Seq<char> {
    match chosen_index(entity, filter) {
        Some(AccessView::Index(name)) => " INDEXED BY "@ + quoted(
            crate::schema::index_name_view(entity, name),
        ),
        _ => ""@,
    }
}

/// A limit as SQLite takes it.
pub open spec fn limit_view(limit: usize) -> i64 {
    if limit <= i64::MAX {
        limit as i64
    } else {
        i64::MAX
    }
}

/// The statement that scans an entity in key order.
pub open spec fn scan_statement(
    entity: EntityDef,
    filter: Filter,
    after: Option<Seq<char>>,
    limit: usize,
) -> StatementView {
    let clauses = scan_clauses(entity, filter, after);
    (
        "SELECT "@ + columns_sql(entity) + " FROM "@ + quoted(entity.name@) + pin_sql(entity, filter)
            + (if clauses.len() == 0 {
            ""@
        } else {
            " WHERE "@ + joined(clauses, " AND "@)
        }) + " ORDER BY "@ + quoted(entity.key@) + " LIMIT ?"@,
        scan_binds(entity, filter, after).push(SqlView::Integer(limit_view(limit))),
    )
}

pub open spec fn str_option_view(text: Option<&str>) -> Option<Seq<char>> {
    match text {
        Some(inner) => Some(inner@),
        None => None,
    }
}

/// The statement that scans an entity in key order, filtered and resumed behind a key.
/// Values are bound, never written into the statement. Where the filter is served by a
/// declared index, the scan is held to it.
pub fn scan(entity: &EntityDef, filter: &Filter, after_key: Option<&str>, limit: usize) -> (r: Statement)
    requires
        after_key is Some ==> field_named(entity.fields@, entity.key@) is Some,
    ensures
        statement_view(r) == scan_statement(*entity, *filter, str_option_view(after_key), limit),
{
    let mut clauses: Vec<String> = Vec::new();
    let mut binds: Vec<SqlValue> = Vec::new();
    let mut i: usize = 0;
    while i < filter.equals.len()
        invariant
            i <= filter.equals.len(),
            clauses.len() == i,
            binds.len() == i,
            forall|k: int| 0 <= k < i ==> (#[trigger] clauses@[k])@ == equal_clauses(*filter)[k],
            forall|k: int|
                0 <= k < i ==> sql_view(#[trigger] binds@[k]) == equal_binds(*entity, *filter)[k],
        decreases filter.equals.len() - i,
    {
        let mut clause = quote_ident(&filter.equals[i].0);
        clause.append(" = ?");
        clauses.push(clause);
        binds.push(bind_column(entity, &filter.equals[i].0, &filter.equals[i].1));
        i += 1;
    }
    assert(views(clauses@) =~= equal_clauses(*filter));
    assert(sql_views(binds@) =~= equal_binds(*entity, *filter));
    let ghost first_clauses = equal_clauses(*filter);
    let ghost first_binds = equal_binds(*entity, *filter);
    assert(first_clauses + Seq::<Seq<char>>::empty() =~= first_clauses);
    assert(first_binds + Seq::<SqlView>::empty() =~= first_binds);
    if let Some(range) = &filter.range {
        let ends = range.1.bounds();
        let ghost end_list = range_bounds(range.1);
        let mut i: usize = 0;
        assert(range_clauses(*filter).take(0) =~= Seq::<Seq<char>>::empty());
        assert(range_binds(*entity, *filter).take(0) =~= Seq::<SqlView>::empty());
        while i < ends.len()
            invariant
                i <= ends.len(),
                filter.range == Some(*range),
                crate::read_api::end_views(ends@) == range_bounds(range.1),
                views(clauses@) == first_clauses + range_clauses(*filter).take(i as int),
                sql_views(binds@) == first_binds + range_binds(*entity, *filter).take(i as int),
            decreases ends.len() - i,
        {
            let end = &ends[i];
            assert(range_bounds(range.1)[i as int] == (end.0, end.1, end.2@));
            let mut clause = quote_ident(&range.0);
            clause.append(" ");
            clause.append(end.1.operator(end.0));
            clause.append(" ?");
            let bound = bind_column(entity, &range.0, &end.2);
            let ghost had = views(clauses@);
            let ghost bound_before = sql_views(binds@);
            clauses.push(clause);
            binds.push(bound);
            proof {
                assert(views(clauses@) =~= had.push(clause@));
                assert(sql_views(binds@) =~= bound_before.push(sql_view(bound)));
                assert(range_clauses(*filter)[i as int] == clause@);
                assert(range_binds(*entity, *filter)[i as int] == sql_view(bound));
                assert(range_clauses(*filter).take(i as int + 1) =~= range_clauses(*filter).take(i as int).push(clause@));
                assert(range_binds(*entity, *filter).take(i as int + 1) =~= range_binds(*entity, *filter).take(i as int).push(sql_view(bound)));
                assert(had.push(clause@) =~= first_clauses + range_clauses(*filter).take(i as int + 1));
                assert(bound_before.push(sql_view(bound)) =~= first_binds + range_binds(*entity, *filter).take(i as int + 1));
            }
            i += 1;
        }
        assert(range_clauses(*filter).take(ends@.len() as int) =~= range_clauses(*filter));
        assert(range_binds(*entity, *filter).take(ends@.len() as int) =~= range_binds(*entity, *filter));
    }
    let ghost two_clauses = first_clauses + range_clauses(*filter);
    let ghost two_binds = first_binds + range_binds(*entity, *filter);
    assert(views(clauses@) =~= two_clauses);
    assert(sql_views(binds@) =~= two_binds);
    if let Some(after) = after_key {
        let mut clause = quote_ident(&entity.key);
        clause.append(" > ?");
        let bound = bind_or_text(key_kind(entity), after);
        clauses.push(clause);
        binds.push(bound);
        assert(views(clauses@) =~= two_clauses + seq![clause@]);
        assert(sql_views(binds@) =~= two_binds + seq![sql_view(bound)]);
    }
    assert(views(clauses@) =~= scan_clauses(*entity, *filter, str_option_view(after_key)));
    assert(sql_views(binds@) =~= scan_binds(*entity, *filter, str_option_view(after_key)));
    let mut sql = "SELECT ".to_owned();
    sql.append(&column_list(entity));
    sql.append(" FROM ");
    sql.append(&quote_ident(&entity.name));
    match choose_index(entity, filter) {
        Some(Access::Index(name)) => {
            let mut pin = " INDEXED BY ".to_owned();
            pin.append(&quote_ident(&entity.index_name(name)));
            sql.append(&pin);
        },
        _ => {
            sql.append("");
        },
    }
    if clauses.len() == 0 {
        sql.append("");
    } else {
        let mut conditions = " WHERE ".to_owned();
        conditions.append(&join(&clauses, " AND "));
        sql.append(&conditions);
    }
    sql.append(" ORDER BY ");
    sql.append(&quote_ident(&entity.key));
    sql.append(" LIMIT ?");
    let cap: i64 = if limit as u64 <= 0x7fff_ffff_ffff_ffff { limit as i64 } else { i64::MAX };
    let ghost had = sql_views(binds@);
    binds.push(SqlValue::Integer(cap));
    assert(sql_views(binds@) =~= had.push(SqlView::Integer(cap)));
    Statement { sql, binds }
}

/// The statement that reads every row of an entity, in key order.
pub fn rows(entity: &EntityDef) -> (r: Statement)
    ensures
        r.sql@ == "SELECT "@ + columns_sql(*entity) + " FROM "@ + quoted(entity.name@) + " ORDER BY "@
            + quoted(entity.key@) + " LIMIT ?"@,
        sql_views(r.binds@) == seq![SqlView::Integer(limit_view(usize::MAX))],
{
    let filter = Filter { equals: Vec::new(), range: None };
    let r = scan(entity, &filter, None, usize::MAX);
    proof {
        reveal_strlit("");
        assert(""@ =~= Seq::<char>::empty());
        let head = "SELECT "@ + columns_sql(*entity) + " FROM "@ + quoted(entity.name@);
        assert(head + ""@ + ""@ =~= head);
        assert(crate::read_api::key_alone(*entity, filter));
        assert(scan_clauses(*entity, filter, None) =~= Seq::empty());
        assert(scan_binds(*entity, filter, None) =~= Seq::empty());
        assert(sql_views(r.binds@) =~= seq![SqlView::Integer(limit_view(usize::MAX))]);
    }
    r
}

/// The statement that counts the rows of an entity.
pub fn count(entity: &EntityDef) -> (r: Statement)
    ensures
        r.sql@ == "SELECT count(*) FROM "@ + quoted(entity.name@),
        r.binds@.len() == 0,
{
    let mut sql = "SELECT count(*) FROM ".to_owned();
    sql.append(&quote_ident(&entity.name));
    Statement { sql, binds: Vec::new() }
}

/// A scan binds one value for each of its conditions, and one for its limit: nothing of a
/// request is written into the statement.
pub proof fn law_a_scan_binds_what_it_is_given(
    entity: EntityDef,
    filter: Filter,
    after: Option<Seq<char>>,
    limit: usize,
)
    ensures
        scan_statement(entity, filter, after, limit).1.len() == scan_clauses(
            entity,
            filter,
            after,
        ).len() + 1,
{
}

/// A put binds one value for each column.
pub proof fn law_a_put_binds_every_column(
    entity: EntityDef,
    members: Map<Seq<char>, MemberView>,
    upto: nat,
)
    ensures
        row_values(entity, members, upto) matches Ok(values) ==> values.len() == upto,
    decreases upto,
{
    if upto > 0 {
        law_a_put_binds_every_column(entity, members, (upto - 1) as nat);
    }
}

// ---------------------------------------------------------------------------
// Rows
// ---------------------------------------------------------------------------

/// The text that UTF-8 bytes encode, where they do.
pub open spec fn utf8_view(bytes: Seq<u8>) -> Option<Seq<char>> {
    if vstd::utf8::valid_utf8(bytes) {
        Some(vstd::utf8::decode_utf8(bytes))
    } else {
        None
    }
}

/// Reads bytes as text with `String::from_utf8`: the text they encode where they are
/// UTF-8, and nothing where they are not.
#[verifier::external_body]
pub(crate) fn utf8_text(bytes: Vec<u8>) -> (r: Option<String>)
    ensures
        crate::text::option_view(r) == utf8_view(bytes@),
{
    String::from_utf8(bytes).ok()
}

/// The value that a text is as a document, a list and an object being kept as their text.
/// A text that is no document is that text, so that it reads as bad data instead of
/// vanishing.
pub open spec fn document_value(text: Seq<char>) -> JsonView {
    match json_document(text) {
        Ok((whole, _)) => match whole.0 {
            ScalarView::Null => JsonView::Null,
            ScalarView::Bool(flag) => JsonView::Bool(flag),
            ScalarView::Number(_) => JsonView::Decimal(whole.1),
            ScalarView::Text(inner) => JsonView::Text(inner),
            ScalarView::List | ScalarView::Object => JsonView::Embedded(text),
        },
        Err(_) => JsonView::Text(text),
    }
}

/// Reads a text as the document it is.
pub fn read_document(text: String) -> (r: Json)
    ensures
        r@ == document_value(text@),
{
    match parse_document(&text) {
        Ok((whole, _)) => match whole.value {
            Scalar::Null => Json::Null,
            Scalar::Bool(flag) => Json::Bool(flag),
            Scalar::Number(_) => Json::Decimal(whole.printed),
            Scalar::Text(inner) => Json::Text(inner),
            Scalar::List | Scalar::Object => Json::Embedded(text),
        },
        Err(_) => Json::Text(text),
    }
}

/// The text of the scalar that a document is: a string as it is, a number as JSON writes
/// it, and so a flag where flags have one. Nothing for null or a container.
pub open spec fn document_scalar(text: Seq<char>, flags: bool) -> Option<Seq<char>> {
    match json_document(text) {
        Ok((whole, _)) => match whole.0 {
            ScalarView::Text(inner) => Some(inner),
            ScalarView::Number(_) => Some(whole.1),
            ScalarView::Bool(flag) => if flags {
                Some(if flag { "true"@ } else { "false"@ })
            } else {
                None
            },
            _ => None,
        },
        Err(_) => None,
    }
}

/// The text of the scalar that a document is.
pub fn document_text(text: &str, flags: bool) -> (r: Option<String>)
    ensures
        crate::text::option_view(r) == document_scalar(text@, flags),
{
    match parse_document(text) {
        Ok((whole, _)) => match whole.value {
            Scalar::Text(inner) => Some(inner),
            Scalar::Number(_) => Some(whole.printed),
            Scalar::Bool(flag) => if flags {
                Some(if flag { "true".to_owned() } else { "false".to_owned() })
            } else {
                None
            },
            _ => None,
        },
        Err(_) => None,
    }
}

/// What a stored column reads back as, or why it cannot. A subject-scoped column hands
/// out its ciphertext.
pub open spec fn column_json(meta: FieldMeta, stored: Stored) -> Result<JsonView, Seq<char>> {
    if meta.subject is Some {
        match stored {
            Stored::Text(bytes) => match utf8_view(bytes@) {
                Some(text) => Ok(JsonView::Text(text)),
                None => Err("non-UTF-8 ciphertext column"@),
            },
            _ => Ok(JsonView::Null),
        }
    } else {
        match stored {
            Stored::Null => Ok(JsonView::Null),
            Stored::Integer(n) => if base_kind(meta.kind) is Bool {
                Ok(JsonView::Bool(n != 0))
            } else {
                Ok(JsonView::Int(n as int))
            },
            Stored::Real(Some(text)) => Ok(JsonView::Decimal(text@)),
            Stored::Real(None) => Ok(JsonView::Null),
            Stored::Text(bytes) => match utf8_view(bytes@) {
                Some(text) => if base_kind(meta.kind) is Json {
                    Ok(document_value(text))
                } else {
                    Ok(JsonView::Text(text))
                },
                None => Err("non-UTF-8 text column"@),
            },
            Stored::Blob => Ok(JsonView::Null),
        }
    }
}

/// Reads a stored column back by its field's declared kind.
pub fn from_sql(meta: &FieldMeta, stored: Stored) -> (r: Result<Json, &'static str>)
    ensures
        match r {
            Ok(json) => column_json(*meta, stored) == Ok::<JsonView, Seq<char>>(json@),
            Err(reason) => column_json(*meta, stored) == Err::<JsonView, Seq<char>>(reason@),
        },
{
    if meta.subject.is_some() {
        return match stored {
            Stored::Text(bytes) => match utf8_text(bytes) {
                Some(text) => Ok(Json::Text(text)),
                None => Err("non-UTF-8 ciphertext column"),
            },
            _ => Ok(Json::Null),
        };
    }
    match stored {
        Stored::Null => Ok(Json::Null),
        Stored::Integer(n) => {
            if let FieldKind::Bool = meta.kind.base() {
                Ok(Json::Bool(n != 0))
            } else {
                Ok(Json::Int(n as i128))
            }
        },
        Stored::Real(Some(text)) => Ok(Json::Decimal(text)),
        Stored::Real(None) => Ok(Json::Null),
        Stored::Text(bytes) => match utf8_text(bytes) {
            Some(text) => {
                if let FieldKind::Json = meta.kind.base() {
                    Ok(read_document(text))
                } else {
                    Ok(Json::Text(text))
                }
            },
            None => Err("non-UTF-8 text column"),
        },
        Stored::Blob => Ok(Json::Null),
    }
}

/// A row of an entity as an object, its first columns: a NULL column is left out.
pub open spec fn row_json(entity: EntityDef, row: Seq<Stored>, upto: nat) -> Result<JsonView, Seq<char>>
    decreases upto,
{
    if upto == 0 {
        Ok(JsonView::object())
    } else {
        match row_json(entity, row, (upto - 1) as nat) {
            Err(reason) => Err(reason),
            Ok(object) => {
                let (name, meta) = entity.fields@[upto - 1];
                match column_json(meta, row[upto - 1]) {
                    Err(reason) => Err(reason),
                    Ok(JsonView::Null) => Ok(object),
                    Ok(value) => Ok(object.with(name@, value)),
                }
            },
        }
    }
}

proof fn lemma_row_json_error(entity: EntityDef, row: Seq<Stored>, at: nat, upto: nat)
    requires
        at <= upto,
        row_json(entity, row, at) is Err,
    ensures
        row_json(entity, row, upto) == row_json(entity, row, at),
    decreases upto,
{
    if at < upto {
        lemma_row_json_error(entity, row, at, (upto - 1) as nat);
    }
}

/// Puts a selected row together as an object, NULL columns left out, typed by the
/// entity's declared kinds. The columns stand in the order of its fields.
pub fn row_to_json(entity: &EntityDef, row: Vec<Stored>) -> (r: Result<Json, &'static str>)
    requires
        row.len() == entity.fields.len(),
    ensures
        match r {
            Ok(json) => row_json(*entity, row@, row.len() as nat) == Ok::<JsonView, Seq<char>>(json@),
            Err(reason) => row_json(*entity, row@, row.len() as nat) == Err::<JsonView, Seq<char>>(
                reason@,
            ),
        },
{
    let mut object = Json::object();
    let mut i: usize = 0;
    let mut rest = row;
    // Taken from the front by reversing once.
    let mut stack: Vec<Stored> = Vec::new();
    while rest.len() > 0
        invariant
            row@ == rest@ + stack@.reverse(),
        decreases rest.len(),
    {
        let ghost was = rest@;
        let ghost had = stack@;
        let column = rest.pop().unwrap();
        stack.push(column);
        assert(stack@.reverse() =~= seq![column] + had.reverse());
        assert(was + had.reverse() =~= rest@ + stack@.reverse());
    }
    assert(stack@.reverse() =~= row@);
    while stack.len() > 0
        invariant
            i + stack.len() == row.len(),
            row.len() == entity.fields.len(),
            row@.skip(i as int) == stack@.reverse(),
            row_json(*entity, row@, i as nat) == Ok::<JsonView, Seq<char>>(object@),
        decreases stack.len(),
    {
        let ghost was = stack@;
        let column = stack.pop().unwrap();
        proof {
            assert(was.reverse()[0] == column);
            assert(row@.skip(i as int)[0] == row@[i as int]);
            assert(stack@.reverse() =~= was.reverse().skip(1));
            assert(row@.skip(i as int).skip(1) =~= row@.skip(i as int + 1));
        }
        match from_sql(&entity.fields[i].1, column) {
            Err(reason) => {
                proof {
                    lemma_row_json_error(*entity, row@, i as nat + 1, row.len() as nat);
                }
                return Err(reason);
            },
            Ok(Json::Null) => {},
            Ok(value) => {
                object = object.with(&entity.fields[i].0, value);
            },
        }
        i += 1;
    }
    Ok(object)
}

// ---------------------------------------------------------------------------
// The checkpoint and the definition
// ---------------------------------------------------------------------------

/// A projector's internal tables: the checkpoint, beside the tables it describes so that
/// both commit together, and the hash of the definition the model was built under.
pub const INTERNAL_DDL: &'static str = "CREATE TABLE IF NOT EXISTS _hekla_checkpoint (
    id              INTEGER PRIMARY KEY CHECK (id = 0),
    position        INTEGER NOT NULL,
    completed_above TEXT    NOT NULL DEFAULT '[]'
);
INSERT OR IGNORE INTO _hekla_checkpoint (id, position) VALUES (0, 0);
CREATE TABLE IF NOT EXISTS _hekla_definition (
    id              INTEGER PRIMARY KEY CHECK (id = 0),
    definition_hash TEXT
);
INSERT OR IGNORE INTO _hekla_definition (id, definition_hash) VALUES (0, NULL);";

/// The statement that reads the checkpoint.
pub const READ_CHECKPOINT: &'static str = "SELECT position FROM _hekla_checkpoint WHERE id = 0";

/// The statement that reads the hash of the definition.
pub const READ_DEFINITION: &'static str =
    "SELECT definition_hash FROM _hekla_definition WHERE id = 0";

/// A position as a signed column holds it: those that do not fit are negative.
pub open spec fn stored_position(position: u64) -> int {
    if position <= i64::MAX {
        position as int
    } else {
        position - 0x1_0000_0000_0000_0000
    }
}

/// The statement that moves the checkpoint.
pub open spec fn checkpoint_statement(position: u64) -> StatementView {
    (
        "UPDATE _hekla_checkpoint SET position = ?1, completed_above = '[]' WHERE id = 0"@,
        seq![SqlView::Integer(stored_position(position) as i64)],
    )
}

/// The statement that moves the checkpoint. It runs in the transaction of the batch that
/// it follows, so that state and position move together or not at all.
pub fn write_checkpoint(position: u64) -> (r: Statement)
    ensures
        statement_view(r) == checkpoint_statement(position),
{
    let stored: i64 = if position <= 0x7fff_ffff_ffff_ffff {
        position as i64
    } else {
        -((u64::MAX - position) as i64) - 1
    };
    let binds: Vec<SqlValue> = vec![SqlValue::Integer(stored)];
    assert(sql_views(binds@) =~= seq![SqlView::Integer(stored_position(position) as i64)]);
    Statement {
        sql: "UPDATE _hekla_checkpoint SET position = ?1, completed_above = '[]' WHERE id = 0".to_owned(),
        binds,
    }
}

/// The position that a column of the checkpoint holds.
pub fn read_checkpoint(stored: i64) -> (r: u64)
    ensures
        stored_position(r) == stored,
{
    if stored >= 0 {
        stored as u64
    } else {
        u64::MAX - (-(stored + 1)) as u64
    }
}

/// The statement that records the definition a model is built under.
pub fn set_definition(definition_hash: &str) -> (r: Statement)
    ensures
        statement_view(r) == (
            "UPDATE _hekla_definition SET definition_hash = ?1 WHERE id = 0"@,
            seq![SqlView::Text(definition_hash@)],
        ),
{
    let binds: Vec<SqlValue> = vec![SqlValue::Text(definition_hash.to_owned())];
    assert(sql_views(binds@) =~= seq![SqlView::Text(definition_hash@)]);
    Statement {
        sql: "UPDATE _hekla_definition SET definition_hash = ?1 WHERE id = 0".to_owned(),
        binds,
    }
}

/// A checkpoint reads back as it was written: no two positions are stored alike.
pub proof fn law_a_checkpoint_reads_back(a: u64, b: u64)
    requires
        stored_position(a) == stored_position(b),
    ensures
        a == b,
{
}

/// Whether a kind is wrapped in at most one `Optional`.
pub fn is_flat(kind: &FieldKind) -> (r: bool)
    ensures
        r == flat(*kind),
{
    !kind.base().is_nullable()
}

/// Whether an entity can be written to and read: its key is declared, and no column's kind
/// is wrapped in more than one `Optional`.
pub open spec fn usable(entity: EntityDef) -> bool {
    flat_columns(entity) && field_named(entity.fields@, entity.key@) is Some
}

/// Whether an entity can be written to and read.
pub fn is_usable(entity: &EntityDef) -> (r: bool)
    ensures
        r == usable(*entity),
{
    let mut i: usize = 0;
    while i < entity.fields.len()
        invariant
            i <= entity.fields.len(),
            forall|k: int| 0 <= k < i ==> flat((#[trigger] entity.fields@[k]).1.kind),
        decreases entity.fields.len() - i,
    {
        if !is_flat(&entity.fields[i].1.kind) {
            assert(!flat(entity.fields@[i as int].1.kind));
            return false;
        }
        i += 1;
    }
    find_field(&entity.fields, &entity.key).is_some()
}

// ---------------------------------------------------------------------------
// What a read gives back of a write
// ---------------------------------------------------------------------------

/// Whether a column holds a value that was bound to it: SQLite keeps a null, an integer
/// and a text as they are.
pub open spec fn holds_value(stored: Stored, value: SqlView) -> bool {
    match (stored, value) {
        (Stored::Null, SqlView::Null) => true,
        (Stored::Integer(n), SqlView::Integer(bound)) => n == bound,
        (Stored::Text(bytes), SqlView::Text(text)) => bytes@ == vstd::utf8::encode_utf8(text),
        _ => false,
    }
}

/// What a member reads back as from its column: by the column's kind, a truth value where
/// a number was written to a `Bool`, and the ciphertext of a subject-scoped column. A list
/// and an object come back as they were written, and a number of a JSON column as the
/// number that its written form is read as.
pub open spec fn read_back(meta: FieldMeta, member: MemberView) -> JsonView {
    let (value, printed) = member;
    match value {
        ScalarView::Null => JsonView::Null,
        ScalarView::Text(text) => JsonView::Text(text),
        ScalarView::Bool(flag) => JsonView::Bool(flag),
        ScalarView::Number(n) => match (base_kind(meta.kind), n) {
            (FieldKind::Bool, Some(n)) => JsonView::Bool(n != 0),
            (FieldKind::I64, Some(n)) => JsonView::Int(n as int),
            (FieldKind::U64, Some(n)) => JsonView::Int(n as int),
            _ => JsonView::Decimal(written_number(printed)),
        },
        ScalarView::List | ScalarView::Object => JsonView::Embedded(printed),
    }
}

/// The number that a text is read as, as JSON writes it.
pub open spec fn written_number(text: Seq<char>) -> Seq<char> {
    json_document(text)->Ok_0.0.1
}

/// Whether what a member is written as can be read from its column: in a JSON column it
/// has to be a document.
pub open spec fn readable(meta: FieldMeta, member: MemberView) -> bool {
    base_kind(meta.kind) is Json && !(member.0 is Null) ==> reads_again(member)
}

/// A value is bound as its column's declared type: an integer or a truth value as
/// `INTEGER`, and everything else, ciphertext among it, as `TEXT`.
pub proof fn law_a_value_has_its_columns_type(meta: FieldMeta, member: MemberView, value: SqlView)
    requires
        flat(meta.kind),
        column_value(meta, member) == Ok::<SqlView, Seq<char>>(value),
        !(value is Null),
    ensures
        meta_column_type(meta) == "INTEGER"@ || meta_column_type(meta) == "TEXT"@,
        value is Integer <==> meta_column_type(meta) == "INTEGER"@,
        value is Text <==> meta_column_type(meta) == "TEXT"@,
        value is Integer <==> meta.subject is None && (base_kind(meta.kind) is I64 || base_kind(
            meta.kind,
        ) is U64 || base_kind(meta.kind) is Bool),
{
    reveal_strlit("INTEGER");
    reveal_strlit("TEXT");
    assert("INTEGER"@.len() == 7 && "TEXT"@.len() == 4);
    reveal_with_fuel(column_type, 2);
}

/// What was read of a document can be read from whatever column it is written to: all of
/// it where `serde_json`'s own keys are not in it, and what is no list or object in any
/// case.
pub proof fn law_what_was_read_can_be_read_back(
    meta: FieldMeta,
    members: Map<Seq<char>, MemberView>,
    name: Seq<char>,
)
    requires
        written_scalars(members),
        written_members(members) || !(member_or_null(members, name).0 is List) && !(member_or_null(
            members,
            name,
        ).0 is Object),
    ensures
        readable(meta, member_or_null(members, name)),
{
}

/// A column reads back as what was written to it.
pub proof fn law_a_written_column_reads_back(
    meta: FieldMeta,
    member: MemberView,
    value: SqlView,
    stored: Stored,
)
    requires
        flat(meta.kind),
        readable(meta, member),
        column_value(meta, member) == Ok::<SqlView, Seq<char>>(value),
        holds_value(stored, value),
    ensures
        column_json(meta, stored) == Ok::<JsonView, Seq<char>>(read_back(meta, member)),
{
    if let SqlView::Text(text) = value {
        vstd::utf8::encode_utf8_valid_utf8(text);
        vstd::utf8::encode_utf8_decode_utf8(text);
    }
}

/// A row reads back as the members that were put, each as its column's kind has it, and
/// without those that were null or absent.
pub proof fn law_a_put_row_reads_back(
    entity: EntityDef,
    members: Map<Seq<char>, MemberView>,
    values: Seq<SqlView>,
    row: Seq<Stored>,
    upto: nat,
)
    requires
        flat_columns(entity),
        upto <= entity.fields.len(),
        forall|i: int, j: int|
            0 <= i < j < entity.fields.len() ==> (#[trigger] entity.fields@[i]).0@ != (
            #[trigger] entity.fields@[j]).0@,
        forall|i: int|
            0 <= i < upto ==> readable(
                (#[trigger] entity.fields@[i]).1,
                member_or_null(members, entity.fields@[i].0@),
            ),
        row_values(entity, members, upto) == Ok::<Seq<SqlView>, ApplyErrorView>(values),
        row.len() == values.len(),
        forall|i: int| 0 <= i < row.len() ==> holds_value(#[trigger] row[i], values[i]),
    ensures
        row_json(entity, row, upto) matches Ok(object) && object is Object && forall|i: int|
            0 <= i < upto ==> object.member((#[trigger] entity.fields@[i]).0@) == ({
                let said = member_or_null(members, entity.fields@[i].0@);
                if said.0 is Null {
                    None
                } else {
                    Some(read_back(entity.fields@[i].1, said))
                }
            }),
    decreases upto,
{
    law_a_put_binds_every_column(entity, members, upto);
    if upto > 0 {
        let (name, meta) = entity.fields@[upto - 1];
        let said = member_or_null(members, name@);
        let earlier = values.drop_last();
        assert(row_values(entity, members, (upto - 1) as nat) == Ok::<Seq<SqlView>, ApplyErrorView>(
            earlier,
        )) by {
            match row_values(entity, members, (upto - 1) as nat) {
                Ok(rest) => {
                    assert(values == rest.push(values.last()));
                    assert(values.drop_last() =~= rest);
                },
                Err(_) => {},
            }
        }
        let rows = row.drop_last();
        assert forall|i: int| 0 <= i < rows.len() implies holds_value(#[trigger] rows[i], earlier[i]) by {
            assert(holds_value(row[i], values[i]));
        }
        law_a_put_row_reads_back(entity, members, earlier, rows, (upto - 1) as nat);
        lemma_row_json_prefix(entity, row, (upto - 1) as nat);
        assert(flat(entity.fields@[upto - 1].1.kind));
        assert(column_value(meta, said) == Ok::<SqlView, Seq<char>>(values.last()));
        assert(holds_value(row[upto - 1], values[upto - 1]));
        law_a_written_column_reads_back(meta, said, values.last(), row[upto - 1]);
        lemma_row_json_names(entity, row, (upto - 1) as nat, name@);
        let rest = row_json(entity, row, (upto - 1) as nat)->Ok_0;
        let object = row_json(entity, row, upto)->Ok_0;
        assert forall|i: int| 0 <= i < upto implies object.member(
            (#[trigger] entity.fields@[i]).0@,
        ) == ({
            let told = member_or_null(members, entity.fields@[i].0@);
            if told.0 is Null {
                None
            } else {
                Some(read_back(entity.fields@[i].1, told))
            }
        }) by {
            if i < upto - 1 {
                assert(entity.fields@[i].0@ != entity.fields@[upto - 1].0@);
                assert(object.member(entity.fields@[i].0@) == rest.member(entity.fields@[i].0@));
            }
        }
    }
}

/// A row says something of its columns alone.
proof fn lemma_row_json_names(entity: EntityDef, row: Seq<Stored>, upto: nat, name: Seq<char>)
    requires
        upto <= row.len(),
        upto <= entity.fields.len(),
        forall|i: int| 0 <= i < upto ==> (#[trigger] entity.fields@[i]).0@ != name,
    ensures
        row_json(entity, row, upto) matches Ok(object) ==> object is Object && object.member(name) is None,
    decreases upto,
{
    if upto > 0 {
        lemma_row_json_names(entity, row, (upto - 1) as nat, name);
        assert(entity.fields@[upto - 1].0@ != name);
    }
}

/// The first columns of a row do not depend on the later ones.
proof fn lemma_row_json_prefix(entity: EntityDef, row: Seq<Stored>, upto: nat)
    requires
        upto < row.len(),
        upto < entity.fields.len(),
    ensures
        row_json(entity, row.drop_last(), upto) == row_json(entity, row, upto),
    decreases upto,
{
    if upto > 0 {
        lemma_row_json_prefix(entity, row, (upto - 1) as nat);
        assert(row.drop_last()[upto - 1] == row[upto - 1]);
    }
}

/// The key that a cursor carries binds as the value that its row holds, so that the next
/// page begins behind that row: a text as it is, and an integer by its digits.
pub proof fn law_a_cursor_key_binds_as_its_row_holds_it(kind: FieldKind, value: JsonView)
    requires
        keyable(kind),
        match value {
            JsonView::Int(n) => (kind is I64 || kind is U64) && i64::MIN <= n <= i64::MAX,
            JsonView::Text(_) => !(kind is I64 || kind is U64),
            _ => false,
        },
    ensures
        key_text(value) is Some,
        bound_or_text(kind, key_text(value)->0) == match value {
            JsonView::Int(n) => SqlView::Integer(n as i64),
            JsonView::Text(text) => SqlView::Text(text),
            _ => SqlView::Null,
        },
{
    if let JsonView::Int(n) = value {
        lemma_signed_decimal_value(n);
    }
}

} // verus!
