//! Schemas: how declarations are stored, what makes an entity valid, and the tables and indexes
//! it comes to.

use vstd::prelude::*;

use crate::ir::Type;
use crate::laws::texts::{lemma_joined_part, lemma_part_behind, lemma_part_in_front, lemma_part_of_itself};
use crate::read_api::{filterable, reserved_params};
use crate::schema::{
    base_kind, column_sql, column_type, covered_error, declared_entity, declared_event, declared_index, description,
    entity_error, field_named, index_column_views, index_columns_error, index_name_view, index_names_error,
    index_sql, is_indexed, keyable, kind_in, max_text, meta_column_type, reserved_error, scalar_text,
    sql_identifier, stored_kind, table_sql, wire_name, with_bound, EntityDef, FieldKind, FieldMeta, IndexDef,
    KindView,
};
use crate::ir::{enum_named, EntityDecl, EnumDef, EventDecl};
use crate::json::JsonView;
use crate::sql::{quoted, quoted_all};
use crate::text::{decimal, has_part, is_digit, is_letter, joined, option_view, signed_decimal, stands_at, views};

verus! {

// ---------------------------------------------------------------------------
// Fields
// ---------------------------------------------------------------------------

/// The field of a name is the first that is declared under it.
pub proof fn law_a_field_is_found_by_its_name(fields: Seq<(String, FieldMeta)>, name: Seq<char>)
    ensures
        match field_named(fields, name) {
            Some(meta) => exists|i: int|
                0 <= i < fields.len() && (#[trigger] fields[i]).0@ == name && fields[i].1 == meta && forall|j: int|
                    0 <= j < i ==> (#[trigger] fields[j]).0@ != name,
            None => forall|j: int| 0 <= j < fields.len() ==> (#[trigger] fields[j]).0@ != name,
        },
    decreases fields.len(),
{
    if fields.len() > 0 {
        if fields[0].0@ == name {
            assert(fields[0].0@ == name);
        } else {
            let rest = fields.skip(1);
            law_a_field_is_found_by_its_name(rest, name);
            assert forall|j: int| 0 <= j < fields.len() && j > 0 implies #[trigger] fields[j] == rest[j - 1] by {}
            match field_named(rest, name) {
                Some(meta) => {
                    let i = choose|i: int|
                        0 <= i < rest.len() && (#[trigger] rest[i]).0@ == name && rest[i].1 == meta && forall|j: int|
                            0 <= j < i ==> (#[trigger] rest[j]).0@ != name;
                    assert(fields[i + 1].0@ == name);
                    assert forall|j: int| 0 <= j < i + 1 implies (#[trigger] fields[j]).0@ != name by {
                        if j > 0 {
                            assert(rest[j - 1].0@ != name);
                        }
                    }
                },
                None => {
                    assert forall|j: int| 0 <= j < fields.len() implies (#[trigger] fields[j]).0@ != name by {
                        if j > 0 {
                            assert(rest[j - 1].0@ != name);
                        }
                    }
                },
            }
        }
    }
}

/// A column is an integer where it holds an integer or a truth value in the open, whether or not it
/// may be absent, and text in every other case: what is sealed is text.
pub proof fn law_a_column_is_stored_by_its_kind(meta: FieldMeta)
    requires
        crate::read_model::flat(meta.kind),
    ensures
        meta_column_type(meta) == "INTEGER"@ <==> meta.subject is None && (base_kind(meta.kind) is I64 || base_kind(
            meta.kind,
        ) is U64 || base_kind(meta.kind) is Bool),
        meta_column_type(meta) != "INTEGER"@ ==> meta_column_type(meta) == "TEXT"@,
        column_type(FieldKind::Optional(Box::new(meta.kind))) == column_type(meta.kind),
{
    reveal_strlit("INTEGER");
    reveal_strlit("TEXT");
    assert("INTEGER"@.len() == 7 && "TEXT"@.len() == 4);
    reveal_with_fuel(column_type, 2);
}

/// A declared type is stored as what it is: an optional one as its own type or nothing, a sealed one as
/// what is sealed, an amount and a decimal at their scale, and an enumeration as one of its variants.
pub proof fn law_a_type_is_stored_as_what_it_is(
    ty: Type,
    subject: String,
    scale: u8,
    name: String,
    enums: Seq<EnumDef>,
)
    ensures
        stored_kind(Type::Opt(Box::new(ty)), enums) == KindView::Optional(Box::new(stored_kind(ty, enums))),
        stored_kind(Type::Bool, enums) is Bool,
        stored_kind(Type::Int, enums) is I64,
        stored_kind(Type::Text, enums) == KindView::Text(None),
        stored_kind(Type::Uuid, enums) is Uuid,
        stored_kind(Type::Timestamp, enums) is Timestamp,
        stored_kind(Type::Money(scale), enums) == KindView::Money(scale),
        stored_kind(Type::Decimal(scale), enums) == stored_kind(Type::Money(scale), enums),
        stored_kind(Type::Enum(name), enums) is OneOf,
        ty matches Type::Sealed(inner, _) ==> stored_kind(ty, enums) == stored_kind(*inner, enums),
{
    reveal_with_fuel(kind_in, 2);
}

/// A bound on a length is kept with a text, optional or not, and with nothing else. One that is too
/// large to be kept bounds nothing.
pub proof fn law_a_bound_is_kept_with_a_text(kind: KindView, max: usize, before: Option<u32>)
    ensures
        max <= u32::MAX ==> with_bound(KindView::Text(before), Some(max)) == KindView::Text(Some(max as u32)),
        max > u32::MAX ==> with_bound(KindView::Text(before), Some(max)) == KindView::Text(None),
        with_bound(KindView::Optional(Box::new(kind)), Some(max)) == KindView::Optional(
            Box::new(with_bound(kind, Some(max))),
        ),
        !(kind is Text) && !(kind is Optional) ==> with_bound(kind, Some(max)) == kind,
        with_bound(kind, None) == kind,
{
    reveal_with_fuel(with_bound, 2);
    crate::schema::law_a_bound_keeps_optionality(kind, None);
}

/// A field keeps its name and its subject from its declaration, and its bound with its kind. It is
/// indexed where its event says so.
pub proof fn law_an_event_is_stored_as_declared(decl: EventDecl, enums: Seq<EnumDef>, at: int)
    requires
        0 <= at < decl.fields.len(),
    ensures
        declared_event(decl, enums).len() == decl.fields.len(),
        ({
            let (name, meta) = declared_event(decl, enums)[at];
            let field = decl.fields@[at];
            &&& name == field.name@
            &&& meta.subject == option_view(field.subject)
            &&& meta.indexed == field.indexed
            &&& !meta.unique
            &&& meta.kind == with_bound(stored_kind(field.ty, enums), field.max_len)
        }),
{
}

/// A column of an entity keeps its name and its subject from its declaration. It is indexed exactly
/// where it is the key or stands in an index, and an index keeps its columns in their order, under the
/// name that they make up.
pub proof fn law_an_entity_is_stored_as_declared(decl: EntityDecl, enums: Seq<EnumDef>, at: int, index: int)
    requires
        0 <= at < decl.fields.len(),
        0 <= index < decl.indexes.len(),
    ensures
        declared_entity(decl, enums).len() == decl.fields.len(),
        ({
            let (name, meta) = declared_entity(decl, enums)[at];
            let field = decl.fields@[at];
            &&& name == field.name@
            &&& meta.subject == option_view(field.subject)
            &&& meta.kind == with_bound(stored_kind(field.ty, enums), field.max_len)
            &&& meta.indexed <==> name == decl.key@ || exists|i: int, k: int|
                0 <= i < decl.indexes.len() && 0 <= k < decl.indexes@[i].len()
                    && #[trigger] decl.indexes@[i]@[k]@ == name
        }),
        declared_index(decl, index).1 == views(decl.indexes@[index]@),
        has_part(declared_index(decl, index).0, "by_"@ + joined(views(decl.indexes@[index]@), "_"@)),
        declared_index(decl, index).0.len() == 3 + joined(views(decl.indexes@[index]@), "_"@).len(),
{
    let name = decl.fields@[at].name@;
    if is_indexed(decl, name) {
        let i = choose|i: int|
            0 <= i < decl.indexes.len() && views((#[trigger] decl.indexes@[i])@).contains(name);
        let list = views(decl.indexes@[i]@);
        let k = choose|k: int| 0 <= k < list.len() && list[k] == name;
        assert(decl.indexes@[i]@[k]@ == name);
    }
    if exists|i: int, k: int|
        0 <= i < decl.indexes.len() && 0 <= k < decl.indexes@[i].len()
            && #[trigger] decl.indexes@[i]@[k]@ == name {
        let (i, k) = choose|i: int, k: int|
            0 <= i < decl.indexes.len() && 0 <= k < decl.indexes@[i].len()
                && #[trigger] decl.indexes@[i]@[k]@ == name;
        assert(views(decl.indexes@[i]@)[k] == name);
        assert(views(decl.indexes@[i]@).contains(name));
    }
    reveal_strlit("by_");
    lemma_part_of_itself("by_"@ + joined(views(decl.indexes@[index]@), "_"@));
}

/// The text of a scalar is what it is written as, and a container has none.
pub proof fn law_a_scalar_is_its_text(text: Seq<char>, n: int, items: Seq<JsonView>)
    ensures
        scalar_text(JsonView::Text(text)) == Some(text),
        scalar_text(JsonView::Int(n)) == Some(signed_decimal(n)),
        scalar_text(JsonView::Bool(true)) == Some("true"@),
        scalar_text(JsonView::Bool(false)) == Some("false"@),
        scalar_text(JsonView::Null) is None,
        scalar_text(JsonView::Array(items)) is None,
        scalar_text(JsonView::object()) is None,
{
}

// ---------------------------------------------------------------------------
// Tables
// ---------------------------------------------------------------------------

/// A column stands in its table under its own name and type. It is the primary key exactly where it is
/// the entity's key, and may be null exactly where its kind is optional.
pub proof fn law_a_column_stands_in_its_table(entity: EntityDef, at: int)
    requires
        0 <= at < entity.fields.len(),
    ensures
        ({
            let (name, meta) = entity.fields@[at];
            let column = column_sql(entity, at);
            let front = "  "@ + quoted(name@) + " "@ + meta_column_type(meta);
            let back = column.skip(front.len() as int);
            &&& stands_at(column, front, 0)
            &&& name@ == entity.key@ && !(meta.kind is Optional) ==> back == " PRIMARY KEY NOT NULL"@
            &&& name@ == entity.key@ && meta.kind is Optional ==> back == " PRIMARY KEY"@
            &&& name@ != entity.key@ && !(meta.kind is Optional) ==> back == " NOT NULL"@
            &&& name@ != entity.key@ && meta.kind is Optional ==> back.len() == 0
            &&& has_part(table_sql(entity), column)
        }),
        stands_at(table_sql(entity), "CREATE TABLE IF NOT EXISTS "@ + quoted(entity.name@) + " (\n"@, 0),
{
    let (name, meta) = entity.fields@[at];
    let column = column_sql(entity, at);
    let front = "  "@ + quoted(name@) + " "@ + meta_column_type(meta);
    reveal_strlit("");
    reveal_strlit(" PRIMARY KEY");
    reveal_strlit(" NOT NULL");
    reveal_strlit(" PRIMARY KEY NOT NULL");
    assert(column.subrange(0, front.len() as int) =~= front);
    assert(" PRIMARY KEY"@ + " NOT NULL"@ =~= " PRIMARY KEY NOT NULL"@);
    let back = column.skip(front.len() as int);
    if name@ == entity.key@ {
        if meta.kind is Optional {
            assert(back =~= " PRIMARY KEY"@);
        } else {
            assert(back =~= " PRIMARY KEY"@ + " NOT NULL"@);
        }
    } else if !(meta.kind is Optional) {
        assert(back =~= " NOT NULL"@);
    } else {
        assert(back =~= Seq::<char>::empty());
    }
    let columns = Seq::new(entity.fields.len() as nat, |i: int| column_sql(entity, i));
    let head = "CREATE TABLE IF NOT EXISTS "@ + quoted(entity.name@) + " (\n"@;
    lemma_joined_part(columns, ",\n"@, at);
    lemma_part_behind(head, joined(columns, ",\n"@), column);
    lemma_part_in_front(head + joined(columns, ",\n"@), "\n)"@, column);
    assert(table_sql(entity).subrange(0, head.len() as int) =~= head);
}

/// An index is made over its own columns in their order, with the key behind them where it is not among
/// them, on the entity's own table.
pub proof fn law_an_index_is_over_its_columns_and_the_key(entity: EntityDef, ix: IndexDef)
    ensures
        ({
            let columns = index_column_views(entity, ix);
            &&& forall|i: int| 0 <= i < ix.columns.len() ==> #[trigger] columns[i] == ix.columns@[i]@
            &&& columns.len() <= ix.columns.len() + 1
            &&& columns.len() == ix.columns.len() + 1 ==> columns.last() == entity.key@
            &&& columns.contains(entity.key@)
            &&& columns.len() == ix.columns.len() <==> exists|i: int|
                0 <= i < ix.columns.len() && (#[trigger] ix.columns@[i])@ == entity.key@
            &&& has_part(index_sql(entity, ix), " ON "@ + quoted(entity.name@))
            &&& has_part(index_sql(entity, ix), " ("@ + joined(quoted_all(columns), ", "@) + ")"@)
            &&& has_part(index_sql(entity, ix), quoted(index_name_view(entity, ix.name@)))
        }),
{
    let columns = index_column_views(entity, ix);
    let own = views(ix.columns@);
    crate::schema::law_an_index_ends_in_the_key(entity, ix);
    if own.contains(entity.key@) {
        let i = choose|i: int| 0 <= i < own.len() && own[i] == entity.key@;
        assert(ix.columns@[i]@ == entity.key@);
    }
    if exists|i: int| 0 <= i < ix.columns.len() && (#[trigger] ix.columns@[i])@ == entity.key@ {
        let i = choose|i: int| 0 <= i < ix.columns.len() && (#[trigger] ix.columns@[i])@ == entity.key@;
        assert(own[i] == entity.key@);
        assert(own.contains(entity.key@));
    }
    let head = "CREATE INDEX IF NOT EXISTS "@;
    let name = quoted(index_name_view(entity, ix.name@));
    let on = " ON "@ + quoted(entity.name@);
    let over = " ("@ + joined(quoted_all(columns), ", "@) + ")"@;
    let sql = index_sql(entity, ix);
    assert(sql =~= head + name + on + over);
    crate::laws::texts::lemma_part_at_the_end(head, name);
    lemma_part_in_front(head + name, on, name);
    lemma_part_in_front(head + name + on, over, name);
    crate::laws::texts::lemma_part_at_the_end(head + name, on);
    lemma_part_in_front(head + name + on, over, on);
    crate::laws::texts::lemma_part_at_the_end(head + name + on, over);
}

// ---------------------------------------------------------------------------
// Validity
// ---------------------------------------------------------------------------

/// Whether a name needs no quoting: letters, digits and underscores, and no digit in front.
pub open spec fn is_plain_name(name: Seq<char>) -> bool {
    &&& name.len() > 0
    &&& !('0' <= name[0] <= '9')
    &&& forall|i: int|
        0 <= i < name.len() ==> ('a' <= #[trigger] name[i] <= 'z') || ('A' <= name[i] <= 'Z') || ('0' <= name[i]
            <= '9') || name[i] == '_'
}

/// A name is taken for an identifier exactly where it needs no quoting.
pub proof fn law_an_identifier_needs_no_quoting(name: Seq<char>)
    ensures
        sql_identifier(name) <==> is_plain_name(name),
{
    if is_plain_name(name) {
        assert(('a' <= name[0] <= 'z') || ('A' <= name[0] <= 'Z') || name[0] == '_');
    }
    if sql_identifier(name) {
        assert forall|i: int| 0 <= i < name.len() implies ('a' <= #[trigger] name[i] <= 'z') || ('A' <= name[i]
            <= 'Z') || ('0' <= name[i] <= '9') || name[i] == '_' by {
            if i > 0 {
                assert(is_letter(name[i]) || is_digit(name[i]) || name[i] == '_');
            }
        }
    }
}

/// Whether an entity's key can stand in a cursor: it is declared, is never absent, has an order, and is
/// in the open.
pub open spec fn has_usable_key(entity: EntityDef) -> bool {
    field_named(entity.fields@, entity.key@) matches Some(meta) && !(meta.kind is Optional) && keyable(meta.kind)
        && meta.subject is None
}

/// Whether an index can be read by: its name is an identifier and not the key's, and its columns are
/// declared and in the open.
pub open spec fn is_usable_index(entity: EntityDef, ix: IndexDef) -> bool {
    &&& is_plain_name(ix.name@)
    &&& ix.name@ != entity.key@
    &&& forall|k: int|
        0 <= k < ix.columns.len() ==> (field_named(entity.fields@, (#[trigger] ix.columns@[k])@) matches Some(meta)
            && meta.subject is None)
}

proof fn lemma_index_names(entity: EntityDef, from: nat)
    ensures
        index_names_error(entity, from) is None <==> forall|i: int|
            from <= i < entity.indexes.len() ==> is_plain_name((#[trigger] entity.indexes@[i]).name@)
                && entity.indexes@[i].name@ != entity.key@,
    decreases entity.indexes.len() - from,
{
    if from < entity.indexes.len() {
        lemma_index_names(entity, from + 1);
        law_an_identifier_needs_no_quoting(entity.indexes@[from as int].name@);
        assert(entity.indexes@[from as int] == entity.indexes@[from as int]);
    }
}

proof fn lemma_index_columns(entity: EntityDef, ix: IndexDef, from: nat)
    ensures
        index_columns_error(entity, ix, from) is None <==> forall|k: int|
            from <= k < ix.columns.len() ==> (field_named(entity.fields@, (#[trigger] ix.columns@[k])@) matches Some(
                meta,
            ) && meta.subject is None),
    decreases ix.columns.len() - from,
{
    if from < ix.columns.len() {
        lemma_index_columns(entity, ix, from + 1);
        assert(ix.columns@[from as int]@ == ix.columns@[from as int]@);
    }
}

proof fn lemma_covered(entity: EntityDef, from: nat)
    ensures
        covered_error(entity, from) is None <==> forall|i: int|
            from <= i < entity.indexes.len() ==> index_columns_error(
                entity,
                #[trigger] entity.indexes@[i],
                0,
            ) is None,
    decreases entity.indexes.len() - from,
{
    if from < entity.indexes.len() {
        lemma_covered(entity, from + 1);
        assert(entity.indexes@[from as int] == entity.indexes@[from as int]);
    }
}

proof fn lemma_reserved(entity: EntityDef, from: nat)
    ensures
        reserved_error(entity, from) is None <==> forall|i: int|
            from <= i < filterable(entity).len() ==> !reserved_params().contains(
                #[trigger] filterable(entity)[i],
            ),
    decreases filterable(entity).len() - from,
{
    if from < filterable(entity).len() {
        lemma_reserved(entity, from + 1);
        assert(filterable(entity)[from as int] == filterable(entity)[from as int]);
    }
}

/// An entity is valid exactly where its table, its key and its indexes can be used, and where no column
/// that a filter may name is taken for a parameter of the read itself.
pub proof fn law_an_entity_is_valid_where_it_can_be_served(entity: EntityDef)
    ensures
        entity_error(entity) is None <==> {
            &&& is_plain_name(entity.name@)
            &&& has_usable_key(entity)
            &&& forall|i: int| 0 <= i < entity.indexes.len() ==> is_usable_index(entity, #[trigger] entity.indexes@[i])
            &&& forall|i: int|
                0 <= i < filterable(entity).len() ==> !reserved_params().contains(
                    #[trigger] filterable(entity)[i],
                )
        },
{
    law_an_identifier_needs_no_quoting(entity.name@);
    lemma_index_names(entity, 0);
    lemma_covered(entity, 0);
    lemma_reserved(entity, 0);
    assert forall|i: int| 0 <= i < entity.indexes.len() implies (index_columns_error(
        entity,
        #[trigger] entity.indexes@[i],
        0,
    ) is None <==> forall|k: int|
        0 <= k < entity.indexes@[i].columns.len() ==> (field_named(
            entity.fields@,
            (#[trigger] entity.indexes@[i].columns@[k])@,
        ) matches Some(meta) && meta.subject is None)) by {
        lemma_index_columns(entity, entity.indexes@[i], 0);
    }
    if forall|i: int| 0 <= i < entity.indexes.len() ==> is_usable_index(entity, #[trigger] entity.indexes@[i]) {
        assert forall|i: int| 0 <= i < entity.indexes.len() implies is_plain_name(
            (#[trigger] entity.indexes@[i]).name@,
        ) && entity.indexes@[i].name@ != entity.key@ && index_columns_error(entity, entity.indexes@[i], 0) is None by {
            assert(is_usable_index(entity, entity.indexes@[i]));
        }
    }
    if index_names_error(entity, 0) is None && covered_error(entity, 0) is None {
        assert forall|i: int| 0 <= i < entity.indexes.len() implies is_usable_index(
            entity,
            #[trigger] entity.indexes@[i],
        ) by {
            assert(index_columns_error(entity, entity.indexes@[i], 0) is None);
        }
    }
}

/// An event is known on the wire by its path, one part behind the other with a point between them.
pub proof fn law_an_event_is_known_by_its_path(path: Seq<String>, at: int)
    requires
        0 <= at < path.len(),
    ensures
        has_part(wire_name(path), path[at]@),
        path.len() == 1 ==> wire_name(path) == path[0]@,
        path.len() == 2 ==> wire_name(path) == path[0]@ + "."@ + path[1]@,
{
    lemma_joined_part(views(path), "."@, at);
    reveal_with_fuel(joined, 3);
    if path.len() == 2 {
        let list = views(path);
        assert(list.drop_last().len() == 1);
        assert(list.drop_last()[0] == path[0]@);
    }
}

/// A kind is described as it is declared: an optional one carries its mark, and a bound its number.
pub proof fn law_an_optional_kind_is_described_with_its_mark(kind: FieldKind, n: u32)
    requires
        !(kind is Text) && !(kind is OneOf),
    ensures
        description(FieldKind::Optional(Box::new(kind))) == description(kind) + "?"@,
        has_part(description(FieldKind::Text { max_length: Some(n) }), decimal(n as nat)),
        has_part(
            description(FieldKind::Optional(Box::new(FieldKind::Text { max_length: Some(n) }))),
            "String? "@ + max_text(n),
        ),
{
    reveal_with_fuel(description, 2);
    lemma_part_of_itself(decimal(n as nat));
    lemma_part_behind("@max("@, decimal(n as nat), decimal(n as nat));
    lemma_part_in_front("@max("@ + decimal(n as nat), ")"@, decimal(n as nat));
    lemma_part_behind("String "@, max_text(n), decimal(n as nat));
    lemma_part_of_itself("String? "@ + max_text(n));
}

/// An enum is found by its name, the first of that name where there are several.
pub proof fn law_an_enum_is_found_by_its_name(enums: Seq<EnumDef>, name: Seq<char>, at: int)
    requires
        0 <= at <= enums.len(),
        forall|i: int| 0 <= i < at ==> (#[trigger] enums[i]).name@ != name,
        at < enums.len() ==> enums[at].name@ == name,
    ensures
        enum_named(enums, name) == if at < enums.len() {
            Some(enums[at])
        } else {
            None
        },
    decreases enums.len(),
{
    if enums.len() > 0 && at > 0 {
        let rest = enums.skip(1);
        assert(enums[0].name@ != name);
        assert forall|i: int| 0 <= i < at - 1 implies (#[trigger] rest[i]).name@ != name by {
            assert(rest[i] == enums[i + 1]);
        }
        law_an_enum_is_found_by_its_name(rest, name, at - 1);
    }
}

} // verus!
