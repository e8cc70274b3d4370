//! Writes: what the statements of a put, a patch and a delete do to a row.

use vstd::prelude::*;

use crate::json::JsonView;
use crate::laws::texts::{lemma_part_behind, lemma_part_in_front, lemma_part_of_itself};
use crate::read_model::{
    apply_message, bound_or_text, checkpoint_statement, column_json, column_value, columns_sql, delete_statement,
    document_scalar, document_value, flat, flat_columns, get_statement, holds_value, json_document, key_kind_view,
    law_a_written_column_reads_back, limit_view, marks, member_or_null, patch_statement, patch_values,
    put_statement, read_back, readable, row_json, row_values, stored_position, ApplyErrorView, MemberView,
    ScalarView, SqlView, Stored,
};
use crate::schema::{base_kind, EntityDef, FieldMeta};
use crate::sql::quoted;
use crate::text::{has_part, joined, stands_at};

verus! {

/// Whether the columns of an entity have names of their own.
pub open spec fn distinct_columns(entity: EntityDef) -> bool {
    forall|i: int, j: int|
        0 <= i < j < entity.fields.len() ==> (#[trigger] entity.fields@[i]).0@ != (
        #[trigger] entity.fields@[j]).0@
}

// ---------------------------------------------------------------------------
// Patches
// ---------------------------------------------------------------------------

/// The assignments of an `UPDATE` that sets those columns, each to a value that is bound.
pub open spec fn settings(entity: EntityDef, columns: Seq<int>) -> Seq<Seq<char>> {
    Seq::new(columns.len(), |k: int| quoted(entity.fields@[columns[k]].0@) + " = ?"@)
}

/// Whether those are the columns that some changes name, in the order they are declared in.
pub open spec fn named_columns(
    entity: EntityDef,
    members: Map<Seq<char>, MemberView>,
    upto: nat,
    columns: Seq<int>,
) -> bool {
    &&& forall|k: int|
        0 <= k < columns.len() ==> 0 <= #[trigger] columns[k] < upto && members.contains_key(
            entity.fields@[columns[k]].0@,
        )
    &&& forall|k: int, m: int| 0 <= k < m < columns.len() ==> #[trigger] columns[k] < #[trigger] columns[m]
    &&& forall|i: int|
        0 <= i < upto && members.contains_key((#[trigger] entity.fields@[i]).0@) ==> columns.contains(i)
}

/// Whether each of those columns is given the value that the changes say under its name.
pub open spec fn own_values(
    entity: EntityDef,
    members: Map<Seq<char>, MemberView>,
    columns: Seq<int>,
    values: Seq<SqlView>,
) -> bool {
    forall|k: int|
        0 <= k < columns.len() ==> column_value(
            entity.fields@[#[trigger] columns[k]].1,
            members[entity.fields@[columns[k]].0@],
        ) == Ok::<SqlView, Seq<char>>(values[k])
}

proof fn lemma_patch_columns(entity: EntityDef, members: Map<Seq<char>, MemberView>, upto: nat) -> (columns: Seq<int>)
    requires
        upto <= entity.fields.len(),
        patch_values(entity, members, upto) is Ok,
    ensures
        patch_values(entity, members, upto)->Ok_0.0 == settings(entity, columns),
        patch_values(entity, members, upto)->Ok_0.1.len() == columns.len(),
        named_columns(entity, members, upto, columns),
        own_values(entity, members, columns, patch_values(entity, members, upto)->Ok_0.1),
    decreases upto,
{
    if upto == 0 {
        let columns = Seq::<int>::empty();
        assert(settings(entity, columns) =~= Seq::empty());
        columns
    } else {
        let at = upto - 1;
        let earlier = lemma_patch_columns(entity, members, at as nat);
        let name = entity.fields@[at].0@;
        if members.contains_key(name) {
            let columns = earlier.push(at);
            let values = patch_values(entity, members, upto)->Ok_0.1;
            assert(settings(entity, columns) =~= settings(entity, earlier).push(quoted(name) + " = ?"@));
            assert forall|i: int|
                0 <= i < upto && members.contains_key((#[trigger] entity.fields@[i]).0@) implies columns.contains(
                i,
            ) by {
                if i < at {
                    assert(earlier.contains(i));
                    let k = choose|k: int| 0 <= k < earlier.len() && earlier[k] == i;
                    assert(columns[k] == i);
                } else {
                    assert(columns[earlier.len() as int] == i);
                }
            }
            assert(own_values(entity, members, columns, values)) by {
                assert forall|k: int| 0 <= k < columns.len() implies column_value(
                    entity.fields@[#[trigger] columns[k]].1,
                    members[entity.fields@[columns[k]].0@],
                ) == Ok::<SqlView, Seq<char>>(values[k]) by {
                    if k < earlier.len() {
                        assert(columns[k] == earlier[k]);
                    }
                }
            }
            columns
        } else {
            earlier
        }
    }
}

/// Whether a statement sets those columns of the row with a key, binding a value for each in
/// its place and the key behind them.
pub open spec fn sets(
    entity: EntityDef,
    key: Seq<char>,
    columns: Seq<int>,
    sql: Seq<char>,
    binds: Seq<SqlView>,
) -> bool {
    &&& columns.len() > 0
    &&& sql == "UPDATE "@ + quoted(entity.name@) + " SET "@ + joined(settings(entity, columns), ", "@)
        + " WHERE "@ + quoted(entity.key@) + " = ?"@
    &&& binds.len() == columns.len() + 1
    &&& binds.last() == bound_or_text(key_kind_view(entity), key)
}

/// A patch sets the columns that its changes name and no others, each of them to the value that
/// is said under its name: the value that is bound in the place of an assignment is the one of
/// the column that the assignment names. Where the changes name no column there is nothing to
/// be done.
pub proof fn law_a_patch_sets_each_column_to_its_own_value(
    entity: EntityDef,
    key: Seq<char>,
    members: Map<Seq<char>, MemberView>,
)
    ensures
        match patch_statement(entity, key, Ok(Some(members))) {
            Ok(Some((sql, binds))) => exists|columns: Seq<int>| #[trigger]
                named_columns(entity, members, entity.fields.len() as nat, columns) && sets(
                    entity,
                    key,
                    columns,
                    sql,
                    binds,
                ) && own_values(entity, members, columns, binds),
            Ok(None) => forall|i: int|
                0 <= i < entity.fields.len() ==> !members.contains_key((#[trigger] entity.fields@[i]).0@),
            Err(_) => true,
        },
{
    let n = entity.fields.len() as nat;
    if patch_values(entity, members, n) is Ok {
        let columns = lemma_patch_columns(entity, members, n);
        let values = patch_values(entity, members, n)->Ok_0.1;
        let binds = values.push(bound_or_text(key_kind_view(entity), key));
        if columns.len() > 0 {
            assert(own_values(entity, members, columns, binds)) by {
                assert forall|k: int| 0 <= k < columns.len() implies column_value(
                    entity.fields@[#[trigger] columns[k]].1,
                    members[entity.fields@[columns[k]].0@],
                ) == Ok::<SqlView, Seq<char>>(binds[k]) by {
                    assert(binds[k] == values[k]);
                }
            }
            assert(named_columns(entity, members, n, columns));
        } else {
            assert forall|i: int| 0 <= i < entity.fields.len() implies !members.contains_key(
                (#[trigger] entity.fields@[i]).0@,
            ) by {
                if members.contains_key(entity.fields@[i].0@) {
                    assert(columns.contains(i));
                }
            }
        }
    }
}

/// Whether SQLite leaves a row as that after an `UPDATE` that sets those columns to those
/// values: each of them holds its value, and every other column is as it was.
pub open spec fn updates_to(
    before: Seq<Stored>,
    after: Seq<Stored>,
    columns: Seq<int>,
    values: Seq<SqlView>,
) -> bool {
    &&& after.len() == before.len()
    &&& forall|k: int| 0 <= k < columns.len() ==> holds_value(after[#[trigger] columns[k]], values[k])
    &&& forall|i: int| 0 <= i < before.len() && !columns.contains(i) ==> #[trigger] after[i] == before[i]
}

/// What a row says under a column's name: nothing where it holds a null.
pub open spec fn said_of(meta: FieldMeta, stored: Stored) -> Option<JsonView> {
    match column_json(meta, stored) {
        Ok(JsonView::Null) => None,
        Ok(value) => Some(value),
        Err(_) => None,
    }
}

/// A stored value reads by the kind of its column: a number as a truth value in a column of
/// those, and as itself in any other. A sealed column hands out no number, and nothing reads as
/// anything where nothing is stored.
pub proof fn law_a_stored_value_reads_by_its_columns_kind(meta: FieldMeta, n: i64)
    ensures
        meta.subject is None && base_kind(meta.kind) is Bool ==> (column_json(meta, Stored::Integer(n)) == Ok::<
            JsonView,
            Seq<char>,
        >(JsonView::Bool(true)) <==> n != 0) && (column_json(meta, Stored::Integer(n)) == Ok::<JsonView, Seq<char>>(
            JsonView::Bool(false),
        ) <==> n == 0),
        meta.subject is None && !(base_kind(meta.kind) is Bool) ==> column_json(meta, Stored::Integer(n)) == Ok::<
            JsonView,
            Seq<char>,
        >(JsonView::Int(n as int)),
        meta.subject is Some ==> column_json(meta, Stored::Integer(n)) == Ok::<JsonView, Seq<char>>(JsonView::Null),
        column_json(meta, Stored::Null) == Ok::<JsonView, Seq<char>>(JsonView::Null),
        column_json(meta, Stored::Blob) == Ok::<JsonView, Seq<char>>(JsonView::Null),
{
}

/// What is written reads back as itself: a text as that text, a flag as that flag, and a number
/// as that number, or as a flag from a column of those.
pub proof fn law_what_is_written_reads_back_as_itself(meta: FieldMeta, text: Seq<char>, flag: bool, n: i64, printed: Seq<char>)
    ensures
        read_back(meta, (ScalarView::Text(text), printed)) == JsonView::Text(text),
        read_back(meta, (ScalarView::Bool(flag), printed)) == JsonView::Bool(flag),
        read_back(meta, (ScalarView::Null, printed)) == JsonView::Null,
        base_kind(meta.kind) is I64 || base_kind(meta.kind) is U64 ==> read_back(
            meta,
            (ScalarView::Number(Some(n)), printed),
        ) == JsonView::Int(n as int),
        base_kind(meta.kind) is Bool ==> read_back(meta, (ScalarView::Number(Some(n)), printed)) == if n == 0 {
            JsonView::Bool(false)
        } else {
            JsonView::Bool(true)
        },
        read_back(meta, (ScalarView::List, printed)) == JsonView::Embedded(printed),
{
}

/// A row says of each column what the column holds, and of nothing else.
pub proof fn law_a_row_says_what_its_columns_hold(entity: EntityDef, row: Seq<Stored>, upto: nat)
    requires
        distinct_columns(entity),
        upto <= entity.fields.len(),
        upto <= row.len(),
    ensures
        row_json(entity, row, upto) is Ok <==> forall|i: int|
            0 <= i < upto ==> column_json((#[trigger] entity.fields@[i]).1, row[i]) is Ok,
        row_json(entity, row, upto) matches Ok(object) ==> {
            &&& object is Object
            &&& forall|i: int|
                0 <= i < upto ==> object.member((#[trigger] entity.fields@[i]).0@) == said_of(
                    entity.fields@[i].1,
                    row[i],
                )
            &&& forall|name: Seq<char>|
                #[trigger] object.member(name) is Some ==> exists|i: int|
                    0 <= i < upto && (#[trigger] entity.fields@[i]).0@ == name
        },
    decreases upto,
{
    if upto > 0 {
        let at = upto - 1;
        law_a_row_says_what_its_columns_hold(entity, row, at as nat);
        assert(entity.fields@[at] == entity.fields@[at]);
        if row_json(entity, row, upto) is Ok {
            let rest = row_json(entity, row, at as nat)->Ok_0;
            let object = row_json(entity, row, upto)->Ok_0;
            let name = entity.fields@[at].0@;
            assert(rest.member(name) is None) by {
                if rest.member(name) is Some {
                    let i = choose|i: int| 0 <= i < at && (#[trigger] entity.fields@[i]).0@ == name;
                    assert(entity.fields@[i].0@ != entity.fields@[at].0@);
                }
            }
            assert forall|i: int| 0 <= i < upto implies object.member((#[trigger] entity.fields@[i]).0@)
                == said_of(entity.fields@[i].1, row[i]) by {
                if i < at {
                    assert(entity.fields@[i].0@ != entity.fields@[at].0@);
                }
            }
            assert forall|other: Seq<char>| #[trigger] object.member(other) is Some implies exists|i: int|
                0 <= i < upto && (#[trigger] entity.fields@[i]).0@ == other by {
                if other == name {
                    assert(entity.fields@[at].0@ == other);
                } else {
                    assert(rest.member(other) is Some);
                }
            }
        }
    }
}

/// After a patch every column that its changes name reads back as the value that they say under
/// its name, and every other one reads as it did before.
pub proof fn law_a_patched_row_reads_back(
    entity: EntityDef,
    key: Seq<char>,
    members: Map<Seq<char>, MemberView>,
    columns: Seq<int>,
    sql: Seq<char>,
    binds: Seq<SqlView>,
    before: Seq<Stored>,
    after: Seq<Stored>,
    at: int,
)
    requires
        distinct_columns(entity),
        flat_columns(entity),
        patch_statement(entity, key, Ok(Some(members))) == Ok::<
            Option<(Seq<char>, Seq<SqlView>)>,
            ApplyErrorView,
        >(Some((sql, binds))),
        named_columns(entity, members, entity.fields.len() as nat, columns),
        own_values(entity, members, columns, binds),
        before.len() == entity.fields.len(),
        updates_to(before, after, columns, binds),
        0 <= at < entity.fields.len(),
        forall|i: int|
            0 <= i < entity.fields.len() && members.contains_key((#[trigger] entity.fields@[i]).0@)
                ==> readable(entity.fields@[i].1, members[entity.fields@[i].0@]),
        row_json(entity, before, entity.fields.len() as nat) is Ok,
    ensures
        row_json(entity, after, entity.fields.len() as nat) matches Ok(object) && object.member(
            entity.fields@[at].0@,
        ) == if members.contains_key(entity.fields@[at].0@) {
            if members[entity.fields@[at].0@].0 is Null {
                None
            } else {
                Some(read_back(entity.fields@[at].1, members[entity.fields@[at].0@]))
            }
        } else {
            row_json(entity, before, entity.fields.len() as nat)->Ok_0.member(entity.fields@[at].0@)
        },
{
    let n = entity.fields.len() as nat;
    law_a_row_says_what_its_columns_hold(entity, before, n);
    assert forall|i: int| 0 <= i < n implies column_json((#[trigger] entity.fields@[i]).1, after[i]) is Ok && (
    members.contains_key(entity.fields@[i].0@) ==> column_json(entity.fields@[i].1, after[i]) == Ok::<
        JsonView,
        Seq<char>,
    >(read_back(entity.fields@[i].1, members[entity.fields@[i].0@]))) && (!members.contains_key(
        entity.fields@[i].0@,
    ) ==> after[i] == before[i]) by {
        let (name, meta) = entity.fields@[i];
        if members.contains_key(name@) {
            assert(columns.contains(i));
            let k = choose|k: int| 0 <= k < columns.len() && columns[k] == i;
            assert(holds_value(after[columns[k]], binds[k]));
            assert(flat(meta.kind));
            law_a_written_column_reads_back(meta, members[name@], binds[k], after[i]);
        } else {
            assert(!columns.contains(i)) by {
                if columns.contains(i) {
                    let k = choose|k: int| 0 <= k < columns.len() && columns[k] == i;
                    assert(members.contains_key(entity.fields@[columns[k]].0@));
                }
            }
            assert(after[i] == before[i]);
            assert(column_json(entity.fields@[i].1, before[i]) is Ok);
        }
    }
    law_a_row_says_what_its_columns_hold(entity, after, n);
    assert(entity.fields@[at] == entity.fields@[at]);
    if members.contains_key(entity.fields@[at].0@) {
        let meta = entity.fields@[at].1;
        let member = members[entity.fields@[at].0@];
        let k = choose|k: int| 0 <= k < columns.len() && columns[k] == at;
        assert(columns.contains(at));
        assert(column_value(meta, member) == Ok::<SqlView, Seq<char>>(binds[k]));
        assert(member.0 is Null <==> read_back(meta, member) is Null);
    }
}

/// A patch is refused exactly where its changes are no object, or where they name a column that
/// cannot hold what they say of it. The column that the refusal names is such a one.
pub proof fn law_a_patch_is_refused_where_a_column_cannot_hold_its_value(
    entity: EntityDef,
    key: Seq<char>,
    members: Map<Seq<char>, MemberView>,
)
    ensures
        patch_statement(entity, key, Ok(None)) is Err,
        patch_statement(entity, key, Ok(Some(members))) is Err <==> exists|i: int|
            0 <= i < entity.fields.len() && members.contains_key((#[trigger] entity.fields@[i]).0@)
                && column_value(entity.fields@[i].1, members[entity.fields@[i].0@]) is Err,
{
    lemma_patch_refusal(entity, members, entity.fields.len() as nat);
}

proof fn lemma_patch_refusal(entity: EntityDef, members: Map<Seq<char>, MemberView>, upto: nat)
    requires
        upto <= entity.fields.len(),
    ensures
        patch_values(entity, members, upto) is Err <==> exists|i: int|
            0 <= i < upto && members.contains_key((#[trigger] entity.fields@[i]).0@) && column_value(
                entity.fields@[i].1,
                members[entity.fields@[i].0@],
            ) is Err,
    decreases upto,
{
    if upto > 0 {
        lemma_patch_refusal(entity, members, (upto - 1) as nat);
        let (name, meta) = entity.fields@[upto - 1];
        if members.contains_key(name@) && column_value(meta, members[name@]) is Err {
            assert(entity.fields@[upto - 1].0@ == name@);
        }
    }
}

// ---------------------------------------------------------------------------
// Puts
// ---------------------------------------------------------------------------

proof fn lemma_row_values(entity: EntityDef, members: Map<Seq<char>, MemberView>, upto: nat)
    requires
        upto <= entity.fields.len(),
    ensures
        row_values(entity, members, upto) matches Ok(values) ==> values.len() == upto && forall|i: int|
            0 <= i < upto ==> column_value(
                entity.fields@[i].1,
                member_or_null(members, entity.fields@[i].0@),
            ) == Ok::<SqlView, Seq<char>>(#[trigger] values[i]),
        row_values(entity, members, upto) is Err <==> exists|i: int|
            0 <= i < upto && column_value(
                (#[trigger] entity.fields@[i]).1,
                member_or_null(members, entity.fields@[i].0@),
            ) is Err,
    decreases upto,
{
    if upto > 0 {
        lemma_row_values(entity, members, (upto - 1) as nat);
        assert(entity.fields@[upto - 1] == entity.fields@[upto - 1]);
    }
}

/// A put writes the whole row: each column gets the value that is said under its name, and a
/// null where none is. The columns stand in the statement in the order their values are bound
/// in.
pub proof fn law_a_put_writes_each_column_its_own_value(entity: EntityDef, members: Map<Seq<char>, MemberView>)
    ensures
        put_statement(entity, Ok(Some(members))) matches Ok(written) ==> written matches Some((sql, binds))
            && binds.len() == entity.fields.len() && sql == "INSERT OR REPLACE INTO "@ + quoted(
            entity.name@,
        ) + " ("@ + columns_sql(entity) + ") VALUES ("@ + joined(
            marks(entity.fields.len() as nat),
            ", "@,
        ) + ")"@ && forall|i: int|
            0 <= i < entity.fields.len() ==> (if members.contains_key(entity.fields@[i].0@) {
                column_value(entity.fields@[i].1, members[entity.fields@[i].0@]) == Ok::<
                    SqlView,
                    Seq<char>,
                >(#[trigger] binds[i])
            } else {
                binds[i] is Null
            }),
        put_statement(entity, Ok(None)) is Err,
        put_statement(entity, Ok(Some(members))) is Err <==> exists|i: int|
            0 <= i < entity.fields.len() && members.contains_key((#[trigger] entity.fields@[i]).0@)
                && column_value(entity.fields@[i].1, members[entity.fields@[i].0@]) is Err,
{
    let n = entity.fields.len() as nat;
    lemma_row_values(entity, members, n);
    if row_values(entity, members, n) is Err {
        let i = choose|i: int|
            0 <= i < n && column_value(
                (#[trigger] entity.fields@[i]).1,
                member_or_null(members, entity.fields@[i].0@),
            ) is Err;
        assert(members.contains_key(entity.fields@[i].0@));
    }
}

/// Putting a row leaves nothing of what was there: the statement does not depend on it, and two
/// puts of the same members are the same statement whatever order they are written in.
pub proof fn law_a_put_depends_on_the_columns_alone(
    entity: EntityDef,
    a: Map<Seq<char>, MemberView>,
    b: Map<Seq<char>, MemberView>,
)
    requires
        forall|i: int|
            0 <= i < entity.fields.len() ==> member_or_null(a, (#[trigger] entity.fields@[i]).0@)
                == member_or_null(b, entity.fields@[i].0@),
    ensures
        put_statement(entity, Ok(Some(a))) == put_statement(entity, Ok(Some(b))),
{
    lemma_same_row(entity, a, b, entity.fields.len() as nat);
}

proof fn lemma_same_row(
    entity: EntityDef,
    a: Map<Seq<char>, MemberView>,
    b: Map<Seq<char>, MemberView>,
    upto: nat,
)
    requires
        upto <= entity.fields.len(),
        forall|i: int|
            0 <= i < entity.fields.len() ==> member_or_null(a, (#[trigger] entity.fields@[i]).0@)
                == member_or_null(b, entity.fields@[i].0@),
    ensures
        row_values(entity, a, upto) == row_values(entity, b, upto),
    decreases upto,
{
    if upto > 0 {
        lemma_same_row(entity, a, b, (upto - 1) as nat);
        assert(member_or_null(a, entity.fields@[upto - 1].0@) == member_or_null(
            b,
            entity.fields@[upto - 1].0@,
        ));
    }
}

/// A value is taken by a column exactly where it is of the column's kind: a null by any of them,
/// ciphertext by a sealed one, an integer that fits by an integer column, and a truth value or
/// such an integer by a column of truth values.
pub proof fn law_a_column_takes_values_of_its_kind(meta: FieldMeta, member: MemberView)
    requires
        flat(meta.kind),
    ensures
        column_value(meta, member) is Ok <==> {
            ||| member.0 is Null
            ||| member.0 is Text && (meta.subject is Some || !(base_kind(meta.kind) is I64 || base_kind(
                meta.kind,
            ) is U64 || base_kind(meta.kind) is Bool))
            ||| meta.subject is None && base_kind(meta.kind) is Json
            ||| meta.subject is None && (member.0 matches ScalarView::Number(Some(_))) && (base_kind(
                meta.kind,
            ) is I64 || base_kind(meta.kind) is U64 || base_kind(meta.kind) is Bool)
            ||| meta.subject is None && member.0 is Bool && base_kind(meta.kind) is Bool
        },
        column_value(meta, (ScalarView::Null, member.1)) == Ok::<SqlView, Seq<char>>(SqlView::Null),
        meta.subject is None && base_kind(meta.kind) is Bool ==> column_value(
            meta,
            (ScalarView::Bool(true), member.1),
        ) == Ok::<SqlView, Seq<char>>(SqlView::Integer(1)) && column_value(
            meta,
            (ScalarView::Bool(false), member.1),
        ) == Ok::<SqlView, Seq<char>>(SqlView::Integer(0)),
        meta.subject is None && base_kind(meta.kind) is Json && !(member.0 is Null) ==> column_value(
            meta,
            member,
        ) == Ok::<SqlView, Seq<char>>(SqlView::Text(member.1)),
{
}

// ---------------------------------------------------------------------------
// By key
// ---------------------------------------------------------------------------

/// Deleting and reading a row both go by its key: the same value is bound, and the statement
/// holds the key column to it. What is read are the columns in their declared order.
pub proof fn law_a_row_goes_by_its_key(entity: EntityDef, key: Seq<char>)
    ensures
        ({
            let (delete, gone) = delete_statement(entity, key);
            let (select, got) = get_statement(entity, key);
            let held = " WHERE "@ + quoted(entity.key@) + " = ?"@;
            &&& gone == got
            &&& gone.len() == 1
            &&& gone[0] == bound_or_text(key_kind_view(entity), key)
            &&& stands_at(delete, "DELETE FROM "@ + quoted(entity.name@), 0)
            &&& stands_at(delete, held, delete.len() - held.len())
            &&& stands_at(select, "SELECT "@ + columns_sql(entity) + " FROM "@ + quoted(entity.name@), 0)
            &&& stands_at(select, held, select.len() - held.len())
        }),
{
    let (delete, gone) = delete_statement(entity, key);
    let (select, got) = get_statement(entity, key);
    let held = " WHERE "@ + quoted(entity.key@) + " = ?"@;
    let from = "DELETE FROM "@ + quoted(entity.name@);
    let of = "SELECT "@ + columns_sql(entity) + " FROM "@ + quoted(entity.name@);
    assert(delete =~= from + held);
    assert(select =~= of + held);
    assert(delete.subrange(0, from.len() as int) =~= from);
    assert(select.subrange(0, of.len() as int) =~= of);
    assert(delete.subrange(delete.len() - held.len(), delete.len() as int) =~= held);
    assert(select.subrange(select.len() - held.len(), select.len() as int) =~= held);
}

/// A position is stored as itself where a signed column holds it, and otherwise as the number
/// that is as far below as the column's range is wide. The statement binds nothing else.
pub proof fn law_a_checkpoint_holds_its_position(position: u64)
    ensures
        i64::MIN <= stored_position(position) <= i64::MAX,
        stored_position(position) == position || stored_position(position) + 0x1_0000_0000_0000_0000
            == position,
        checkpoint_statement(position).1 == seq![SqlView::Integer(stored_position(position) as i64)],
{
}

/// A column that cannot hold its value is reported with its name and with why.
pub proof fn law_a_refused_column_is_named(name: Seq<char>, reason: Seq<char>)
    ensures
        has_part(apply_message(ApplyErrorView::Column(name, reason)), name),
        has_part(apply_message(ApplyErrorView::Column(name, reason)), reason),
        apply_message(ApplyErrorView::Syntax(reason)) == reason,
{
    lemma_part_of_itself(name);
    lemma_part_of_itself(reason);
    let a = "column `"@ + name;
    lemma_part_behind("column `"@, name, name);
    lemma_part_in_front(a, "`: "@, name);
    lemma_part_in_front(a + "`: "@, reason, name);
    lemma_part_behind(a + "`: "@, reason, reason);
}

/// A limit is handed on as it is, as far as a signed number holds it.
pub proof fn law_a_limit_is_handed_on(limit: usize, other: usize)
    ensures
        limit <= 0x7fff_ffff_ffff_ffff ==> limit_view(limit) == limit,
        limit <= other ==> limit_view(limit) <= limit_view(other),
        0 <= limit_view(limit) <= limit,
{
}

/// A document reads as its scalar where it is one, and stays its text where it is a container or
/// no document at all.
pub proof fn law_a_document_reads_as_its_scalar(
    text: Seq<char>,
    whole: MemberView,
    members: Map<Seq<char>, MemberView>,
)
    requires
        json_document(text) == Ok::<(MemberView, Map<Seq<char>, MemberView>), Seq<char>>((whole, members)),
    ensures
        whole.0 matches ScalarView::Text(inner) ==> document_value(text) == JsonView::Text(inner) && document_scalar(
            text,
            true,
        ) == Some(inner) && document_scalar(text, false) == Some(inner),
        whole.0 matches ScalarView::Bool(flag) ==> document_value(text) == JsonView::Bool(flag) && document_scalar(
            text,
            false,
        ) is None && document_scalar(text, true) == Some(if flag { "true"@ } else { "false"@ }),
        whole.0 is Null ==> document_value(text) == JsonView::Null && document_scalar(text, true) is None,
        whole.0 is Number ==> document_value(text) == JsonView::Decimal(whole.1) && document_scalar(text, false) == Some(
            whole.1,
        ),
        whole.0 is List || whole.0 is Object ==> document_value(text) == JsonView::Embedded(text) && document_scalar(
            text,
            true,
        ) is None,
{
}

} // verus!
