//! Reads: which rows a scan asks for, and what a page of them is.

use vstd::prelude::*;

use crate::laws::texts::{lemma_part_at_the_end, lemma_part_behind, lemma_part_in_front, lemma_part_of_itself};
use crate::json::JsonView;
use crate::read_api::{
    bound_operator, cursor_key, ends_error, equal_columns, equals_error, filter_error, filter_message, filterable,
    held_limit, indexed_columns, law_base64url_reads_back, lemma_indexed_column, page_of, range_bounds, retyped,
    row_key, rows_to_fetch, serves, subject_of, symbol, tallied, value_error, Bound, EndView, Filter,
    FilterErrorView, MAX_LIMIT, Opened, Range,
};
use crate::read_model::{
    bound_column, bound_or_text, coerced, column_value, flat, key_kind_view, scan_clauses, scan_statement,
    ScalarView, SqlView,
};
use crate::schema::{base_kind, comparable, field_named, keyable, EntityDef, FieldKind, FieldMeta};
use crate::sql::quoted;
use crate::text::{has_part, parsed_i64, signed_decimal, stands_at, views};

verus! {

// ---------------------------------------------------------------------------
// Ranges
// ---------------------------------------------------------------------------

/// Whether SQLite finds that a value compares to another by an operator, where `order` is
/// negative if the value is the smaller one, positive if it is the larger, and zero if they
/// are equal.
pub open spec fn compares(operator: Seq<char>, order: int) -> bool {
    ||| operator == "<"@ && order < 0
    ||| operator == "<="@ && order <= 0
    ||| operator == ">"@ && order > 0
    ||| operator == ">="@ && order >= 0
    ||| operator == "="@ && order == 0
}

proof fn lemma_operators()
    ensures
        "<"@ != "<="@,
        "<"@ != ">"@,
        "<"@ != ">="@,
        "<"@ != "="@,
        "<="@ != ">"@,
        "<="@ != ">="@,
        "<="@ != "="@,
        ">"@ != ">="@,
        ">"@ != "="@,
        ">="@ != "="@,
{
    reveal_strlit("<");
    reveal_strlit("<=");
    reveal_strlit(">");
    reveal_strlit(">=");
    reveal_strlit("=");
    assert("<"@[0] == '<' && "<"@.len() == 1);
    assert("<="@[0] == '<' && "<="@.len() == 2);
    assert(">"@[0] == '>' && ">"@.len() == 1);
    assert(">="@[0] == '>' && ">="@.len() == 2);
    assert("="@[0] == '=' && "="@.len() == 1);
}

/// A value passes an end of a range exactly where it lies on the inner side of it: above a
/// lower end, below an upper one, and on the end itself only where the end is included.
pub proof fn law_an_end_keeps_its_inner_side(bound: Bound, lower: bool, order: int)
    ensures
        compares(bound_operator(bound, lower), order) <==> (if lower {
            order > 0
        } else {
            order < 0
        }) || (order == 0 && bound == Bound::Inclusive),
{
    lemma_operators();
}

/// Including an end lets exactly the values on it through besides.
pub proof fn law_an_included_end_adds_its_own_value(lower: bool, order: int)
    ensures
        compares(bound_operator(Bound::Inclusive, lower), order) <==> compares(
            bound_operator(Bound::Exclusive, lower),
            order,
        ) || order == 0,
        !(compares(bound_operator(Bound::Exclusive, true), order) && compares(
            bound_operator(Bound::Exclusive, false),
            order,
        )),
{
    lemma_operators();
}

/// Whether a value passes every end of a range. `order` compares the value with the text
/// of an end.
pub open spec fn passes(range: Range, order: spec_fn(Seq<char>) -> int) -> bool {
    forall|i: int|
        0 <= i < range_bounds(range).len() ==> compares(
            bound_operator((#[trigger] range_bounds(range)[i]).1, range_bounds(range)[i].0),
            order(range_bounds(range)[i].2),
        )
}

/// A range holds the values between its ends and no others.
pub proof fn law_a_range_holds_what_lies_between(range: Range, order: spec_fn(Seq<char>) -> int)
    ensures
        passes(range, order) <==> (range.lower matches Some(end) ==> order(end.1@) > 0 || (order(end.1@)
            == 0 && end.0 == Bound::Inclusive)) && (range.upper matches Some(end) ==> order(end.1@) < 0
            || (order(end.1@) == 0 && end.0 == Bound::Inclusive)),
{
    lemma_operators();
    let ends = range_bounds(range);
    if let Some(end) = range.lower {
        assert(ends[0] == (true, end.0, end.1@));
        law_an_end_keeps_its_inner_side(end.0, true, order(end.1@));
    }
    if let Some(end) = range.upper {
        let at = if range.lower is Some { 1int } else { 0int };
        assert(ends[at] == (false, end.0, end.1@));
        law_an_end_keeps_its_inner_side(end.0, false, order(end.1@));
    }
    assert(ends.len() == (if range.lower is Some { 1int } else { 0int }) + (if range.upper is Some {
        1int
    } else {
        0int
    }));
}

// ---------------------------------------------------------------------------
// Scans
// ---------------------------------------------------------------------------

/// Whether a scan compares a column with a value by an operator: a condition of it says so,
/// and the value is bound in that condition's place.
pub open spec fn asks(
    entity: EntityDef,
    filter: Filter,
    after: Option<Seq<char>>,
    limit: usize,
    column: Seq<char>,
    operator: Seq<char>,
    value: SqlView,
) -> bool {
    exists|k: int|
        0 <= k < scan_clauses(entity, filter, after).len() && #[trigger] scan_clauses(
            entity,
            filter,
            after,
        )[k] == quoted(column) + " "@ + operator + " ?"@ && scan_statement(entity, filter, after, limit).1[k]
            == value
}

/// How many ends a filter's range has.
pub open spec fn ends_of(filter: Filter) -> int {
    match filter.range {
        Some(range) => (if range.1.lower is Some {
            1int
        } else {
            0int
        }) + (if range.1.upper is Some {
            1int
        } else {
            0int
        }),
        None => 0,
    }
}

/// A scan asks for what its filter says and for nothing else: each equality, each end of
/// the range on its own side, and the rows behind the key it resumes after. Every
/// condition has its own value, in its own place.
pub proof fn law_a_scan_asks_for_what_its_filter_says(
    entity: EntityDef,
    filter: Filter,
    after: Option<Seq<char>>,
    limit: usize,
)
    ensures
        scan_clauses(entity, filter, after).len() == filter.equals.len() + ends_of(filter) + (
        if after is Some {
            1int
        } else {
            0int
        }),
        forall|i: int|
            0 <= i < filter.equals.len() ==> asks(
                entity,
                filter,
                after,
                limit,
                (#[trigger] filter.equals@[i]).0@,
                "="@,
                bound_column(entity, filter.equals@[i].0@, filter.equals@[i].1@),
            ),
        filter.range matches Some(range) ==> {
            &&& range.1.lower matches Some(end) ==> asks(
                entity,
                filter,
                after,
                limit,
                range.0@,
                if end.0 == Bound::Inclusive {
                    ">="@
                } else {
                    ">"@
                },
                bound_column(entity, range.0@, end.1@),
            )
            &&& range.1.upper matches Some(end) ==> asks(
                entity,
                filter,
                after,
                limit,
                range.0@,
                if end.0 == Bound::Inclusive {
                    "<="@
                } else {
                    "<"@
                },
                bound_column(entity, range.0@, end.1@),
            )
        },
        after matches Some(key) ==> asks(
            entity,
            filter,
            after,
            limit,
            entity.key@,
            ">"@,
            bound_or_text(key_kind_view(entity), key),
        ),
{
    let clauses = scan_clauses(entity, filter, after);
    let binds = scan_statement(entity, filter, after, limit).1;
    let equals = filter.equals.len() as int;
    reveal_strlit(" = ?");
    reveal_strlit(" ");
    reveal_strlit("=");
    reveal_strlit(" > ?");
    reveal_strlit(">");
    reveal_strlit(" ?");
    assert forall|i: int| 0 <= i < filter.equals.len() implies asks(
        entity,
        filter,
        after,
        limit,
        (#[trigger] filter.equals@[i]).0@,
        "="@,
        bound_column(entity, filter.equals@[i].0@, filter.equals@[i].1@),
    ) by {
        let column = filter.equals@[i].0@;
        assert(" = ?"@ =~= " "@ + "="@ + " ?"@);
        assert(quoted(column) + " = ?"@ =~= quoted(column) + " "@ + "="@ + " ?"@);
        assert(clauses[i] == quoted(column) + " "@ + "="@ + " ?"@);
        assert(binds[i] == bound_column(entity, column, filter.equals@[i].1@));
    }
    if let Some(range) = filter.range {
        let ends = range_bounds(range.1);
        if let Some(end) = range.1.lower {
            assert(ends[0] == (true, end.0, end.1@));
            assert(clauses[equals] == quoted(range.0@) + " "@ + bound_operator(end.0, true) + " ?"@);
            assert(binds[equals] == bound_column(entity, range.0@, end.1@));
        }
        if let Some(end) = range.1.upper {
            let at = if range.1.lower is Some { 1int } else { 0int };
            assert(ends[at] == (false, end.0, end.1@));
            assert(clauses[equals + at] == quoted(range.0@) + " "@ + bound_operator(end.0, false) + " ?"@);
            assert(binds[equals + at] == bound_column(entity, range.0@, end.1@));
        }
    }
    if let Some(key) = after {
        let last = clauses.len() - 1;
        assert(" > ?"@ =~= " "@ + ">"@ + " ?"@);
        assert(quoted(entity.key@) + " > ?"@ =~= quoted(entity.key@) + " "@ + ">"@ + " ?"@);
        assert(clauses[last] == quoted(entity.key@) + " "@ + ">"@ + " ?"@);
        assert(binds[last] == bound_or_text(key_kind_view(entity), key));
    }
}

/// A scan reads the entity's table, holds every row to all of its conditions, hands the
/// rows out in the order of the key, and no more of them than its limit.
pub proof fn law_a_scan_reads_in_key_order(
    entity: EntityDef,
    filter: Filter,
    after: Option<Seq<char>>,
    limit: usize,
)
    ensures
        ({
            let (sql, binds) = scan_statement(entity, filter, after, limit);
            let clauses = scan_clauses(entity, filter, after);
            &&& binds.len() == clauses.len() + 1
            &&& binds.last() == SqlView::Integer(
                if limit <= i64::MAX {
                    limit as i64
                } else {
                    i64::MAX
                },
            )
            &&& has_part(sql, " FROM "@ + quoted(entity.name@))
            &&& stands_at(
                sql,
                " ORDER BY "@ + quoted(entity.key@) + " LIMIT ?"@,
                sql.len() - (" ORDER BY "@ + quoted(entity.key@) + " LIMIT ?"@).len(),
            )
            &&& clauses.len() > 0 ==> has_part(sql, " WHERE "@ + crate::text::joined(clauses, " AND "@))
        }),
{
    let (sql, binds) = scan_statement(entity, filter, after, limit);
    let clauses = scan_clauses(entity, filter, after);
    let select = "SELECT "@ + crate::read_model::columns_sql(entity);
    let from = " FROM "@ + quoted(entity.name@);
    let pin = crate::read_model::pin_sql(entity, filter);
    let condition = if clauses.len() == 0 {
        ""@
    } else {
        " WHERE "@ + crate::text::joined(clauses, " AND "@)
    };
    let end = " ORDER BY "@ + quoted(entity.key@) + " LIMIT ?"@;
    assert(sql =~= select + from + pin + condition + end);
    lemma_part_at_the_end(select, from);
    lemma_part_in_front(select + from, pin, from);
    lemma_part_in_front(select + from + pin, condition, from);
    lemma_part_in_front(select + from + pin + condition, end, from);
    assert(sql.subrange(sql.len() - end.len(), sql.len() as int) =~= end);
    if clauses.len() > 0 {
        lemma_part_at_the_end(select + from + pin, condition);
        lemma_part_in_front(select + from + pin + condition, end, condition);
    }
}

/// A filter on a value finds the row that the value was written to: what is written to a
/// column and what a filter on the same value compares it with are bound alike.
pub proof fn law_a_filter_finds_what_was_written(meta: FieldMeta, n: i64, flag: bool, text: Seq<char>)
    requires
        flat(meta.kind),
        meta.subject is None,
    ensures
        base_kind(meta.kind) is I64 || base_kind(meta.kind) is U64 ==> coerced(
            meta.kind,
            signed_decimal(n as int),
        ) == Ok::<SqlView, Seq<char>>(SqlView::Integer(n)) && column_value(
            meta,
            (ScalarView::Number(Some(n)), signed_decimal(n as int)),
        ) == Ok::<SqlView, Seq<char>>(SqlView::Integer(n)),
        base_kind(meta.kind) is Bool ==> coerced(
            meta.kind,
            if flag {
                "true"@
            } else {
                "false"@
            },
        ) == column_value(
            meta,
            (
                ScalarView::Bool(flag),
                if flag {
                    "true"@
                } else {
                    "false"@
                },
            ),
        ) && coerced(meta.kind, "true"@) != coerced(meta.kind, "false"@) && coerced(
            meta.kind,
            "1"@,
        ) == coerced(meta.kind, "true"@) && coerced(meta.kind, "0"@) == coerced(meta.kind, "false"@),
        !(base_kind(meta.kind) is I64 || base_kind(meta.kind) is U64 || base_kind(meta.kind) is Bool
            || base_kind(meta.kind) is Json) ==> coerced(meta.kind, text) == Ok::<SqlView, Seq<char>>(
            SqlView::Text(text),
        ) && column_value(meta, (ScalarView::Text(text), text)) == Ok::<SqlView, Seq<char>>(
            SqlView::Text(text),
        ),
{
    crate::text::lemma_signed_decimal_value(n as int);
    reveal_strlit("true");
    reveal_strlit("false");
    reveal_strlit("1");
    reveal_strlit("0");
    assert("true"@.len() == 4 && "false"@.len() == 5 && "1"@.len() == 1 && "0"@.len() == 1);
    assert("1"@[0] == '1' && "0"@[0] == '0');
}

proof fn lemma_equals_error(entity: EntityDef, filter: Filter, from: nat)
    ensures
        equals_error(entity, filter, from) is None <==> forall|i: int|
            from <= i < filter.equals.len() ==> value_error(
                entity,
                (#[trigger] filter.equals@[i]).0@,
                filter.equals@[i].1@,
            ) is None,
    decreases filter.equals.len() - from,
{
    if from < filter.equals.len() {
        lemma_equals_error(entity, filter, from + 1);
        assert(filter.equals@[from as int] == filter.equals@[from as int]);
    }
}

proof fn lemma_ends_error(entity: EntityDef, field: Seq<char>, ends: Seq<EndView>, from: nat)
    ensures
        ends_error(entity, field, ends, from) is None <==> forall|i: int|
            from <= i < ends.len() ==> value_error(entity, field, (#[trigger] ends[i]).2) is None,
    decreases ends.len() - from,
{
    if from < ends.len() {
        lemma_ends_error(entity, field, ends, from + 1);
        assert(ends[from as int] == ends[from as int]);
    }
}

/// Whether a text can be a value of a declared column. One that is not declared takes any.
pub open spec fn fits_column(entity: EntityDef, column: Seq<char>, text: Seq<char>) -> bool {
    field_named(entity.fields@, column) matches Some(meta) ==> match base_kind(meta.kind) {
        FieldKind::I64 | FieldKind::U64 => parsed_i64(text) is Some,
        FieldKind::Bool => text == "true"@ || text == "false"@ || text == "1"@ || text == "0"@,
        _ => true,
    }
}

/// A filter is taken exactly where each of its values can be one of its column, and its
/// range is over a column that has an order: text, an integer or a time.
pub proof fn law_a_filter_is_taken_where_its_values_fit(entity: EntityDef, filter: Filter)
    ensures
        filter_error(entity, filter) is None <==> (forall|i: int|
            0 <= i < filter.equals.len() ==> fits_column(
                entity,
                (#[trigger] filter.equals@[i]).0@,
                filter.equals@[i].1@,
            )) && (filter.range matches Some(range) ==> (field_named(entity.fields@, range.0@) matches Some(
            meta,
        ) ==> comparable(meta.kind) && (range.1.lower matches Some(end) ==> fits_column(
            entity,
            range.0@,
            end.1@,
        )) && (range.1.upper matches Some(end) ==> fits_column(entity, range.0@, end.1@)))),
{
    lemma_equals_error(entity, filter, 0);
    assert forall|column: Seq<char>, text: Seq<char>| #[trigger] value_error(entity, column, text) is None
        <==> fits_column(entity, column, text) by {}
    assert(equals_error(entity, filter, 0) is None <==> forall|i: int|
        0 <= i < filter.equals.len() ==> fits_column(
            entity,
            (#[trigger] filter.equals@[i]).0@,
            filter.equals@[i].1@,
        )) by {
        if equals_error(entity, filter, 0) is None {
            assert forall|i: int| 0 <= i < filter.equals.len() implies fits_column(
                entity,
                (#[trigger] filter.equals@[i]).0@,
                filter.equals@[i].1@,
            ) by {
                assert(value_error(entity, filter.equals@[i].0@, filter.equals@[i].1@) is None);
            }
        }
        if forall|i: int|
            0 <= i < filter.equals.len() ==> fits_column(
                entity,
                (#[trigger] filter.equals@[i]).0@,
                filter.equals@[i].1@,
            ) {
            assert forall|i: int| 0 <= i < filter.equals.len() implies value_error(
                entity,
                (#[trigger] filter.equals@[i]).0@,
                filter.equals@[i].1@,
            ) is None by {
                assert(fits_column(entity, filter.equals@[i].0@, filter.equals@[i].1@));
            }
        }
    }
    if let Some(range) = filter.range {
        let ends = range_bounds(range.1);
        lemma_ends_error(entity, range.0@, ends, 0);
        if let Some(end) = range.1.lower {
            assert(ends[0] == (true, end.0, end.1@));
        }
        if let Some(end) = range.1.upper {
            let at = if range.1.lower is Some { 1int } else { 0int };
            assert(ends[at] == (false, end.0, end.1@));
        }
    }
}

/// What a filter is refused for is wrong with it: the value that is named does not fit its
/// column, or the column that is named has no order for the range over it.
pub proof fn law_a_refused_filter_is_told_why(entity: EntityDef, filter: Filter)
    ensures
        match filter_error(entity, filter) {
            Some(FilterErrorView::Unordered(field, _)) => {
                &&& filter.range matches Some(range) && range.0@ == field
                &&& field_named(entity.fields@, field) matches Some(meta) && !comparable(meta.kind)
            },
            Some(FilterErrorView::Value(field, reason)) => exists|text: Seq<char>|
                !#[trigger] fits_column(entity, field, text) && ((filter.range matches Some(range) && range.0@
                    == field) || exists|i: int|
                    0 <= i < filter.equals.len() && (#[trigger] filter.equals@[i]).0@ == field
                        && filter.equals@[i].1@ == text),
            None => true,
        },
{
    if equals_error(entity, filter, 0) is Some {
        lemma_first_equals_error(entity, filter, 0);
    } else if let Some(range) = filter.range {
        if let Some(meta) = field_named(entity.fields@, range.0@) {
            if comparable(meta.kind) && ends_error(entity, range.0@, range_bounds(range.1), 0) is Some {
                lemma_first_ends_error(entity, range.0@, range_bounds(range.1), 0);
            }
        }
    }
}

proof fn lemma_first_equals_error(entity: EntityDef, filter: Filter, from: nat)
    requires
        equals_error(entity, filter, from) is Some,
    ensures
        equals_error(entity, filter, from) matches Some(FilterErrorView::Value(field, _)) && exists|
            i: int,
        |
            from <= i < filter.equals.len() && (#[trigger] filter.equals@[i]).0@ == field && !fits_column(
                entity,
                field,
                filter.equals@[i].1@,
            ),
    decreases filter.equals.len() - from,
{
    let (field, value) = filter.equals@[from as int];
    if value_error(entity, field@, value@) is None {
        lemma_first_equals_error(entity, filter, from + 1);
    } else {
        assert(filter.equals@[from as int].0@ == field@ && !fits_column(entity, field@, value@));
    }
}

proof fn lemma_first_ends_error(entity: EntityDef, field: Seq<char>, ends: Seq<EndView>, from: nat)
    requires
        ends_error(entity, field, ends, from) is Some,
    ensures
        ends_error(entity, field, ends, from) matches Some(FilterErrorView::Value(named, _)) && named == field
            && exists|text: Seq<char>| !#[trigger] fits_column(entity, field, text),
    decreases ends.len() - from,
{
    if value_error(entity, field, ends[from as int].2) is None {
        lemma_first_ends_error(entity, field, ends, from + 1);
    } else {
        assert(!fits_column(entity, field, ends[from as int].2));
    }
}

/// A range is over a column that always holds a value, and one that SQLite puts in the
/// order of its values: text, an integer, an identifier or a time. A truth value, an
/// amount, a document and an enumeration have no such order, though an enumeration can
/// still be a key.
pub proof fn law_only_an_ordered_column_takes_a_range(kind: FieldKind)
    ensures
        kind is Optional || kind is Bool || kind is Money || kind is Json || kind is OneOf ==> !comparable(
            kind,
        ),
        kind is Text || kind is I64 || kind is U64 || kind is Uuid || kind is Timestamp ==> comparable(
            kind,
        ),
        comparable(kind) ==> keyable(kind),
        keyable(kind) && !comparable(kind) <==> kind is OneOf,
{
}

/// What a sealed column is decrypted to reads as the value it was before it was sealed: an
/// integer by its digits, a truth value by its word, and a text as it is.
pub proof fn law_a_decrypted_value_reads_as_what_it_was(kind: FieldKind, n: i64, flag: bool, text: Seq<char>)
    ensures
        base_kind(kind) is I64 ==> retyped(kind, signed_decimal(n as int)) == JsonView::Int(
            n as int,
        ),
        base_kind(kind) is Bool ==> retyped(
            kind,
            if flag {
                "true"@
            } else {
                "false"@
            },
        ) == JsonView::Bool(flag),
        base_kind(kind) is Text || base_kind(kind) is Uuid || base_kind(kind) is Money || base_kind(
            kind,
        ) is Timestamp || base_kind(kind) is OneOf ==> retyped(kind, text) == JsonView::Text(
            text,
        ),
{
    crate::text::lemma_signed_decimal_value(n as int);
    reveal_strlit("true");
    reveal_strlit("false");
    assert("true"@.len() == 4 && "false"@.len() == 5);
}

// ---------------------------------------------------------------------------
// Indexes
// ---------------------------------------------------------------------------

/// A filter may name a column exactly where it is the key or stands in a declared index.
pub proof fn law_the_key_and_indexed_columns_are_filterable(entity: EntityDef, name: Seq<char>)
    ensures
        filterable(entity).contains(name) <==> name == entity.key@ || exists|i: int, j: int|
            0 <= i < entity.indexes.len() && 0 <= j < entity.indexes@[i].columns.len()
                && #[trigger] entity.indexes@[i].columns@[j]@ == name,
{
    let n = entity.indexes.len() as nat;
    let all = filterable(entity);
    let indexed = indexed_columns(entity, n);
    assert(all[0] == entity.key@);
    if all.contains(name) && name != entity.key@ {
        let k = choose|k: int| 0 <= k < all.len() && all[k] == name;
        let at = lemma_indexed_column(entity, n, k - 1);
        assert(entity.indexes@[at.0].columns@[at.1]@ == name);
    }
    if exists|i: int, j: int|
        0 <= i < entity.indexes.len() && 0 <= j < entity.indexes@[i].columns.len()
            && #[trigger] entity.indexes@[i].columns@[j]@ == name {
        let (i, j) = choose|i: int, j: int|
            0 <= i < entity.indexes.len() && 0 <= j < entity.indexes@[i].columns.len()
                && #[trigger] entity.indexes@[i].columns@[j]@ == name;
        lemma_column_is_indexed(entity, n, i, j);
        let k = choose|k: int| 0 <= k < indexed.len() && indexed[k] == name;
        assert(all[k + 1] == name);
    }
}

proof fn lemma_column_is_indexed(entity: EntityDef, upto: nat, index: int, column: int)
    requires
        upto <= entity.indexes.len(),
        0 <= index < upto,
        0 <= column < entity.indexes@[index].columns.len(),
    ensures
        indexed_columns(entity, upto).contains(entity.indexes@[index].columns@[column]@),
    decreases upto,
{
    let rest = indexed_columns(entity, (upto - 1) as nat);
    let own = views(entity.indexes@[upto - 1].columns@);
    let all = rest + own;
    if index == upto - 1 {
        assert(all[rest.len() + column] == own[column]);
    } else {
        lemma_column_is_indexed(entity, (upto - 1) as nat, index, column);
        let k = choose|k: int| 0 <= k < rest.len() && rest[k] == entity.indexes@[index].columns@[column]@;
        assert(all[k] == rest[k]);
    }
}

/// An index that serves a filter is held by it from its first column on without a gap: each of
/// its first columns is one that the filter fixes, and the range is over the column right behind
/// them. So the rows that match stand side by side in the index.
pub proof fn law_a_serving_index_is_held_without_a_gap(columns: Seq<Seq<char>>, filter: Filter, at: int)
    requires
        serves(columns, filter),
        equal_columns(filter).no_duplicates(),
        0 <= at < filter.equals.len(),
    ensures
        equal_columns(filter).contains(columns[at]),
        filter.range matches Some(range) ==> columns.len() > filter.equals.len()
            && columns[filter.equals.len() as int] == range.0@,
{
    let fixed = equal_columns(filter);
    let first = columns.take(filter.equals.len() as int);
    fixed.unique_seq_to_set();
    vstd::seq_lib::seq_to_set_is_finite(fixed);
    vstd::seq_lib::seq_to_set_is_finite(first);
    first.lemma_cardinality_of_set();
    assert(fixed.to_set().subset_of(first.to_set())) by {
        assert forall|name: Seq<char>| fixed.to_set().contains(name) implies first.to_set().contains(
            name,
        ) by {
            let i = choose|i: int| 0 <= i < fixed.len() && fixed[i] == name;
            assert(first.contains(fixed[i]));
        }
    }
    vstd::set_lib::lemma_len_subset(fixed.to_set(), first.to_set());
    vstd::set_lib::lemma_subset_equality(fixed.to_set(), first.to_set());
    assert(first[at] == columns[at]);
    assert(first.to_set().contains(columns[at]));
}

/// A filter that fixes the first columns of an index, and ranges over the next at most, is served
/// by it.
pub proof fn law_a_filter_on_a_prefix_is_served(columns: Seq<Seq<char>>, filter: Filter)
    requires
        filter.equals.len() <= columns.len(),
        forall|i: int| 0 <= i < filter.equals.len() ==> (#[trigger] filter.equals@[i]).0@ == columns[i],
        filter.range matches Some(range) ==> filter.equals.len() < columns.len()
            && columns[filter.equals.len() as int] == range.0@,
    ensures
        serves(columns, filter),
{
    let n = filter.equals.len() as int;
    assert forall|i: int| 0 <= i < n implies columns.take(n).contains(#[trigger] equal_columns(filter)[i]) by {
        assert(filter.equals@[i].0@ == columns[i]);
        assert(columns.take(n)[i] == columns[i]);
    }
}

// ---------------------------------------------------------------------------
// Pages
// ---------------------------------------------------------------------------

/// A page holds the first rows, as many as asked for, and has a cursor exactly where there are
/// more: the one that stands for the last row that the page holds, so that the next page begins
/// right behind it. What is fetched is just enough to know.
pub proof fn law_a_page_resumes_behind_its_last_row(entity: EntityDef, rows: Seq<JsonView>, limit: usize)
    requires
        limit > 0,
        forall|i: int| 0 <= i < rows.len() ==> row_key(entity, #[trigger] rows[i]) is Some,
    ensures
        ({
            let fetched = if rows.len() < rows_to_fetch(limit) {
                rows
            } else {
                rows.take(rows_to_fetch(limit))
            };
            let (items, cursor) = page_of(entity, fetched, limit);
            &&& items.len() <= limit
            &&& items.len() == limit || items.len() == rows.len()
            &&& forall|i: int| 0 <= i < items.len() ==> #[trigger] items[i] == rows[i]
            &&& cursor is Some <==> items.len() < rows.len()
            &&& cursor matches Some(text) ==> cursor_key(text) == Ok::<Seq<char>, Seq<char>>(
                row_key(entity, items.last())->0,
            )
        }),
{
    let fetched = if rows.len() < rows_to_fetch(limit) {
        rows
    } else {
        rows.take(rows_to_fetch(limit))
    };
    let (items, cursor) = page_of(entity, fetched, limit);
    if rows.len() > limit {
        assert(fetched[limit - 1] == rows[limit - 1]);
        assert(items.last() == rows[limit - 1]);
        let key = row_key(entity, rows[limit - 1])->0;
        vstd::utf8::encode_utf8_valid_utf8(key);
        vstd::utf8::encode_utf8_decode_utf8(key);
        law_base64url_reads_back(vstd::utf8::encode_utf8(key));
    }
}

/// The key of a row is what its key column says: a text as it is, and an integer by its digits.
pub proof fn law_a_rows_key_is_in_its_key_column(entity: EntityDef, row: JsonView, text: Seq<char>, n: int)
    requires
        row is Object,
    ensures
        row_key(entity, row.with(entity.key@, JsonView::Text(text))) == Some(text),
        row_key(entity, row.with(entity.key@, JsonView::Int(n))) == Some(signed_decimal(n)),
        row_key(entity, row.without(entity.key@)) is None,
{
}

/// A page is as large as asked for, but never empty and never larger than a scan returns. Asking
/// for more never brings less.
pub proof fn law_a_page_is_as_large_as_asked_for(asked: usize, more: usize)
    requires
        asked <= more,
    ensures
        1 <= held_limit(Some(asked)) <= MAX_LIMIT,
        1 <= asked <= MAX_LIMIT ==> held_limit(Some(asked)) == asked,
        held_limit(Some(asked)) <= held_limit(Some(more)),
        1 <= held_limit(None) <= MAX_LIMIT,
{
}

/// One row more than a page holds is fetched: it tells whether another page follows, and with any
/// fewer nothing would.
pub proof fn law_one_row_more_tells_of_another_page(limit: usize, fetched: int)
    ensures
        fetched > limit <==> fetched >= rows_to_fetch(limit),
{
}

/// A column is opened with the key of the subject that its own row names, under the column that
/// the declaration says.
pub proof fn law_a_column_is_opened_under_its_rows_subject(
    entity: EntityDef,
    row: JsonView,
    at: int,
    subject: Seq<char>,
    id: Seq<char>,
    n: int,
)
    requires
        row is Object,
        0 <= at < entity.fields.len(),
        entity.fields@[at].1.subject matches Some(own) && own@ == subject,
    ensures
        subject_of(entity, row.with(subject, JsonView::Text(id)), at) == Some(id),
        subject_of(entity, row.with(subject, JsonView::Int(n)), at) == Some(signed_decimal(n)),
        subject_of(entity, row.without(subject), at) is None,
{
}

/// A cell is counted as opened where it opened, as stale where it did not though its key is
/// still there, and not at all where its subject was erased.
pub proof fn law_a_cell_is_counted_once(opened: Opened)
    ensures
        tallied(opened).0 == 1 <==> opened is Plain,
        tallied(opened).1 == 1 <==> opened == (Opened::Unreadable { key_present: true }),
        0 <= tallied(opened).0 && 0 <= tallied(opened).1 && tallied(opened).0 + tallied(opened).1 <= 1,
{
}

/// A refused filter is reported with its field, and with why or with the kind of its column.
pub proof fn law_a_refused_filter_names_its_field(field: Seq<char>, reason: Seq<char>)
    ensures
        has_part(filter_message(FilterErrorView::Value(field, reason)), field),
        has_part(filter_message(FilterErrorView::Value(field, reason)), reason),
        has_part(filter_message(FilterErrorView::Unordered(field, reason)), field),
        has_part(filter_message(FilterErrorView::Unordered(field, reason)), reason),
{
    lemma_part_of_itself(field);
    lemma_part_of_itself(reason);
    let a = "filter `"@ + field;
    lemma_part_behind("filter `"@, field, field);
    lemma_part_in_front(a, "`: "@, field);
    lemma_part_in_front(a + "`: "@, reason, field);
    lemma_part_behind(a + "`: "@, reason, reason);
    lemma_part_in_front(a, "` is "@, field);
    lemma_part_in_front(a + "` is "@, reason, field);
    lemma_part_behind(a + "` is "@, reason, reason);
    let end = ", which has no order a range could use; filter it for equality instead"@;
    lemma_part_in_front(a + "` is "@ + reason, end, field);
    lemma_part_in_front(a + "` is "@ + reason, end, reason);
}

/// A cursor is written in letters, digits, dashes and underscores, in the order of the url-safe
/// alphabet.
pub proof fn law_a_cursor_is_written_in_the_url_safe_alphabet(n: int)
    requires
        0 <= n < 64,
    ensures
        n < 26 ==> symbol(n) as int == 'A' as int + n,
        26 <= n < 52 ==> symbol(n) as int == 'a' as int + n - 26,
        52 <= n < 62 ==> symbol(n) as int == '0' as int + n - 52,
        symbol(62) == '-',
        symbol(63) == '_',
{
}

} // verus!
