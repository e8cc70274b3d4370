//! Printed results: where a value stands in its table, and what is said of each entity.

use vstd::prelude::*;

use crate::json::{items_view, JsonView};
use crate::laws::texts::{lemma_joined_part, lemma_part_behind, lemma_part_in_front, lemma_part_of_itself};
use crate::laws::writing::lemma_trimmed_end;
use crate::progress::grouped;
use crate::projection::{
    cell_text, entities_lines, entity_lines, marked, padded_line, pair_views, row_cells, sealed_lines, table,
    table_lines, wide, widths, Entity, Projection,
};
use crate::text::{has_part, is_space, joined, stands_at, views};

verus! {

/// Where the item of a list begins among the items in front of it.
pub open spec fn begins(list: Seq<Seq<char>>, separator: Seq<char>, at: nat) -> nat
    decreases at,
{
    if at == 0 {
        0
    } else {
        begins(list, separator, (at - 1) as nat) + list[at - 1].len() + separator.len()
    }
}

proof fn lemma_begins(list: Seq<Seq<char>>, other: Seq<Seq<char>>, separator: Seq<char>, at: nat)
    requires
        at <= list.len(),
        at <= other.len(),
        forall|i: int| 0 <= i < at ==> #[trigger] list[i] == other[i],
    ensures
        begins(list, separator, at) == begins(other, separator, at),
    decreases at,
{
    if at > 0 {
        lemma_begins(list, other, separator, (at - 1) as nat);
        assert(list[at - 1] == other[at - 1]);
    }
}

proof fn lemma_joined_begins(list: Seq<Seq<char>>, separator: Seq<char>)
    requires
        list.len() > 0,
    ensures
        joined(list, separator).len() + separator.len() == begins(list, separator, list.len()),
        forall|i: int|
            0 <= i < list.len() ==> stands_at(
                joined(list, separator),
                #[trigger] list[i],
                begins(list, separator, i as nat) as int,
            ),
    decreases list.len(),
{
    let whole = joined(list, separator);
    if list.len() == 1 {
        assert(begins(list, separator, 1) == begins(list, separator, 0) + list[0].len() + separator.len());
        assert(whole.subrange(0, list[0].len() as int) =~= list[0]);
    } else {
        let rest = list.drop_last();
        let before = joined(rest, separator);
        lemma_joined_begins(rest, separator);
        lemma_begins(rest, list, separator, rest.len());
        assert forall|i: int| 0 <= i < list.len() implies stands_at(
            whole,
            #[trigger] list[i],
            begins(list, separator, i as nat) as int,
        ) by {
            let at = begins(list, separator, i as nat) as int;
            if i < rest.len() {
                assert(rest[i] == list[i]);
                lemma_begins(rest, list, separator, i as nat);
                assert(stands_at(before, rest[i], at));
                assert(whole.subrange(at, at + list[i].len()) =~= before.subrange(at, at + list[i].len()));
            } else {
                assert(whole.subrange(at, at + list[i].len()) =~= list[i]);
            }
        }
    }
}

/// Where a column begins: behind those in front of it, two spaces behind each.
pub open spec fn column_start(widths: Seq<nat>, at: nat) -> nat
    decreases at,
{
    if at == 0 {
        0
    } else {
        column_start(widths, (at - 1) as nat) + widths[at - 1] + 2
    }
}

/// In every line each value stands at the place where its column begins, whatever stands in the
/// others, where no value is wider than its column. Blanks at the end of a line are left out.
pub proof fn law_a_value_stands_where_its_column_begins(values: Seq<Seq<char>>, widths: Seq<nat>, at: int)
    requires
        values.len() == widths.len(),
        forall|i: int| 0 <= i < values.len() ==> #[trigger] values[i].len() <= widths[i],
        0 <= at < values.len(),
        values[at].len() > 0,
        !is_space(values[at].last()),
    ensures
        stands_at(padded_line(values, widths), values[at], column_start(widths, at as nat) as int),
        padded_line(values, widths).len() > 0 ==> !is_space(padded_line(values, widths).last()),
{
    let list = Seq::new(values.len(), |i: int| wide(values[i], widths[i]));
    let whole = joined(list, "  "@);
    let start = column_start(widths, at as nat) as int;
    let end = start + values[at].len();
    reveal_strlit("  ");
    assert("  "@.len() == 2);
    lemma_joined_begins(list, "  "@);
    lemma_column_start(values, widths, list, at as nat);
    assert(stands_at(whole, list[at], start));
    assert(list[at].take(values[at].len() as int) =~= values[at]);
    assert(whole.subrange(start, end) =~= whole.subrange(start, start + list[at].len()).take(values[at].len() as int));
    let kept = lemma_trimmed_end(whole);
    assert(whole[end - 1] == whole.subrange(start, end)[values[at].len() - 1]);
    assert(end <= kept);
    assert(whole.take(kept).subrange(start, end) =~= whole.subrange(start, end));
}

proof fn lemma_column_start(values: Seq<Seq<char>>, widths: Seq<nat>, list: Seq<Seq<char>>, at: nat)
    requires
        values.len() == widths.len(),
        forall|i: int| 0 <= i < values.len() ==> #[trigger] values[i].len() <= widths[i],
        list == Seq::new(values.len(), |i: int| wide(values[i], widths[i])),
        at <= values.len(),
        "  "@.len() == 2,
    ensures
        begins(list, "  "@, at) == column_start(widths, at),
    decreases at,
{
    if at > 0 {
        lemma_column_start(values, widths, list, (at - 1) as nat);
        assert(values[at - 1].len() <= widths[at - 1]);
        assert(list[at - 1].len() == widths[at - 1]);
    }
}

/// The columns of a table are as wide as their names and all their cells need.
pub proof fn law_a_table_has_room_for_its_cells(rows: Seq<JsonView>, columns: Seq<Seq<char>>, row: int, at: int)
    requires
        0 <= row < rows.len(),
        0 <= at < columns.len(),
    ensures
        widths(rows, columns).len() == columns.len(),
        row_cells(rows[row], columns).len() == columns.len(),
        row_cells(rows[row], columns)[at] == cell_text(rows[row], columns[at]),
        row_cells(rows[row], columns)[at].len() <= widths(rows, columns)[at],
        columns[at].len() <= widths(rows, columns)[at],
{
    crate::laws::projections::law_a_column_is_as_wide_as_it_must_be(rows, columns[at]);
}

/// A table has a line with the names of its columns, and below it a line with the cells of each
/// row that is kept. Where there are more rows, it says how many.
pub proof fn law_a_table_has_a_line_for_each_row(entity: Entity, at: int)
    requires
        0 <= at < entity.rows@.len(),
    ensures
        ({
            let rows = items_view(entity.rows@);
            let columns = views(entity.columns@);
            &&& has_part(table(entity), padded_line(columns, widths(rows, columns)))
            &&& has_part(table(entity), padded_line(row_cells(rows[at], columns), widths(rows, columns)))
            &&& entity.row_count > entity.rows@.len() ==> has_part(
                table(entity),
                grouped((entity.row_count - entity.rows@.len()) as nat) + " more row(s)\n"@,
            )
        }),
{
    let rows = items_view(entity.rows@);
    crate::json::lemma_items(entity.rows@);
    let columns = views(entity.columns@);
    let wide_as = widths(rows, columns);
    let head = padded_line(columns, wide_as);
    let lines = table_lines(rows, columns, wide_as, rows.len());
    let more = if entity.is_truncated() {
        "    ... and "@ + grouped((entity.row_count - entity.rows.len()) as nat) + " more row(s)\n"@
    } else {
        Seq::empty()
    };
    let own = padded_line(row_cells(rows[at], columns), wide_as);
    let a = "    "@ + head;
    let b = a + "\n"@;
    lemma_part_of_itself(head);
    lemma_part_behind("    "@, head, head);
    lemma_part_in_front(a, "\n"@, head);
    lemma_part_in_front(b, lines, head);
    lemma_part_in_front(b + lines, more, head);
    lemma_row_line(rows, columns, wide_as, rows.len(), at);
    lemma_part_behind(b, lines, own);
    lemma_part_in_front(b + lines, more, own);
    if entity.row_count > entity.rows@.len() {
        let count = grouped((entity.row_count - entity.rows@.len()) as nat);
        let said = count + " more row(s)\n"@;
        assert("    ... and "@ + count + " more row(s)\n"@ =~= "    ... and "@ + said);
        lemma_part_of_itself(said);
        lemma_part_behind("    ... and "@, said, said);
        lemma_part_behind(b + lines, more, said);
    }
}

proof fn lemma_row_line(rows: Seq<JsonView>, columns: Seq<Seq<char>>, wide_as: Seq<nat>, upto: nat, at: int)
    requires
        0 <= at < upto <= rows.len(),
    ensures
        has_part(
            table_lines(rows, columns, wide_as, upto),
            padded_line(row_cells(rows[at], columns), wide_as),
        ),
    decreases upto,
{
    let before = table_lines(rows, columns, wide_as, (upto - 1) as nat);
    let last = padded_line(row_cells(rows[upto - 1], columns), wide_as);
    let own = padded_line(row_cells(rows[at], columns), wide_as);
    if at < upto - 1 {
        lemma_row_line(rows, columns, wide_as, (upto - 1) as nat, at);
        lemma_part_in_front(before, "    "@, own);
        lemma_part_in_front(before + "    "@, last, own);
        lemma_part_in_front(before + "    "@ + last, "\n"@, own);
    } else {
        lemma_part_of_itself(own);
        lemma_part_behind(before + "    "@, own, own);
        lemma_part_in_front(before + "    "@ + own, "\n"@, own);
    }
}

/// An entity without rows says so.
pub proof fn law_an_empty_table_says_so(entity: Entity)
    requires
        entity.rows@.len() == 0,
    ensures
        table(entity) == "    (no rows)\n"@,
{
    crate::json::lemma_items(entity.rows@);
}

/// Each sealed column is listed with its subject.
pub proof fn law_each_sealed_column_is_listed(sealed: Seq<(Seq<char>, Seq<char>)>, at: int)
    requires
        0 <= at < sealed.len(),
    ensures
        has_part(sealed_lines(sealed), sealed[at].0 + " under "@ + sealed[at].1),
    decreases sealed.len(),
{
    let rest = sealed.drop_last();
    let before = sealed_lines(rest);
    let own = sealed[at].0 + " under "@ + sealed[at].1;
    let last = sealed.last();
    lemma_grouped_line(before, "    sealed: "@, last.0, " under "@, last.1, "\n"@);
    let line = "    sealed: "@ + (last.0 + " under "@ + last.1) + "\n"@;
    if at < rest.len() {
        assert(rest[at] == sealed[at]);
        law_each_sealed_column_is_listed(rest, at);
        lemma_part_in_front(before, line, own);
    } else {
        lemma_part_of_itself(own);
        lemma_part_behind("    sealed: "@, own, own);
        lemma_part_in_front("    sealed: "@ + own, "\n"@, own);
        lemma_part_behind(before, line, own);
    }
}

proof fn lemma_grouped_line(
    before: Seq<char>,
    a: Seq<char>,
    b: Seq<char>,
    c: Seq<char>,
    d: Seq<char>,
    e: Seq<char>,
)
    ensures
        before + a + b + c + d + e == before + (a + (b + c + d) + e),
{
    assert(before + a + b + c + d + e =~= before + (a + (b + c + d) + e));
}

/// What is said of an entity holds its name, its key and its count, its sealed columns and its
/// table, and the count of its stale cells exactly where it has some.
pub proof fn law_an_entity_is_said_to_be_what_it_is(entity: Entity)
    ensures
        has_part(entity_lines(entity), entity.name@),
        has_part(entity_lines(entity), entity.key@),
        has_part(entity_lines(entity), grouped(entity.row_count as nat)),
        has_part(entity_lines(entity), sealed_lines(pair_views(entity.sealed@))),
        has_part(entity_lines(entity), table(entity)),
        entity.stale > 0 ==> has_part(entity_lines(entity), grouped(entity.stale as nat) + " cell(s) of the "@),
{
    let name = entity.name@;
    let key = entity.key@;
    let count = grouped(entity.row_count as nat);
    let sealed = sealed_lines(pair_views(entity.sealed@));
    let rows = table(entity);
    let stale = if entity.stale > 0 {
        "    "@ + grouped(entity.stale as nat) + " cell(s) of the "@ + grouped(entity.rows.len() as nat)
            + " row(s) shown were written under a superseded key and will not open\n"@
    } else {
        Seq::empty()
    };
    lemma_pieces("  entity "@, name, ", key "@, key, ", "@, count, " row(s)\n"@, sealed, rows, stale);
    if entity.stale > 0 {
        let n = grouped(entity.stale as nat);
        let said = n + " cell(s) of the "@;
        let shown = grouped(entity.rows.len() as nat);
        let end = " row(s) shown were written under a superseded key and will not open\n"@;
        assert("    "@ + n + " cell(s) of the "@ =~= "    "@ + said);
        lemma_part_of_itself(said);
        lemma_part_behind("    "@, said, said);
        lemma_part_in_front("    "@ + said, shown, said);
        lemma_part_in_front("    "@ + said + shown, end, said);
        lemma_part_behind(
            "  entity "@ + name + ", key "@ + key + ", "@ + count + " row(s)\n"@ + sealed + rows,
            stale,
            said,
        );
    }
}

proof fn lemma_pieces(
    a: Seq<char>,
    name: Seq<char>,
    b: Seq<char>,
    key: Seq<char>,
    c: Seq<char>,
    count: Seq<char>,
    d: Seq<char>,
    sealed: Seq<char>,
    rows: Seq<char>,
    stale: Seq<char>,
)
    ensures
        has_part(a + name + b + key + c + count + d + sealed + rows + stale, name),
        has_part(a + name + b + key + c + count + d + sealed + rows + stale, key),
        has_part(a + name + b + key + c + count + d + sealed + rows + stale, count),
        has_part(a + name + b + key + c + count + d + sealed + rows + stale, sealed),
        has_part(a + name + b + key + c + count + d + sealed + rows + stale, rows),
{
    let s1 = a + name;
    let s2 = s1 + b;
    let s3 = s2 + key;
    let s4 = s3 + c;
    let s5 = s4 + count;
    let s6 = s5 + d;
    let s7 = s6 + sealed;
    let s8 = s7 + rows;
    lemma_part_of_itself(name);
    lemma_part_behind(a, name, name);
    lemma_part_in_front(s1, b, name);
    lemma_part_in_front(s2, key, name);
    lemma_part_in_front(s3, c, name);
    lemma_part_in_front(s4, count, name);
    lemma_part_in_front(s5, d, name);
    lemma_part_in_front(s6, sealed, name);
    lemma_part_in_front(s7, rows, name);
    lemma_part_in_front(s8, stale, name);
    lemma_part_of_itself(key);
    lemma_part_behind(s2, key, key);
    lemma_part_in_front(s3, c, key);
    lemma_part_in_front(s4, count, key);
    lemma_part_in_front(s5, d, key);
    lemma_part_in_front(s6, sealed, key);
    lemma_part_in_front(s7, rows, key);
    lemma_part_in_front(s8, stale, key);
    lemma_part_of_itself(count);
    lemma_part_behind(s4, count, count);
    lemma_part_in_front(s5, d, count);
    lemma_part_in_front(s6, sealed, count);
    lemma_part_in_front(s7, rows, count);
    lemma_part_in_front(s8, stale, count);
    lemma_part_of_itself(sealed);
    lemma_part_behind(s6, sealed, sealed);
    lemma_part_in_front(s7, rows, sealed);
    lemma_part_in_front(s8, stale, sealed);
    lemma_part_of_itself(rows);
    lemma_part_behind(s7, rows, rows);
    lemma_part_in_front(s8, stale, rows);
}

/// A printed result tells of what was folded, of every entity, of what bounds the answer, and
/// closes with the answer in one line.
pub proof fn law_a_printed_result_tells_of_every_entity(projection: Projection, at: int)
    requires
        0 <= at < projection.entities@.len(),
    ensures
        projection.folded_line().is_prefix_of(projection.display_view()),
        has_part(projection.display_view(), entity_lines(projection.entities@[at])),
        has_part(projection.display_view(), projection.bounds_lines()),
        has_part(projection.display_view(), projection.snapshot_line()),
        projection.summary_line().is_suffix_of(projection.display_view()),
{
    let folded = projection.folded_line();
    let entities = entities_lines(projection.entities@);
    let bounds = projection.bounds_lines();
    let snapshot = projection.snapshot_line();
    let summary = projection.summary_line();
    let own = entity_lines(projection.entities@[at]);
    lemma_entity_is_there(projection.entities@, at);
    let a = folded + entities;
    let b = a + bounds;
    let c = b + snapshot;
    lemma_part_behind(folded, entities, own);
    lemma_part_in_front(a, bounds, own);
    lemma_part_in_front(b, snapshot, own);
    lemma_part_in_front(c, summary, own);
    lemma_part_of_itself(bounds);
    lemma_part_behind(a, bounds, bounds);
    lemma_part_in_front(b, snapshot, bounds);
    lemma_part_in_front(c, summary, bounds);
    lemma_part_of_itself(snapshot);
    lemma_part_behind(b, snapshot, snapshot);
    lemma_part_in_front(c, summary, snapshot);
    lemma_ends(folded, entities, bounds, snapshot, summary);
}

proof fn lemma_ends(a: Seq<char>, b: Seq<char>, c: Seq<char>, d: Seq<char>, e: Seq<char>)
    ensures
        a.is_prefix_of(a + b + c + d + e),
        e.is_suffix_of(a + b + c + d + e),
{
    let whole = a + b + c + d + e;
    assert(whole.subrange(0, a.len() as int) =~= a);
    assert(whole.subrange(whole.len() - e.len(), whole.len() as int) =~= e);
}

proof fn lemma_entity_is_there(entities: Seq<Entity>, at: int)
    requires
        0 <= at < entities.len(),
    ensures
        has_part(entities_lines(entities), entity_lines(entities[at])),
    decreases entities.len(),
{
    let rest = entities.drop_last();
    let last = entity_lines(entities.last());
    let own = entity_lines(entities[at]);
    if at < rest.len() {
        assert(rest[at] == entities[at]);
        lemma_entity_is_there(rest, at);
        lemma_part_in_front(entities_lines(rest), last, own);
    } else {
        lemma_part_of_itself(own);
        lemma_part_behind(entities_lines(rest), own, own);
    }
}

/// What was folded is told by its count, its event types as they are declared, and the projector.
pub proof fn law_what_was_folded_is_told(projection: Projection, at: int)
    ensures
        has_part(projection.folded_line(), grouped(projection.events as nat)),
        has_part(projection.folded_line(), projection.projector@),
        0 <= at < projection.sources@.len() ==> has_part(projection.folded_line(), "@"@ + projection.sources@[at]@),
{
    let events = grouped(projection.events as nat);
    let types = joined(marked(views(projection.sources@)), ", "@);
    let projector = projection.projector@;
    let took = crate::projection::elapsed_text(projection.elapsed);
    let s1 = "folded "@ + events;
    let s2 = s1 + " event(s) of "@;
    let s3 = s2 + types;
    let s4 = s3 + " into `projector "@;
    let s5 = s4 + projector;
    let s6 = s5 + "` in "@;
    let s7 = s6 + took;
    lemma_part_of_itself(events);
    lemma_part_behind("folded "@, events, events);
    lemma_part_in_front(s1, " event(s) of "@, events);
    lemma_part_in_front(s2, types, events);
    lemma_part_in_front(s3, " into `projector "@, events);
    lemma_part_in_front(s4, projector, events);
    lemma_part_in_front(s5, "` in "@, events);
    lemma_part_in_front(s6, took, events);
    lemma_part_in_front(s7, "\n"@, events);
    lemma_part_of_itself(projector);
    lemma_part_behind(s4, projector, projector);
    lemma_part_in_front(s5, "` in "@, projector);
    lemma_part_in_front(s6, took, projector);
    lemma_part_in_front(s7, "\n"@, projector);
    if 0 <= at < projection.sources@.len() {
        let own = "@"@ + projection.sources@[at]@;
        assert(marked(views(projection.sources@))[at] == own);
        lemma_joined_part(marked(views(projection.sources@)), ", "@, at);
        lemma_part_behind(s2, types, own);
        lemma_part_in_front(s3, " into `projector "@, own);
        lemma_part_in_front(s4, projector, own);
        lemma_part_in_front(s5, "` in "@, own);
        lemma_part_in_front(s6, took, own);
        lemma_part_in_front(s7, "\n"@, own);
    }
}

} // verus!
