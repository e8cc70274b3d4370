//! Projections: which projector is folded, over which part of the log, and what is reported
//! of it.

use vstd::prelude::*;

use crate::json::{items_view, JsonView};
use crate::laws::commands::at_path;
use crate::laws::texts::{lemma_part_behind, lemma_part_in_front};
use crate::list::lemma_picked;
use crate::opdb::SCHEMA_VERSION;
use crate::projection::{
    admitted, candidates, cell_text, entities_json, entity_json, first_sealed, first_sealed_field, next_step,
    scanned_at, sealed_columns, sealed_json, scratch_name, selected, total_rows, unit_named, wide, width, window_of,
    Entity, Facts, Places, Project, Projection, ProjectorUnit, Request, StepView, Window,
};
use crate::progress::grouped;
use crate::read_api::entity_named;
use crate::schema::{module_name, EntityDef, FieldMeta};
use crate::text::{has_part, signed_decimal};

verus! {

// ---------------------------------------------------------------------------
// The window
// ---------------------------------------------------------------------------

/// A window that is folded starts where it was asked to, or at the beginning, and ends where
/// it was asked to, but never past the tip: its end is the smaller of the two, and without an
/// end that was asked for it is the tip.
pub proof fn law_a_window_is_what_was_asked_for(
    from: Option<u64>,
    upto: Option<u64>,
    max_events: Option<u64>,
    head: u64,
)
    ensures
        window_of(from, upto, max_events, head) matches Ok(window) ==> {
            &&& from matches Some(asked) ==> window.from == asked
            &&& from is None ==> window.from == 0
            &&& upto matches Some(asked) ==> window.upto <= asked && window.upto <= head && (window.upto
                == asked || window.upto == head)
            &&& upto is None ==> window.upto == head
            &&& window.max_events == max_events
        },
{
}

/// A window is folded exactly where it holds a position: where it does not begin past its end
/// or past the tip.
pub proof fn law_a_window_is_refused_where_it_is_empty(
    from: Option<u64>,
    upto: Option<u64>,
    max_events: Option<u64>,
    head: u64,
)
    ensures
        window_of(from, upto, max_events, head) is Ok <==> exists|position: u64|
            position <= head && (from matches Some(asked) ==> asked <= #[trigger] (position + 0)) && (
            upto matches Some(asked) ==> position <= asked),
        from is None ==> window_of(from, upto, max_events, head) is Ok,
{
    let first: u64 = match from {
        Some(asked) => asked,
        None => 0,
    };
    assert(first + 0 == first);
}

/// An earlier end never makes a window longer, and a log that has grown never makes it shorter.
pub proof fn law_a_window_grows_with_its_end_and_with_the_log(
    from: Option<u64>,
    upto: u64,
    later: u64,
    head: u64,
    grown: u64,
    max_events: Option<u64>,
)
    requires
        upto <= later,
        head <= grown,
        window_of(from, Some(upto), max_events, head) is Ok,
    ensures
        window_of(from, Some(later), max_events, grown) is Ok,
        window_of(from, Some(upto), max_events, head)->Ok_0.upto <= window_of(
            from,
            Some(later),
            max_events,
            grown,
        )->Ok_0.upto,
        upto <= head ==> window_of(from, Some(upto), max_events, grown)->Ok_0.upto == upto,
{
}

// ---------------------------------------------------------------------------
// The fold
// ---------------------------------------------------------------------------

/// An event is folded exactly where it lies in the window and there is budget for it. One past
/// the window ends the fold without spending any.
pub proof fn law_a_fold_keeps_to_its_window_and_budget(window: Window, folded: usize, position: u64)
    ensures
        admitted(window, folded, position) is Fold <==> position <= window.upto && (
        window.max_events matches Some(budget) ==> folded < budget),
        admitted(window, folded, position) is PastWindow <==> window.upto < position,
        window.max_events is None ==> !(admitted(window, folded, position) is OverBudget),
{
}

/// A fold that was given a budget folds no more events than it: after as many, none that is
/// left in the window is folded.
pub proof fn law_a_spent_budget_stops_the_fold(window: Window, folded: usize, position: u64)
    requires
        window.max_events matches Some(budget) && folded >= budget,
        position <= window.upto,
    ensures
        admitted(window, folded, position) is OverBudget,
{
}

/// A fold that covered its window stands at the window's end. One that stopped short stands
/// just in front of the event that it could not afford, and says that it did.
pub proof fn law_a_fold_stands_where_it_got_to(window: Window, events: usize, position: u64)
    ensures
        scanned_at(window, events, None).position == window.upto,
        scanned_at(window, events, None).stopped is None,
        scanned_at(window, events, None).events == events,
        scanned_at(window, events, Some(position)).stopped is Some,
        scanned_at(window, events, Some(position)).events == events,
        position > 0 ==> scanned_at(window, events, Some(position)).position + 1 == position,
        scanned_at(window, events, Some(position)).position <= position,
{
}

// ---------------------------------------------------------------------------
// What is asked
// ---------------------------------------------------------------------------

/// Whether a column of an entity is sealed under a subject.
pub open spec fn seals(entity: EntityDef) -> bool {
    exists|k: int| 0 <= k < entity.fields.len() && (#[trigger] entity.fields@[k]).1.subject is Some
}

/// Whether a column of any entity is sealed under a subject.
pub open spec fn any_seals(entities: Seq<EntityDef>) -> bool {
    exists|i: int| 0 <= i < entities.len() && seals(#[trigger] entities[i])
}

proof fn lemma_sealed_field(fields: Seq<(String, FieldMeta)>)
    ensures
        first_sealed_field(fields) is Some <==> exists|k: int|
            0 <= k < fields.len() && (#[trigger] fields[k]).1.subject is Some,
    decreases fields.len(),
{
    if fields.len() > 0 {
        let rest = fields.skip(1);
        lemma_sealed_field(rest);
        if fields[0].1.subject is None {
            if exists|k: int| 0 <= k < fields.len() && (#[trigger] fields[k]).1.subject is Some {
                let k = choose|k: int| 0 <= k < fields.len() && (#[trigger] fields[k]).1.subject is Some;
                assert(rest[k - 1] == fields[k]);
            }
            if exists|k: int| 0 <= k < rest.len() && (#[trigger] rest[k]).1.subject is Some {
                let k = choose|k: int| 0 <= k < rest.len() && (#[trigger] rest[k]).1.subject is Some;
                assert(fields[k + 1] == rest[k]);
            }
        }
    }
}

/// Some column is found to be sealed exactly where one is.
pub proof fn law_a_sealed_column_is_found(entities: Seq<EntityDef>)
    ensures
        first_sealed(entities) is Some <==> any_seals(entities),
    decreases entities.len(),
{
    if entities.len() > 0 {
        let rest = entities.skip(1);
        law_a_sealed_column_is_found(rest);
        lemma_sealed_field(entities[0].fields@);
        if first_sealed_field(entities[0].fields@) is Some {
            assert(seals(entities[0]));
        } else {
            if any_seals(entities) {
                let i = choose|i: int| 0 <= i < entities.len() && seals(#[trigger] entities[i]);
                assert(i != 0);
                assert(rest[i - 1] == entities[i]);
            }
            if any_seals(rest) {
                let i = choose|i: int| 0 <= i < rest.len() && seals(#[trigger] rest[i]);
                assert(entities[i + 1] == rest[i]);
            }
        }
    }
}

proof fn lemma_entity_named(entities: Seq<EntityDef>, name: Seq<char>)
    ensures
        entity_named(entities, name) is Some <==> exists|i: int|
            0 <= i < entities.len() && (#[trigger] entities[i]).name@ == name,
    decreases entities.len(),
{
    if entities.len() > 0 {
        let rest = entities.skip(1);
        lemma_entity_named(rest, name);
        if exists|i: int| 0 <= i < entities.len() && (#[trigger] entities[i]).name@ == name {
            let i = choose|i: int| 0 <= i < entities.len() && (#[trigger] entities[i]).name@ == name;
            if i > 0 {
                assert(rest[i - 1] == entities[i]);
            }
        }
        if exists|i: int| 0 <= i < rest.len() && (#[trigger] rest[i]).name@ == name {
            let i = choose|i: int| 0 <= i < rest.len() && (#[trigger] rest[i]).name@ == name;
            assert(entities[i + 1] == rest[i]);
        }
    }
}

/// Whether a projector can be asked this: it folds events, and declares what is asked about.
pub open spec fn can_be_asked(unit: ProjectorUnit, entity: Option<Seq<char>>) -> bool {
    &&& unit.def is Projector
    &&& unit.sources.len() > 0
    &&& entity matches Some(wanted) ==> exists|i: int|
        0 <= i < unit.entities.len() && (#[trigger] unit.entities@[i]).name@ == wanted
}

/// Whether the keys that a projector's columns are sealed with are to be had: a master key is
/// configured, and the directory's database is of this build's version.
pub open spec fn has_keys(master: bool, facts: Facts) -> bool {
    master && facts.database == Some(Some(SCHEMA_VERSION))
}

/// A projection is folded exactly where it can be asked, its keys are to be had where it needs
/// some, and the log holds part of its window. It is folded over that window, with the keys
/// where it needs them.
pub proof fn law_a_projection_is_folded_where_it_can_be(
    unit: ProjectorUnit,
    request: Request,
    places: Places,
    facts: Facts,
)
    ensures
        ({
            let entity = crate::projection::named_view(request.entity);
            let step = next_step(unit, request, places, facts);
            let sealed = any_seals(unit.entities@);
            &&& step is Fold <==> can_be_asked(unit, entity) && (sealed ==> has_keys(request.master, facts)) && (
            facts.log matches Some(Some(head)) && window_of(
                request.from,
                request.upto,
                request.max_events,
                head,
            ) is Ok)
            &&& step matches StepView::Fold { window, keyed } ==> keyed == sealed && (
            facts.log matches Some(Some(head)) && window_of(
                request.from,
                request.upto,
                request.max_events,
                head,
            ) == Ok::<Window, Seq<char>>(window))
            &&& step is ReadDatabase <==> can_be_asked(unit, entity) && sealed && request.master
                && facts.database is None
            &&& step is ReadLog <==> can_be_asked(unit, entity) && (sealed ==> has_keys(
                request.master,
                facts,
            )) && facts.log is None
        }),
{
    law_a_sealed_column_is_found(unit.entities@);
    if let Some(wanted) = crate::projection::named_view(request.entity) {
        lemma_entity_named(unit.entities@, wanted);
    }
}

/// The sealed columns of an entity are those with a subject, each with its own.
pub proof fn law_the_sealed_columns_are_those_with_a_subject(
    fields: Seq<(String, FieldMeta)>,
    column: Seq<char>,
    subject: Seq<char>,
)
    ensures
        sealed_columns(fields).contains((column, subject)) <==> exists|i: int|
            0 <= i < fields.len() && (#[trigger] fields[i]).0@ == column && (
            fields[i].1.subject matches Some(own) && own@ == subject),
    decreases fields.len(),
{
    if fields.len() > 0 {
        let rest = fields.drop_last();
        law_the_sealed_columns_are_those_with_a_subject(rest, column, subject);
        let had = sealed_columns(rest);
        if exists|i: int|
            0 <= i < rest.len() && (#[trigger] rest[i]).0@ == column && (rest[i].1.subject matches Some(own)
                && own@ == subject) {
            let i = choose|i: int|
                0 <= i < rest.len() && (#[trigger] rest[i]).0@ == column && (
                rest[i].1.subject matches Some(own) && own@ == subject);
            assert(fields[i] == rest[i]);
        }
        if exists|i: int|
            0 <= i < fields.len() && (#[trigger] fields[i]).0@ == column && (
            fields[i].1.subject matches Some(own) && own@ == subject) {
            let i = choose|i: int|
                0 <= i < fields.len() && (#[trigger] fields[i]).0@ == column && (
                fields[i].1.subject matches Some(own) && own@ == subject);
            if i < rest.len() {
                assert(rest[i] == fields[i]);
            }
        }
        if let Some(own) = fields.last().1.subject {
            let pair = (fields.last().0@, own@);
            let all = had.push(pair);
            assert(all.contains((column, subject)) <==> had.contains((column, subject)) || pair == (
                column,
                subject,
            )) by {
                if had.contains((column, subject)) {
                    let i = choose|i: int| 0 <= i < had.len() && had[i] == (column, subject);
                    assert(all[i] == (column, subject));
                }
                if pair == (column, subject) {
                    assert(all[had.len() as int] == (column, subject));
                }
                if all.contains((column, subject)) && pair != (column, subject) {
                    let i = choose|i: int| 0 <= i < all.len() && all[i] == (column, subject);
                    assert(had[i] == (column, subject));
                }
            }
            assert(fields[fields.len() - 1] == fields.last());
        } else {
            assert(fields[fields.len() - 1].1.subject is None);
        }
    }
}

// ---------------------------------------------------------------------------
// Which projector
// ---------------------------------------------------------------------------

/// Whether a place of a project holds a projector of the scratch module.
pub open spec fn stands_in_scratch(project: Project, at: int) -> bool {
    0 <= at < project.projectors.len() && project.projectors@[at].rel_path@ == scratch_name(project)
}

proof fn lemma_one_picked<V>(rows: Seq<V>, wanted: spec_fn(V) -> bool, a: int, b: int)
    requires
        0 <= a < b < rows.len(),
        wanted(rows[a]),
        wanted(rows[b]),
    ensures
        crate::list::picked(rows, wanted).len() >= 2,
    decreases rows.len(),
{
    let rest = rows.drop_last();
    if b == rows.len() - 1 {
        lemma_picked(rest, wanted);
        assert(wanted(rest[a]));
        assert(crate::list::picked(rest, wanted).contains(rest[a]));
    } else {
        lemma_one_picked(rest, wanted, a, b);
    }
}

proof fn lemma_unit_named(units: Seq<ProjectorUnit>, name: Seq<char>)
    ensures
        unit_named(units, name) is Some <==> exists|i: int|
            0 <= i < units.len() && module_name((#[trigger] units[i]).def) == name,
    decreases units.len(),
{
    if units.len() > 0 {
        let rest = units.skip(1);
        lemma_unit_named(rest, name);
        if exists|i: int| 0 <= i < units.len() && module_name((#[trigger] units[i]).def) == name {
            let i = choose|i: int| 0 <= i < units.len() && module_name((#[trigger] units[i]).def) == name;
            if i > 0 {
                assert(rest[i - 1] == units[i]);
            }
        }
        if exists|i: int| 0 <= i < rest.len() && module_name((#[trigger] rest[i]).def) == name {
            let i = choose|i: int| 0 <= i < rest.len() && module_name((#[trigger] rest[i]).def) == name;
            assert(units[i + 1] == rest[i]);
        }
    }
}

/// A projector is selected where the scratch module declares the one that is named. Where none
/// is named, the module declares one at least, and none besides it.
pub proof fn law_a_projector_is_selected_where_it_is_the_one(project: Project, named: Option<Seq<char>>)
    ensures
        match named {
            Some(wanted) => selected(project, named) is Ok <==> exists|i: int|
                #[trigger] stands_in_scratch(project, i) && module_name(project.projectors@[i].def) == wanted,
            None => {
                &&& selected(project, named) is Ok ==> exists|i: int| #[trigger] stands_in_scratch(project, i)
                &&& selected(project, named) is Ok ==> forall|i: int, j: int|
                    #[trigger] stands_in_scratch(project, i) && #[trigger] stands_in_scratch(project, j) ==> i
                        == j
                &&& (exists|i: int| #[trigger] stands_in_scratch(project, i)) && selected(project, named) is Err
                    ==> candidates(project).len() >= 2
            },
        },
{
    let wanted = |unit: ProjectorUnit| unit.rel_path@ == scratch_name(project);
    let units = project.projectors@;
    let declared = candidates(project);
    assert(declared == crate::list::picked(units, wanted));
    lemma_picked(units, wanted);
    if exists|i: int| #[trigger] stands_in_scratch(project, i) {
        let i = choose|i: int| #[trigger] stands_in_scratch(project, i);
        assert(wanted(units[i]));
        assert(declared.contains(units[i]));
        assert(declared.len() > 0);
    }
    if declared.len() > 0 {
        assert(wanted(declared[0]));
        assert(units.contains(declared[0]));
        let i = choose|i: int| 0 <= i < units.len() && units[i] == declared[0];
        assert(stands_in_scratch(project, i));
    }
    match named {
        Some(name) => {
            lemma_unit_named(declared, name);
            if exists|i: int|
                #[trigger] stands_in_scratch(project, i) && module_name(project.projectors@[i].def) == name {
                let i = choose|i: int|
                    #[trigger] stands_in_scratch(project, i) && module_name(project.projectors@[i].def)
                        == name;
                assert(wanted(units[i]));
                assert(declared.contains(units[i]));
                let k = choose|k: int| 0 <= k < declared.len() && declared[k] == units[i];
                assert(module_name(declared[k].def) == name);
            }
            if selected(project, named) is Ok {
                let k = choose|k: int|
                    0 <= k < declared.len() && module_name((#[trigger] declared[k]).def) == name;
                assert(wanted(declared[k]));
                assert(units.contains(declared[k]));
                let i = choose|i: int| 0 <= i < units.len() && units[i] == declared[k];
                assert(stands_in_scratch(project, i));
            }
        },
        None => {
            if selected(project, named) is Ok {
                assert forall|i: int, j: int| #[trigger] stands_in_scratch(project, i)
                    && #[trigger] stands_in_scratch(project, j) implies i == j by {
                    if i < j {
                        lemma_one_picked(units, wanted, i, j);
                    }
                    if j < i {
                        lemma_one_picked(units, wanted, j, i);
                    }
                }
            }
        },
    }
}

// ---------------------------------------------------------------------------
// What is reported
// ---------------------------------------------------------------------------

proof fn lemma_result_names()
    ensures
        "projector"@ != "source"@,
        "projector"@ != "digest"@,
        "projector"@ != "sources"@,
        "projector"@ != "window"@,
        "projector"@ != "scanned"@,
        "projector"@ != "shredded"@,
        "projector"@ != "decrypt"@,
        "projector"@ != "row_limit"@,
        "projector"@ != "truncated"@,
        "projector"@ != "entities"@,
        "projector"@ != "from"@,
        "projector"@ != "upto"@,
        "projector"@ != "head"@,
        "projector"@ != "events"@,
        "projector"@ != "position"@,
        "projector"@ != "stopped"@,
        "projector"@ != "writes"@,
        "projector"@ != "subjects"@,
        "projector"@ != "name"@,
        "projector"@ != "key"@,
        "projector"@ != "columns"@,
        "projector"@ != "sealed"@,
        "projector"@ != "row_count"@,
        "projector"@ != "stale"@,
        "projector"@ != "rows"@,
        "projector"@ != "cells"@,
        "projector"@ != "of_rows_shown"@,
        "projector"@ != "column"@,
        "projector"@ != "subject"@,
        "source"@ != "digest"@,
        "source"@ != "sources"@,
        "source"@ != "window"@,
        "source"@ != "scanned"@,
        "source"@ != "shredded"@,
        "source"@ != "decrypt"@,
        "source"@ != "row_limit"@,
        "source"@ != "truncated"@,
        "source"@ != "entities"@,
        "source"@ != "from"@,
        "source"@ != "upto"@,
        "source"@ != "head"@,
        "source"@ != "events"@,
        "source"@ != "position"@,
        "source"@ != "stopped"@,
        "source"@ != "writes"@,
        "source"@ != "subjects"@,
        "source"@ != "name"@,
        "source"@ != "key"@,
        "source"@ != "columns"@,
        "source"@ != "sealed"@,
        "source"@ != "row_count"@,
        "source"@ != "stale"@,
        "source"@ != "rows"@,
        "source"@ != "cells"@,
        "source"@ != "of_rows_shown"@,
        "source"@ != "column"@,
        "source"@ != "subject"@,
        "digest"@ != "sources"@,
        "digest"@ != "window"@,
        "digest"@ != "scanned"@,
        "digest"@ != "shredded"@,
        "digest"@ != "decrypt"@,
        "digest"@ != "row_limit"@,
        "digest"@ != "truncated"@,
        "digest"@ != "entities"@,
        "digest"@ != "from"@,
        "digest"@ != "upto"@,
        "digest"@ != "head"@,
        "digest"@ != "events"@,
        "digest"@ != "position"@,
        "digest"@ != "stopped"@,
        "digest"@ != "writes"@,
        "digest"@ != "subjects"@,
        "digest"@ != "name"@,
        "digest"@ != "key"@,
        "digest"@ != "columns"@,
        "digest"@ != "sealed"@,
        "digest"@ != "row_count"@,
        "digest"@ != "stale"@,
        "digest"@ != "rows"@,
        "digest"@ != "cells"@,
        "digest"@ != "of_rows_shown"@,
        "digest"@ != "column"@,
        "digest"@ != "subject"@,
        "sources"@ != "window"@,
        "sources"@ != "scanned"@,
        "sources"@ != "shredded"@,
        "sources"@ != "decrypt"@,
        "sources"@ != "row_limit"@,
        "sources"@ != "truncated"@,
        "sources"@ != "entities"@,
        "sources"@ != "from"@,
        "sources"@ != "upto"@,
        "sources"@ != "head"@,
        "sources"@ != "events"@,
        "sources"@ != "position"@,
        "sources"@ != "stopped"@,
        "sources"@ != "writes"@,
        "sources"@ != "subjects"@,
        "sources"@ != "name"@,
        "sources"@ != "key"@,
        "sources"@ != "columns"@,
        "sources"@ != "sealed"@,
        "sources"@ != "row_count"@,
        "sources"@ != "stale"@,
        "sources"@ != "rows"@,
        "sources"@ != "cells"@,
        "sources"@ != "of_rows_shown"@,
        "sources"@ != "column"@,
        "sources"@ != "subject"@,
        "window"@ != "scanned"@,
        "window"@ != "shredded"@,
        "window"@ != "decrypt"@,
        "window"@ != "row_limit"@,
        "window"@ != "truncated"@,
        "window"@ != "entities"@,
        "window"@ != "from"@,
        "window"@ != "upto"@,
        "window"@ != "head"@,
        "window"@ != "events"@,
        "window"@ != "position"@,
        "window"@ != "stopped"@,
        "window"@ != "writes"@,
        "window"@ != "subjects"@,
        "window"@ != "name"@,
        "window"@ != "key"@,
        "window"@ != "columns"@,
        "window"@ != "sealed"@,
        "window"@ != "row_count"@,
        "window"@ != "stale"@,
        "window"@ != "rows"@,
        "window"@ != "cells"@,
        "window"@ != "of_rows_shown"@,
        "window"@ != "column"@,
        "window"@ != "subject"@,
        "scanned"@ != "shredded"@,
        "scanned"@ != "decrypt"@,
        "scanned"@ != "row_limit"@,
        "scanned"@ != "truncated"@,
        "scanned"@ != "entities"@,
        "scanned"@ != "from"@,
        "scanned"@ != "upto"@,
        "scanned"@ != "head"@,
        "scanned"@ != "events"@,
        "scanned"@ != "position"@,
        "scanned"@ != "stopped"@,
        "scanned"@ != "writes"@,
        "scanned"@ != "subjects"@,
        "scanned"@ != "name"@,
        "scanned"@ != "key"@,
        "scanned"@ != "columns"@,
        "scanned"@ != "sealed"@,
        "scanned"@ != "row_count"@,
        "scanned"@ != "stale"@,
        "scanned"@ != "rows"@,
        "scanned"@ != "cells"@,
        "scanned"@ != "of_rows_shown"@,
        "scanned"@ != "column"@,
        "scanned"@ != "subject"@,
        "shredded"@ != "decrypt"@,
        "shredded"@ != "row_limit"@,
        "shredded"@ != "truncated"@,
        "shredded"@ != "entities"@,
        "shredded"@ != "from"@,
        "shredded"@ != "upto"@,
        "shredded"@ != "head"@,
        "shredded"@ != "events"@,
        "shredded"@ != "position"@,
        "shredded"@ != "stopped"@,
        "shredded"@ != "writes"@,
        "shredded"@ != "subjects"@,
        "shredded"@ != "name"@,
        "shredded"@ != "key"@,
        "shredded"@ != "columns"@,
        "shredded"@ != "sealed"@,
        "shredded"@ != "row_count"@,
        "shredded"@ != "stale"@,
        "shredded"@ != "rows"@,
        "shredded"@ != "cells"@,
        "shredded"@ != "of_rows_shown"@,
        "shredded"@ != "column"@,
        "shredded"@ != "subject"@,
        "decrypt"@ != "row_limit"@,
        "decrypt"@ != "truncated"@,
        "decrypt"@ != "entities"@,
        "decrypt"@ != "from"@,
        "decrypt"@ != "upto"@,
        "decrypt"@ != "head"@,
        "decrypt"@ != "events"@,
        "decrypt"@ != "position"@,
        "decrypt"@ != "stopped"@,
        "decrypt"@ != "writes"@,
        "decrypt"@ != "subjects"@,
        "decrypt"@ != "name"@,
        "decrypt"@ != "key"@,
        "decrypt"@ != "columns"@,
        "decrypt"@ != "sealed"@,
        "decrypt"@ != "row_count"@,
        "decrypt"@ != "stale"@,
        "decrypt"@ != "rows"@,
        "decrypt"@ != "cells"@,
        "decrypt"@ != "of_rows_shown"@,
        "decrypt"@ != "column"@,
        "decrypt"@ != "subject"@,
        "row_limit"@ != "truncated"@,
        "row_limit"@ != "entities"@,
        "row_limit"@ != "from"@,
        "row_limit"@ != "upto"@,
        "row_limit"@ != "head"@,
        "row_limit"@ != "events"@,
        "row_limit"@ != "position"@,
        "row_limit"@ != "stopped"@,
        "row_limit"@ != "writes"@,
        "row_limit"@ != "subjects"@,
        "row_limit"@ != "name"@,
        "row_limit"@ != "key"@,
        "row_limit"@ != "columns"@,
        "row_limit"@ != "sealed"@,
        "row_limit"@ != "row_count"@,
        "row_limit"@ != "stale"@,
        "row_limit"@ != "rows"@,
        "row_limit"@ != "cells"@,
        "row_limit"@ != "of_rows_shown"@,
        "row_limit"@ != "column"@,
        "row_limit"@ != "subject"@,
        "truncated"@ != "entities"@,
        "truncated"@ != "from"@,
        "truncated"@ != "upto"@,
        "truncated"@ != "head"@,
        "truncated"@ != "events"@,
        "truncated"@ != "position"@,
        "truncated"@ != "stopped"@,
        "truncated"@ != "writes"@,
        "truncated"@ != "subjects"@,
        "truncated"@ != "name"@,
        "truncated"@ != "key"@,
        "truncated"@ != "columns"@,
        "truncated"@ != "sealed"@,
        "truncated"@ != "row_count"@,
        "truncated"@ != "stale"@,
        "truncated"@ != "rows"@,
        "truncated"@ != "cells"@,
        "truncated"@ != "of_rows_shown"@,
        "truncated"@ != "column"@,
        "truncated"@ != "subject"@,
        "entities"@ != "from"@,
        "entities"@ != "upto"@,
        "entities"@ != "head"@,
        "entities"@ != "events"@,
        "entities"@ != "position"@,
        "entities"@ != "stopped"@,
        "entities"@ != "writes"@,
        "entities"@ != "subjects"@,
        "entities"@ != "name"@,
        "entities"@ != "key"@,
        "entities"@ != "columns"@,
        "entities"@ != "sealed"@,
        "entities"@ != "row_count"@,
        "entities"@ != "stale"@,
        "entities"@ != "rows"@,
        "entities"@ != "cells"@,
        "entities"@ != "of_rows_shown"@,
        "entities"@ != "column"@,
        "entities"@ != "subject"@,
        "from"@ != "upto"@,
        "from"@ != "head"@,
        "from"@ != "events"@,
        "from"@ != "position"@,
        "from"@ != "stopped"@,
        "from"@ != "writes"@,
        "from"@ != "subjects"@,
        "from"@ != "name"@,
        "from"@ != "key"@,
        "from"@ != "columns"@,
        "from"@ != "sealed"@,
        "from"@ != "row_count"@,
        "from"@ != "stale"@,
        "from"@ != "rows"@,
        "from"@ != "cells"@,
        "from"@ != "of_rows_shown"@,
        "from"@ != "column"@,
        "from"@ != "subject"@,
        "upto"@ != "head"@,
        "upto"@ != "events"@,
        "upto"@ != "position"@,
        "upto"@ != "stopped"@,
        "upto"@ != "writes"@,
        "upto"@ != "subjects"@,
        "upto"@ != "name"@,
        "upto"@ != "key"@,
        "upto"@ != "columns"@,
        "upto"@ != "sealed"@,
        "upto"@ != "row_count"@,
        "upto"@ != "stale"@,
        "upto"@ != "rows"@,
        "upto"@ != "cells"@,
        "upto"@ != "of_rows_shown"@,
        "upto"@ != "column"@,
        "upto"@ != "subject"@,
        "head"@ != "events"@,
        "head"@ != "position"@,
        "head"@ != "stopped"@,
        "head"@ != "writes"@,
        "head"@ != "subjects"@,
        "head"@ != "name"@,
        "head"@ != "key"@,
        "head"@ != "columns"@,
        "head"@ != "sealed"@,
        "head"@ != "row_count"@,
        "head"@ != "stale"@,
        "head"@ != "rows"@,
        "head"@ != "cells"@,
        "head"@ != "of_rows_shown"@,
        "head"@ != "column"@,
        "head"@ != "subject"@,
        "events"@ != "position"@,
        "events"@ != "stopped"@,
        "events"@ != "writes"@,
        "events"@ != "subjects"@,
        "events"@ != "name"@,
        "events"@ != "key"@,
        "events"@ != "columns"@,
        "events"@ != "sealed"@,
        "events"@ != "row_count"@,
        "events"@ != "stale"@,
        "events"@ != "rows"@,
        "events"@ != "cells"@,
        "events"@ != "of_rows_shown"@,
        "events"@ != "column"@,
        "events"@ != "subject"@,
        "position"@ != "stopped"@,
        "position"@ != "writes"@,
        "position"@ != "subjects"@,
        "position"@ != "name"@,
        "position"@ != "key"@,
        "position"@ != "columns"@,
        "position"@ != "sealed"@,
        "position"@ != "row_count"@,
        "position"@ != "stale"@,
        "position"@ != "rows"@,
        "position"@ != "cells"@,
        "position"@ != "of_rows_shown"@,
        "position"@ != "column"@,
        "position"@ != "subject"@,
        "stopped"@ != "writes"@,
        "stopped"@ != "subjects"@,
        "stopped"@ != "name"@,
        "stopped"@ != "key"@,
        "stopped"@ != "columns"@,
        "stopped"@ != "sealed"@,
        "stopped"@ != "row_count"@,
        "stopped"@ != "stale"@,
        "stopped"@ != "rows"@,
        "stopped"@ != "cells"@,
        "stopped"@ != "of_rows_shown"@,
        "stopped"@ != "column"@,
        "stopped"@ != "subject"@,
        "writes"@ != "subjects"@,
        "writes"@ != "name"@,
        "writes"@ != "key"@,
        "writes"@ != "columns"@,
        "writes"@ != "sealed"@,
        "writes"@ != "row_count"@,
        "writes"@ != "stale"@,
        "writes"@ != "rows"@,
        "writes"@ != "cells"@,
        "writes"@ != "of_rows_shown"@,
        "writes"@ != "column"@,
        "writes"@ != "subject"@,
        "subjects"@ != "name"@,
        "subjects"@ != "key"@,
        "subjects"@ != "columns"@,
        "subjects"@ != "sealed"@,
        "subjects"@ != "row_count"@,
        "subjects"@ != "stale"@,
        "subjects"@ != "rows"@,
        "subjects"@ != "cells"@,
        "subjects"@ != "of_rows_shown"@,
        "subjects"@ != "column"@,
        "subjects"@ != "subject"@,
        "name"@ != "key"@,
        "name"@ != "columns"@,
        "name"@ != "sealed"@,
        "name"@ != "row_count"@,
        "name"@ != "stale"@,
        "name"@ != "rows"@,
        "name"@ != "cells"@,
        "name"@ != "of_rows_shown"@,
        "name"@ != "column"@,
        "name"@ != "subject"@,
        "key"@ != "columns"@,
        "key"@ != "sealed"@,
        "key"@ != "row_count"@,
        "key"@ != "stale"@,
        "key"@ != "rows"@,
        "key"@ != "cells"@,
        "key"@ != "of_rows_shown"@,
        "key"@ != "column"@,
        "key"@ != "subject"@,
        "columns"@ != "sealed"@,
        "columns"@ != "row_count"@,
        "columns"@ != "stale"@,
        "columns"@ != "rows"@,
        "columns"@ != "cells"@,
        "columns"@ != "of_rows_shown"@,
        "columns"@ != "column"@,
        "columns"@ != "subject"@,
        "sealed"@ != "row_count"@,
        "sealed"@ != "stale"@,
        "sealed"@ != "rows"@,
        "sealed"@ != "cells"@,
        "sealed"@ != "of_rows_shown"@,
        "sealed"@ != "column"@,
        "sealed"@ != "subject"@,
        "row_count"@ != "stale"@,
        "row_count"@ != "rows"@,
        "row_count"@ != "cells"@,
        "row_count"@ != "of_rows_shown"@,
        "row_count"@ != "column"@,
        "row_count"@ != "subject"@,
        "stale"@ != "rows"@,
        "stale"@ != "cells"@,
        "stale"@ != "of_rows_shown"@,
        "stale"@ != "column"@,
        "stale"@ != "subject"@,
        "rows"@ != "cells"@,
        "rows"@ != "of_rows_shown"@,
        "rows"@ != "column"@,
        "rows"@ != "subject"@,
        "cells"@ != "of_rows_shown"@,
        "cells"@ != "column"@,
        "cells"@ != "subject"@,
        "of_rows_shown"@ != "column"@,
        "of_rows_shown"@ != "subject"@,
        "column"@ != "subject"@,
{
    reveal_strlit("projector");
    reveal_strlit("source");
    reveal_strlit("digest");
    reveal_strlit("sources");
    reveal_strlit("window");
    reveal_strlit("scanned");
    reveal_strlit("shredded");
    reveal_strlit("decrypt");
    reveal_strlit("row_limit");
    reveal_strlit("truncated");
    reveal_strlit("entities");
    reveal_strlit("from");
    reveal_strlit("upto");
    reveal_strlit("head");
    reveal_strlit("events");
    reveal_strlit("position");
    reveal_strlit("stopped");
    reveal_strlit("writes");
    reveal_strlit("subjects");
    reveal_strlit("name");
    reveal_strlit("key");
    reveal_strlit("columns");
    reveal_strlit("sealed");
    reveal_strlit("row_count");
    reveal_strlit("stale");
    reveal_strlit("rows");
    reveal_strlit("cells");
    reveal_strlit("of_rows_shown");
    reveal_strlit("column");
    reveal_strlit("subject");
    assert("projector"@.len() == 9);
    assert("source"@.len() == 6);
    assert("digest"@.len() == 6);
    assert("sources"@.len() == 7);
    assert("window"@.len() == 6);
    assert("scanned"@.len() == 7);
    assert("shredded"@.len() == 8);
    assert("decrypt"@.len() == 7);
    assert("row_limit"@.len() == 9);
    assert("truncated"@.len() == 9);
    assert("entities"@.len() == 8);
    assert("from"@.len() == 4);
    assert("upto"@.len() == 4);
    assert("head"@.len() == 4);
    assert("events"@.len() == 6);
    assert("position"@.len() == 8);
    assert("stopped"@.len() == 7);
    assert("writes"@.len() == 6);
    assert("subjects"@.len() == 8);
    assert("name"@.len() == 4);
    assert("key"@.len() == 3);
    assert("columns"@.len() == 7);
    assert("sealed"@.len() == 6);
    assert("row_count"@.len() == 9);
    assert("stale"@.len() == 5);
    assert("rows"@.len() == 4);
    assert("cells"@.len() == 5);
    assert("of_rows_shown"@.len() == 13);
    assert("column"@.len() == 6);
    assert("subject"@.len() == 7);
    assert("projector"@[0] == 'p');
    assert("row_limit"@[0] == 'r');
    assert("truncated"@[0] == 't');
    assert("row_count"@[0] == 'r');
    assert("source"@[0] == 's');
    assert("digest"@[0] == 'd');
    assert("window"@[0] == 'w');
    assert("events"@[0] == 'e');
    assert("writes"@[0] == 'w');
    assert("source"@[1] == 'o');
    assert("sealed"@[1] == 'e');
    assert("column"@[0] == 'c');
    assert("sealed"@[0] == 's');
    assert("sources"@[1] == 'o');
    assert("scanned"@[1] == 'c');
    assert("sources"@[0] == 's');
    assert("decrypt"@[0] == 'd');
    assert("stopped"@[1] == 't');
    assert("columns"@[0] == 'c');
    assert("subject"@[1] == 'u');
    assert("window"@[1] == 'i');
    assert("writes"@[1] == 'r');
    assert("scanned"@[0] == 's');
    assert("shredded"@[0] == 's');
    assert("entities"@[0] == 'e');
    assert("position"@[0] == 'p');
    assert("shredded"@[1] == 'h');
    assert("subjects"@[1] == 'u');
    assert("stopped"@[0] == 's');
    assert("subject"@[0] == 's');
    assert("row_limit"@[4] == 'l');
    assert("row_count"@[4] == 'c');
    assert("subjects"@[0] == 's');
    assert("from"@[0] == 'f');
    assert("upto"@[0] == 'u');
    assert("head"@[0] == 'h');
    assert("name"@[0] == 'n');
    assert("rows"@[0] == 'r');
    assert("stale"@[0] == 's');
    assert("cells"@[0] == 'c');
}

/// A result says which part of the log it is of, and where the fold got to.
pub proof fn law_a_result_says_what_it_is_of(projection: Projection)
    ensures
        ({
            let json = projection.json_view();
            &&& json.member("projector"@) == Some(JsonView::Text(projection.projector@))
            &&& json.member("source"@) == Some(JsonView::Text(projection.source@))
            &&& json.member("digest"@) == Some(JsonView::Text(projection.digest@))
            &&& at_path(json, "window"@, "from"@) == Some(JsonView::Int(projection.from as int))
            &&& at_path(json, "window"@, "upto"@) == Some(JsonView::Int(projection.upto as int))
            &&& at_path(json, "window"@, "head"@) == Some(JsonView::Int(projection.head as int))
            &&& at_path(json, "scanned"@, "events"@) == Some(JsonView::Int(projection.events as int))
            &&& at_path(json, "scanned"@, "position"@) == Some(
                JsonView::Int(projection.position as int),
            )
            &&& at_path(json, "scanned"@, "stopped"@) == Some(JsonView::Null)
                <==> projection.stopped is None
            &&& at_path(json, "shredded"@, "writes"@) == Some(
                JsonView::Int(projection.shredded.writes as int),
            )
            &&& at_path(json, "shredded"@, "subjects"@) == Some(
                JsonView::Int(projection.shredded.subjects as int),
            )
            &&& json.member("decrypt"@) == Some(JsonView::Bool(projection.decrypt))
            &&& json.member("row_limit"@) == Some(JsonView::Int(projection.row_limit as int))
        }),
{
    lemma_result_names();
}

/// A result owns up to rows that it leaves out: it says so exactly where an entity holds more
/// of them than it carries.
pub proof fn law_a_result_owns_up_to_what_it_leaves_out(projection: Projection, at: int)
    requires
        0 <= at < projection.entities.len(),
    ensures
        ({
            let json = projection.json_view();
            let entity = projection.entities@[at];
            &&& json.member("truncated"@) == Some(JsonView::Bool(true)) <==> exists|i: int|
                0 <= i < projection.entities.len() && (#[trigger] projection.entities@[i]).row_count
                    > projection.entities@[i].rows.len()
            &&& entity_json(entity).member("truncated"@) == Some(JsonView::Bool(true)) <==> entity.row_count
                > entity.rows.len()
            &&& entity_json(entity).member("row_count"@) == Some(JsonView::Int(entity.row_count as int))
            &&& entity_json(entity).member("rows"@) == Some(JsonView::Array(items_view(entity.rows@)))
            &&& at_path(entity_json(entity), "stale"@, "of_rows_shown"@) == Some(
                JsonView::Int(entity.rows.len() as int),
            )
            &&& at_path(entity_json(entity), "stale"@, "cells"@) == Some(
                JsonView::Int(entity.stale as int),
            )
        }),
{
    lemma_result_names();
    let json = projection.json_view();
    if projection.is_truncated() {
        let i = choose|i: int|
            0 <= i < projection.entities.len() && (#[trigger] projection.entities@[i]).is_truncated();
        assert(projection.entities@[i].row_count > projection.entities@[i].rows.len());
    }
    if exists|i: int|
        0 <= i < projection.entities.len() && (#[trigger] projection.entities@[i]).row_count
            > projection.entities@[i].rows.len() {
        let i = choose|i: int|
            0 <= i < projection.entities.len() && (#[trigger] projection.entities@[i]).row_count
                > projection.entities@[i].rows.len();
        assert(projection.entities@[i].is_truncated());
    }
}

/// A result carries every entity, in the order they are reported in.
pub proof fn law_a_result_carries_its_entities(entities: Seq<Entity>)
    ensures
        entities_json(entities) matches JsonView::Array(list) && list.len() == entities.len() && forall|i: int|
            0 <= i < entities.len() ==> (#[trigger] list[i]).member("name"@) == Some(
                JsonView::Text(entities[i].name@),
            ) && list[i].member("key"@) == Some(JsonView::Text(entities[i].key@)) && list[i]
                == entity_json(entities[i]),
    decreases entities.len(),
{
    lemma_result_names();
    if entities.len() > 0 {
        law_a_result_carries_its_entities(entities.drop_last());
    }
}

/// A result carries every sealed column of an entity, in order, each with the subject it is
/// sealed under.
pub proof fn law_a_result_carries_its_sealed_columns(sealed: Seq<(Seq<char>, Seq<char>)>)
    ensures
        sealed_json(sealed) matches JsonView::Array(list) && list.len() == sealed.len() && forall|i: int|
            0 <= i < sealed.len() ==> (#[trigger] list[i]).member("column"@) == Some(
                JsonView::Text(sealed[i].0),
            ) && list[i].member("subject"@) == Some(JsonView::Text(sealed[i].1)),
    decreases sealed.len(),
{
    lemma_result_names();
    if sealed.len() > 0 {
        law_a_result_carries_its_sealed_columns(sealed.drop_last());
    }
}

/// The rows of a result are all rows of all its entities, shown or not.
pub proof fn law_the_rows_of_a_result_add_up(first: Seq<Entity>, second: Seq<Entity>, entity: Entity)
    ensures
        total_rows(seq![entity]) == entity.row_count,
        total_rows(first + second) == total_rows(first) + total_rows(second),
    decreases second.len(),
{
    assert(seq![entity].drop_last() =~= Seq::empty());
    assert(seq![entity].last() == entity);
    assert(total_rows(Seq::<Entity>::empty()) == 0);
    if second.len() == 0 {
        assert(first + second =~= first);
    } else {
        law_the_rows_of_a_result_add_up(first, second.drop_last(), entity);
        assert((first + second).drop_last() =~= first + second.drop_last());
        assert((first + second).last() == second.last());
    }
}

/// Every value of a table fits in its column: a column is as wide as its name and as the widest
/// of its cells, and no wider.
pub proof fn law_a_column_is_as_wide_as_it_must_be(rows: Seq<JsonView>, name: Seq<char>)
    ensures
        width(rows, name) >= name.len(),
        forall|i: int| 0 <= i < rows.len() ==> cell_text(#[trigger] rows[i], name).len() <= width(rows, name),
        width(rows, name) == name.len() || exists|i: int|
            0 <= i < rows.len() && cell_text(#[trigger] rows[i], name).len() == width(rows, name),
    decreases rows.len(),
{
    if rows.len() > 0 {
        let rest = rows.drop_last();
        law_a_column_is_as_wide_as_it_must_be(rest, name);
        assert forall|i: int| 0 <= i < rows.len() implies cell_text(#[trigger] rows[i], name).len()
            <= width(rows, name) by {
            if i < rest.len() {
                assert(rows[i] == rest[i]);
            }
        }
        if width(rows, name) != name.len() {
            if cell_text(rows.last(), name).len() > width(rest, name) {
                assert(cell_text(rows[rows.len() - 1], name).len() == width(rows, name));
            } else {
                let i = choose|i: int|
                    0 <= i < rest.len() && cell_text(#[trigger] rest[i], name).len() == width(rest, name);
                assert(rows[i] == rest[i]);
            }
        }
    }
}

/// A value keeps its text in front and is filled up with spaces to its column's width, so that
/// the next column begins at the same place in every line.
pub proof fn law_a_value_is_filled_up_with_spaces(text: Seq<char>, width: nat)
    ensures
        wide(text, width).len() == if text.len() < width {
            width
        } else {
            text.len()
        },
        wide(text, width).take(text.len() as int) == text,
        forall|i: int| text.len() <= i < wide(text, width).len() ==> #[trigger] wide(text, width)[i] == ' ',
{
    assert(wide(text, width).take(text.len() as int) =~= text);
}

/// A cell prints the value that its row holds under its column: a text as it is, an integer by
/// its digits, a truth value by its word, and a dash where the row holds nothing.
pub proof fn law_a_cell_prints_what_its_row_holds(
    row: JsonView,
    name: Seq<char>,
    text: Seq<char>,
    n: int,
    other: Seq<char>,
)
    requires
        row is Object,
        name != other,
    ensures
        cell_text(row.with(name, JsonView::Text(text)), name) == text,
        cell_text(row.with(name, JsonView::Int(n)), name) == signed_decimal(n),
        cell_text(row.with(name, JsonView::Bool(true)), name) == "true"@,
        cell_text(row.with(name, JsonView::Bool(false)), name) == "false"@,
        cell_text(row.with(name, JsonView::Null), name) == "-"@,
        cell_text(row.without(name), name) == "-"@,
        cell_text(row.with(name, JsonView::Text(text)), other) == cell_text(row, other),
{
}

/// A fold that left part of the log out is never called a snapshot of the tip.
pub proof fn law_only_the_tip_is_a_snapshot(projection: Projection)
    ensures
        projection.snapshot_line().len() > 0,
        (projection.snapshot_line()[0] == 'a') <==> projection.stopped is None && projection.upto
            == projection.head,
{
    reveal_strlit("a snapshot at position ");
    reveal_strlit("these rows are the answer as of position ");
    assert("a snapshot at position "@[0] == 'a');
    assert("these rows are the answer as of position "@[0] == 't');
}

/// What bounds an answer is owned up to, and nothing is where nothing bounds it.
pub proof fn law_what_bounds_an_answer_is_said(projection: Projection)
    ensures
        projection.bounds_lines().len() == 0 <==> projection.from == 0 && projection.upto >= projection.head
            && projection.shredded.writes == 0,
        projection.from > 0 ==> has_part(
            projection.bounds_lines(),
            "the window starts at position "@ + grouped(projection.from as nat),
        ),
        projection.upto < projection.head ==> has_part(
            projection.bounds_lines(),
            "bounded at position "@ + grouped(projection.upto as nat),
        ),
        projection.shredded.writes > 0 ==> has_part(
            projection.bounds_lines(),
            grouped(projection.shredded.writes as nat) + " sealed column write(s) dropped across "@
                + grouped(projection.shredded.subjects as nat),
        ),
{
    reveal_strlit("the window starts at position ");
    reveal_strlit("bounded at position ");
    reveal_strlit(" sealed column write(s) dropped across ");
    let start = if projection.from > 0 {
        "the window starts at position "@ + grouped(projection.from as nat)
            + ", so a row whose first event is below that is missing or partial\n"@
    } else {
        Seq::empty()
    };
    let end = if projection.upto < projection.head {
        "bounded at position "@ + grouped(projection.upto as nat) + ", so "@ + grouped(
            (projection.head - projection.upto) as nat,
        ) + " position(s) below the pinned tip were not folded\n"@
    } else {
        Seq::empty()
    };
    let lost = if projection.shredded.writes > 0 {
        grouped(projection.shredded.writes as nat) + " sealed column write(s) dropped across "@ + grouped(
            projection.shredded.subjects as nat,
        ) + " erased subject(s), so those cells read absent\n"@
    } else {
        Seq::empty()
    };
    assert(projection.bounds_lines() =~= start + end + lost);
    if projection.from > 0 {
        let part = "the window starts at position "@ + grouped(projection.from as nat);
        crate::laws::texts::lemma_part_of_itself(part);
        lemma_part_in_front(
            part,
            ", so a row whose first event is below that is missing or partial\n"@,
            part,
        );
        lemma_part_in_front(start, end, part);
        lemma_part_in_front(start + end, lost, part);
    }
    if projection.upto < projection.head {
        let part = "bounded at position "@ + grouped(projection.upto as nat);
        let left = grouped((projection.head - projection.upto) as nat);
        crate::laws::texts::lemma_part_of_itself(part);
        lemma_part_in_front(part, ", so "@, part);
        lemma_part_in_front(part + ", so "@, left, part);
        lemma_part_in_front(
            part + ", so "@ + left,
            " position(s) below the pinned tip were not folded\n"@,
            part,
        );
        lemma_part_behind(start, end, part);
        lemma_part_in_front(start + end, lost, part);
    }
    if projection.shredded.writes > 0 {
        let part = grouped(projection.shredded.writes as nat) + " sealed column write(s) dropped across "@
            + grouped(projection.shredded.subjects as nat);
        crate::laws::texts::lemma_part_of_itself(part);
        lemma_part_in_front(part, " erased subject(s), so those cells read absent\n"@, part);
        lemma_part_behind(start + end, lost, part);
    }
}

} // verus!
