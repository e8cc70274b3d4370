//! The books: what invocations, the journal, cursors, quarantines, versions and keys come to
//! when they are written to, and what is read from them.

use vstd::prelude::*;

use crate::list::{at_most, distinct, lemma_picked, lemma_place, picked, place_of};
use crate::opdb::{
    among, begun, begun_state, below, call_at, call_result, calls_of_run, clamped, current_versions,
    declaration_order, ended, ended_count, ended_runs, ended_under, found, has_key, hold_of, key_count, key_fields,
    key_of, key_order, keys_page, known_effects, known_state, listed_after, loaded, mark_of, migration_error,
    migration_of, newest_first, not_taken, oldest_first, outdated_runs, part_of, recent_runs, resume_after,
    rewrapped, run_at, running_stale, runs_among, runs_below, sweepable, swept, trace_order, upserted, version_of,
    was_skipped, with_call, with_completed, with_key, with_loaded, with_skipped, without_key, DeclarationView,
    InvocationView, JournalError, JournalView, KeyView, OpDb, QuarantineView, RewrapUpdate, SCHEMA_VERSION,
};
use crate::order::{
    is_order, lemma_sorted_contains, lemma_sorted_keeps, lemma_sorted_ordered, ordered, sorted, text_order,
};
use crate::text::precedes;

verus! {

// ---------------------------------------------------------------------------
// Rows
// ---------------------------------------------------------------------------

/// Whether a list holds a row at some place.
pub open spec fn on_record<V>(rows: Seq<V>, row: V) -> bool {
    exists|i: int| 0 <= i < rows.len() && #[trigger] rows[i] == row
}

proof fn lemma_found<V>(rows: Seq<V>, wanted: spec_fn(V) -> bool)
    ensures
        match found(rows, wanted) {
            Some(row) => wanted(row) && on_record(rows, row),
            None => forall|i: int| 0 <= i < rows.len() ==> !wanted(#[trigger] rows[i]),
        },
{
    lemma_place(rows, wanted);
    if let Some(at) = place_of(rows, wanted) {
        assert(rows[at] == found(rows, wanted)->0);
    }
}

proof fn lemma_found_pushed<V>(rows: Seq<V>, row: V, wanted: spec_fn(V) -> bool)
    ensures
        found(rows.push(row), wanted) == if wanted(row) {
            Some(row)
        } else {
            found(rows, wanted)
        },
{
    let all = rows.push(row);
    assert(all.drop_last() =~= rows);
    lemma_place(rows, wanted);
}

proof fn lemma_place_of<V>(rows: Seq<V>, wanted: spec_fn(V) -> bool, at: int)
    requires
        0 <= at < rows.len(),
        wanted(rows[at]),
        forall|k: int| at < k < rows.len() ==> !wanted(#[trigger] rows[k]),
    ensures
        place_of(rows, wanted) == Some(at),
{
    crate::list::lemma_place_is(rows, wanted, at);
}

proof fn lemma_found_updated<V>(rows: Seq<V>, at: int, row: V, wanted: spec_fn(V) -> bool)
    requires
        0 <= at < rows.len(),
        wanted(row) == wanted(rows[at]),
        wanted(row) ==> place_of(rows, wanted) == Some(at),
    ensures
        found(rows.update(at, row), wanted) == if wanted(row) {
            Some(row)
        } else {
            found(rows, wanted)
        },
{
    let all = rows.update(at, row);
    lemma_place(rows, wanted);
    match place_of(rows, wanted) {
        Some(last) => {
            assert forall|k: int| last < k < all.len() implies !wanted(#[trigger] all[k]) by {
                if k != at {
                    assert(all[k] == rows[k]);
                }
            }
            lemma_place_of(all, wanted, last);
        },
        None => {
            lemma_place(all, wanted);
            if let Some(k) = place_of(all, wanted) {
                if k != at {
                    assert(all[k] == rows[k]);
                }
            }
        },
    }
}

/// What is put where a row stood, or behind them all, is found there, and what else is looked for
/// is found as it was.
proof fn lemma_upserted<V>(rows: Seq<V>, own: spec_fn(V) -> bool, row: V, other: spec_fn(V) -> bool)
    requires
        own(row),
        !other(row),
        place_of(rows, own) matches Some(at) ==> !other(rows[at]),
    ensures
        found(upserted(rows, own, row), own) == Some(row),
        found(upserted(rows, own, row), other) == found(rows, other),
{
    lemma_place(rows, own);
    match place_of(rows, own) {
        Some(at) => {
            lemma_found_updated(rows, at, row, own);
            lemma_found_updated(rows, at, row, other);
        },
        None => {
            lemma_found_pushed(rows, row, own);
            lemma_found_pushed(rows, row, other);
        },
    }
}

// ---------------------------------------------------------------------------
// Invocations
// ---------------------------------------------------------------------------

proof fn lemma_words()
    ensures
        "running"@ != "terminal"@,
{
    reveal_strlit("running");
    reveal_strlit("terminal");
    assert("running"@.len() == 7 && "terminal"@.len() == 8);
}

/// What is found under an effect and a position is an invocation of just these, and nothing is
/// where there is none.
pub proof fn law_an_invocation_is_found_by_effect_and_position(
    runs: Seq<InvocationView>,
    effect: Seq<char>,
    position: u64,
)
    ensures
        match found(runs, run_at(effect, position)) {
            Some(run) => run.effect == effect && run.position == position && on_record(runs, run),
            None => forall|i: int|
                0 <= i < runs.len() ==> !((#[trigger] runs[i]).effect == effect && runs[i].position == position),
        },
{
    lemma_found(runs, run_at(effect, position));
}

/// Beginning an invocation puts it on record as running under its hash, where none was, and leaves
/// one that was there alone. It touches no other, and beginning it again changes nothing.
pub proof fn law_beginning_an_invocation_reserves_its_position(
    runs: Seq<InvocationView>,
    effect: Seq<char>,
    position: u64,
    hash: Seq<char>,
    now: Seq<char>,
    again: Seq<char>,
    later: Seq<char>,
    other_effect: Seq<char>,
    other_position: u64,
)
    requires
        other_effect != effect || other_position != position,
    ensures
        ({
            let after = begun(runs, effect, position, hash, now);
            let before = found(runs, run_at(effect, position));
            &&& found(after, run_at(effect, position)) matches Some(run) && (before matches Some(was)
                ==> run == was) && (before is None ==> run.effect == effect && run.position == position
                && run.status == "running"@ && run.script_hash == hash && run.created_at == now
                && run.completed_at is None && run.skipped_at is None)
            &&& found(after, run_at(other_effect, other_position)) == found(
                runs,
                run_at(other_effect, other_position),
            )
            &&& begun(after, effect, position, again, later) == after
        }),
{
    let own = run_at(effect, position);
    let other = run_at(other_effect, other_position);
    if found(runs, own) is None {
        let run = crate::opdb::new_run(effect, position, hash, now);
        lemma_found_pushed(runs, run, own);
        lemma_found_pushed(runs, run, other);
    }
}

/// A handler is run for a position exactly where its invocation has not reached its end: it is new,
/// or was left running.
pub proof fn law_a_handler_runs_until_its_invocation_ends(
    runs: Seq<InvocationView>,
    effect: Seq<char>,
    position: u64,
)
    ensures
        begun_state(runs, effect, position) is AlreadyTerminal <==> exists|run: InvocationView|
            found(runs, run_at(effect, position)) == Some(run) && (#[trigger] run.status) == "terminal"@,
        found(runs, run_at(effect, position)) is None ==> begun_state(runs, effect, position) is Running,
{
    if let Some(run) = found(runs, run_at(effect, position)) {
        assert(run.status == run.status);
    }
}

/// An invocation that is completed or skipped has reached its end at that time, and its handler is
/// not run again. Only one that was skipped is known as such. All else of it is kept, and no other
/// invocation is touched.
pub proof fn law_an_ended_invocation_stays_ended(
    runs: Seq<InvocationView>,
    effect: Seq<char>,
    position: u64,
    now: Seq<char>,
    other_effect: Seq<char>,
    other_position: u64,
)
    requires
        found(runs, run_at(effect, position)) is Some,
        other_effect != effect || other_position != position,
    ensures
        ({
            let was = found(runs, run_at(effect, position))->0;
            let done = with_completed(runs, effect, position, now);
            let gone = with_skipped(runs, effect, position, now);
            &&& found(done, run_at(effect, position)) matches Some(run) && run.status == "terminal"@
                && run.completed_at == Some(now) && run.skipped_at == was.skipped_at && run.script_hash
                == was.script_hash && run.created_at == was.created_at
            &&& found(gone, run_at(effect, position)) matches Some(run) && run.status == "terminal"@
                && run.completed_at == Some(now) && run.skipped_at == Some(now) && run.script_hash
                == was.script_hash && run.created_at == was.created_at
            &&& begun_state(done, effect, position) is AlreadyTerminal
            &&& begun_state(gone, effect, position) is AlreadyTerminal
            &&& was_skipped(gone, effect, position)
            &&& was_skipped(done, effect, position) == was_skipped(runs, effect, position)
            &&& done.len() == runs.len() && gone.len() == runs.len()
            &&& found(done, run_at(other_effect, other_position)) == found(
                runs,
                run_at(other_effect, other_position),
            )
            &&& found(gone, run_at(other_effect, other_position)) == found(
                runs,
                run_at(other_effect, other_position),
            )
        }),
{
    let own = run_at(effect, position);
    let other = run_at(other_effect, other_position);
    lemma_place(runs, own);
    let at = place_of(runs, own)->0;
    let completed = crate::opdb::completed(runs[at], now);
    let skipped = crate::opdb::skipped(runs[at], now);
    lemma_found_updated(runs, at, completed, own);
    lemma_found_updated(runs, at, skipped, own);
    lemma_found_updated(runs, at, completed, other);
    lemma_found_updated(runs, at, skipped, other);
}

/// Nothing reaches its end that was never begun.
pub proof fn law_only_what_was_begun_ends(
    runs: Seq<InvocationView>,
    effect: Seq<char>,
    position: u64,
    now: Seq<char>,
)
    requires
        found(runs, run_at(effect, position)) is None,
    ensures
        with_completed(runs, effect, position, now) == runs,
        with_skipped(runs, effect, position, now) == runs,
        !was_skipped(runs, effect, position),
{
}

// ---------------------------------------------------------------------------
// The journal
// ---------------------------------------------------------------------------

/// A call is journaled exactly where its invocation is on record and the call is not. It is then
/// given back with its result, and every other call as before.
pub proof fn law_a_journaled_call_is_given_back(
    calls: Seq<JournalView>,
    runs: Seq<InvocationView>,
    call: JournalView,
    effect: Seq<char>,
    position: u64,
    hash: Seq<char>,
    disambiguator: u64,
)
    requires
        (effect, position, hash, disambiguator) != (
            call.effect,
            call.position,
            call.call_hash,
            call.disambiguator,
        ),
    ensures
        with_call(calls, runs, call) is Ok <==> call_result(
            calls,
            call.effect,
            call.position,
            call.call_hash,
            call.disambiguator,
        ) is None && found(runs, run_at(call.effect, call.position)) is Some,
        with_call(calls, runs, call) == Err::<Seq<JournalView>, JournalError>(JournalError::Duplicate)
            <==> call_result(calls, call.effect, call.position, call.call_hash, call.disambiguator) is Some,
        with_call(calls, runs, call) matches Ok(after) ==> {
            &&& call_result(after, call.effect, call.position, call.call_hash, call.disambiguator) == Some(
                call.result,
            )
            &&& call_result(after, effect, position, hash, disambiguator) == call_result(
                calls,
                effect,
                position,
                hash,
                disambiguator,
            )
            &&& with_call(after, runs, call) is Err
        },
{
    let own = call_at(call.effect, call.position, call.call_hash, call.disambiguator);
    let other = call_at(effect, position, hash, disambiguator);
    lemma_found_pushed(calls, call, own);
    lemma_found_pushed(calls, call, other);
}

/// A result that is given back was journaled by that very call.
pub proof fn law_a_result_is_of_the_call_that_was_made(
    calls: Seq<JournalView>,
    effect: Seq<char>,
    position: u64,
    hash: Seq<char>,
    disambiguator: u64,
)
    ensures
        match call_result(calls, effect, position, hash, disambiguator) {
            Some(result) => exists|i: int|
                0 <= i < calls.len() && (#[trigger] calls[i]).effect == effect && calls[i].position == position
                    && calls[i].call_hash == hash && calls[i].disambiguator == disambiguator && calls[i].result
                    == result,
            None => forall|i: int|
                0 <= i < calls.len() ==> !((#[trigger] calls[i]).effect == effect && calls[i].position
                    == position && calls[i].call_hash == hash && calls[i].disambiguator == disambiguator),
        },
{
    lemma_found(calls, call_at(effect, position, hash, disambiguator));
    if let Some(call) = found(calls, call_at(effect, position, hash, disambiguator)) {
        let i = choose|i: int| 0 <= i < calls.len() && #[trigger] calls[i] == call;
        assert(calls[i].effect == effect);
    }
}

/// The calls of an invocation are those that it made, in the order it made them.
pub proof fn law_an_invocation_lists_its_own_calls(
    calls: Seq<JournalView>,
    effect: Seq<char>,
    position: u64,
    call: JournalView,
)
    ensures
        calls_of_run(calls, effect, position) == calls.filter(
            |c: JournalView| c.effect == effect && c.position == position,
        ),
        calls_of_run(calls.push(call), effect, position) == if call.effect == effect && call.position
            == position {
            calls_of_run(calls, effect, position).push(call)
        } else {
            calls_of_run(calls, effect, position)
        },
{
    let own = |c: JournalView| c.effect == effect && c.position == position;
    lemma_calls_of_run(calls, effect, position, own);
    assert(calls.push(call).drop_last() =~= calls);
}

proof fn lemma_calls_of_run(
    calls: Seq<JournalView>,
    effect: Seq<char>,
    position: u64,
    own: spec_fn(JournalView) -> bool,
)
    requires
        own == (|c: JournalView| c.effect == effect && c.position == position),
    ensures
        calls_of_run(calls, effect, position) == calls.filter(own),
    decreases calls.len(),
{
    reveal(Seq::filter);
    if calls.len() > 0 {
        lemma_calls_of_run(calls.drop_last(), effect, position, own);
    }
}

/// Parts of a list that follow each other make up the part over both, and a part that is long enough
/// is the whole list.
pub proof fn law_parts_follow_each_other<V>(all: Seq<V>, offset: int, first: int, second: int)
    requires
        0 <= offset,
        0 <= first,
        0 <= second,
    ensures
        part_of(all, offset, first) + part_of(all, offset + first, second) == part_of(
            all,
            offset,
            first + second,
        ),
        part_of(all, 0, all.len() as int) == all,
        part_of(all, offset, first).len() <= first,
{
    assert(part_of(all, offset, first) + part_of(all, offset + first, second) =~= part_of(
        all,
        offset,
        first + second,
    ));
    assert(part_of(all, 0, all.len() as int) =~= all);
}

// ---------------------------------------------------------------------------
// Lists of invocations
// ---------------------------------------------------------------------------

proof fn lemma_listed<V>(rows: Seq<V>, wanted: spec_fn(V) -> bool, before: spec_fn(V, V) -> bool, row: V)
    ensures
        sorted(picked(rows, wanted), before).contains(row) <==> on_record(rows, row) && wanted(row),
        sorted(picked(rows, wanted), before).len() == picked(rows, wanted).len(),
{
    lemma_picked(rows, wanted);
    lemma_sorted_contains(picked(rows, wanted), before, row);
    lemma_sorted_keeps(picked(rows, wanted), before);
    sorted(picked(rows, wanted), before).to_multiset_ensures();
    picked(rows, wanted).to_multiset_ensures();
    if picked(rows, wanted).contains(row) {
        let k = choose|k: int| 0 <= k < picked(rows, wanted).len() && picked(rows, wanted)[k] == row;
        assert(wanted(picked(rows, wanted)[k]));
        assert(rows.contains(row));
        let i = choose|i: int| 0 <= i < rows.len() && rows[i] == row;
        assert(rows[i] == row);
    }
    if on_record(rows, row) && wanted(row) {
        let i = choose|i: int| 0 <= i < rows.len() && #[trigger] rows[i] == row;
        assert(picked(rows, wanted).contains(rows[i]));
    }
}

proof fn lemma_position_orders()
    ensures
        is_order(oldest_first()),
        is_order(newest_first()),
{
}

/// An effect's ended invocations are all of them and no others, the oldest first.
pub proof fn law_the_ended_invocations_are_listed(runs: Seq<InvocationView>, effect: Seq<char>, run: InvocationView)
    ensures
        ended_runs(runs, effect).contains(run) <==> on_record(runs, run) && run.effect == effect && run.status
            == "terminal"@,
        forall|i: int, j: int|
            0 <= i < j < ended_runs(runs, effect).len() ==> (#[trigger] ended_runs(runs, effect)[i]).position
                <= (#[trigger] ended_runs(runs, effect)[j]).position,
{
    lemma_listed(runs, ended(effect), oldest_first(), run);
    lemma_position_orders();
    lemma_sorted_ordered(picked(runs, ended(effect)), oldest_first());
    let list = ended_runs(runs, effect);
    assert forall|i: int, j: int| 0 <= i < j < list.len() implies (#[trigger] list[i]).position <= (
    #[trigger] list[j]).position by {
        assert(!oldest_first()(list[j], list[i]));
    }
}

proof fn lemma_newest(rows: Seq<InvocationView>, wanted: spec_fn(InvocationView) -> bool, limit: usize, run: InvocationView)
    ensures
        ({
            let all = sorted(picked(rows, wanted), newest_first());
            let page = at_most(all, limit);
            &&& page.len() <= limit
            &&& page.len() == limit || page.len() == picked(rows, wanted).len()
            &&& page.contains(run) ==> on_record(rows, run) && wanted(run)
            &&& on_record(rows, run) && wanted(run) && !page.contains(run) ==> page.len() == limit && forall|i: int|
                0 <= i < page.len() ==> (#[trigger] page[i]).position >= run.position
            &&& forall|i: int, j: int|
                0 <= i < j < page.len() ==> (#[trigger] page[i]).position >= (#[trigger] page[j]).position
        }),
{
    let all = sorted(picked(rows, wanted), newest_first());
    let page = at_most(all, limit);
    lemma_listed(rows, wanted, newest_first(), run);
    lemma_position_orders();
    lemma_sorted_ordered(picked(rows, wanted), newest_first());
    if page.contains(run) {
        let k = choose|k: int| 0 <= k < page.len() && page[k] == run;
        assert(all[k] == run);
    }
    assert forall|i: int, j: int| 0 <= i < j < page.len() implies (#[trigger] page[i]).position >= (
    #[trigger] page[j]).position by {
        assert(!newest_first()(all[j], all[i]));
    }
    if on_record(rows, run) && wanted(run) && !page.contains(run) {
        let k = choose|k: int| 0 <= k < all.len() && all[k] == run;
        if k < page.len() {
            assert(page[k] == run);
        }
        assert forall|i: int| 0 <= i < page.len() implies (#[trigger] page[i]).position >= run.position by {
            assert(!newest_first()(all[k], all[i]));
        }
    }
}

/// The recent invocations are ended ones of that hash, up to that position, the newest first. One is
/// left out only where as many as asked for are no older. Without a limit all of them are listed, as
/// many as are counted.
pub proof fn law_the_recent_invocations_are_the_newest(
    runs: Seq<InvocationView>,
    effect: Seq<char>,
    hash: Seq<char>,
    upto: u64,
    limit: usize,
    run: InvocationView,
)
    ensures
        ({
            let page = recent_runs(runs, effect, hash, upto, limit);
            let fits = on_record(runs, run) && run.effect == effect && run.status == "terminal"@
                && run.script_hash == hash && run.position <= upto;
            &&& page.contains(run) ==> fits
            &&& fits && !page.contains(run) ==> page.len() == limit && forall|i: int|
                0 <= i < page.len() ==> (#[trigger] page[i]).position >= run.position
            &&& page.len() <= limit
            &&& page.len() == limit || page.len() == ended_count(runs, effect, hash, upto)
            &&& page.len() <= ended_count(runs, effect, hash, upto)
            &&& forall|i: int, j: int|
                0 <= i < j < page.len() ==> (#[trigger] page[i]).position >= (#[trigger] page[j]).position
        }),
{
    let wanted = ended_under(effect, hash, upto);
    lemma_newest(runs, wanted, limit, run);
    lemma_listed(runs, wanted, newest_first(), run);
}

/// A page of an effect's invocations lists those below a position, the newest first, and leaves one
/// out only where it is full of others that are no older.
pub proof fn law_a_page_of_invocations_lists_the_newest(
    runs: Seq<InvocationView>,
    effect: Seq<char>,
    before: u64,
    limit: usize,
    run: InvocationView,
)
    ensures
        ({
            let page = runs_below(runs, effect, before, limit);
            let fits = on_record(runs, run) && run.effect == effect && run.position < before;
            &&& page.contains(run) ==> fits
            &&& fits && !page.contains(run) ==> page.len() == limit && forall|i: int|
                0 <= i < page.len() ==> (#[trigger] page[i]).position >= run.position
            &&& page.len() <= limit
            &&& forall|i: int, j: int|
                0 <= i < j < page.len() ==> (#[trigger] page[i]).position >= (#[trigger] page[j]).position
        }),
{
    lemma_newest(runs, below(effect, before), limit, run);
}

/// What runs under an outdated hash is what was left running under another than the current one, if
/// that other was ever loaded for the effect.
pub proof fn law_an_outdated_invocation_runs_what_was_loaded_once(
    runs: Seq<InvocationView>,
    versions: Seq<DeclarationView>,
    effect: Seq<char>,
    current: Seq<char>,
    run: InvocationView,
)
    ensures
        outdated_runs(runs, versions, effect, current).contains(run) <==> on_record(runs, run) && run.effect
            == effect && run.status == "running"@ && run.script_hash != current && exists|i: int|
            0 <= i < versions.len() && (#[trigger] versions[i]).kind == "effect"@ && versions[i].name == effect
                && versions[i].hash == run.script_hash,
        forall|i: int, j: int|
            0 <= i < j < outdated_runs(runs, versions, effect, current).len() ==> (
            #[trigger] outdated_runs(runs, versions, effect, current)[i]).position <= (
            #[trigger] outdated_runs(runs, versions, effect, current)[j]).position,
{
    let wanted = running_stale(effect, current, versions);
    lemma_listed(runs, wanted, oldest_first(), run);
    lemma_position_orders();
    lemma_sorted_ordered(picked(runs, wanted), oldest_first());
    let version = version_of("effect"@, effect, run.script_hash);
    lemma_place(versions, version);
    if let Some(at) = place_of(versions, version) {
        assert(versions[at].kind == "effect"@);
    }
    let list = outdated_runs(runs, versions, effect, current);
    assert forall|i: int, j: int| 0 <= i < j < list.len() implies (#[trigger] list[i]).position <= (
    #[trigger] list[j]).position by {
        assert(!oldest_first()(list[j], list[i]));
    }
}

/// A trace lists the invocations of the effects at the positions that are asked for, and no others.
pub proof fn law_a_trace_lists_what_is_asked_for(
    runs: Seq<InvocationView>,
    effects: Seq<Seq<char>>,
    positions: Seq<u64>,
    run: InvocationView,
)
    ensures
        runs_among(runs, effects, positions).contains(run) <==> on_record(runs, run) && effects.contains(
            run.effect,
        ) && positions.contains(run.position),
{
    lemma_listed(runs, among(effects, positions), trace_order(), run);
}

// ---------------------------------------------------------------------------
// Cursors and quarantines
// ---------------------------------------------------------------------------

/// An effect resumes behind the watermark that was last set for it, and setting it moves no other
/// effect. One that none was set for resumes from the start.
pub proof fn law_an_effect_resumes_behind_its_watermark(
    marks: Seq<(Seq<char>, u64)>,
    effect: Seq<char>,
    watermark: u64,
    other: Seq<char>,
)
    requires
        other != effect,
    ensures
        ({
            let after = upserted(marks, mark_of(effect), (effect, watermark));
            &&& resume_after(after, effect) == watermark
            &&& resume_after(after, other) == resume_after(marks, other)
        }),
        (forall|i: int| 0 <= i < marks.len() ==> (#[trigger] marks[i]).0 != effect) ==> resume_after(
            marks,
            effect,
        ) == 0,
        resume_after(marks, effect) != 0 ==> exists|i: int|
            0 <= i < marks.len() && #[trigger] marks[i] == (effect, resume_after(marks, effect)),
{
    lemma_place(marks, mark_of(effect));
    lemma_upserted(marks, mark_of(effect), (effect, watermark), mark_of(other));
    if let Some(at) = place_of(marks, mark_of(effect)) {
        assert(marks[at].0 == effect);
        assert(marks[at] == (effect, resume_after(marks, effect)));
    }
}

/// A quarantine holds its effect at its position for its reason, until another takes its place, and
/// holds no other effect.
pub proof fn law_a_quarantine_holds_its_effect(
    holds: Seq<QuarantineView>,
    effect: Seq<char>,
    position: u64,
    reason: Seq<char>,
    at: Seq<char>,
    other: Seq<char>,
)
    requires
        other != effect,
    ensures
        ({
            let after = upserted(holds, hold_of(effect), (effect, position, reason, at));
            &&& found(after, hold_of(effect)) == Some((effect, position, reason, at))
            &&& found(after, hold_of(other)) == found(holds, hold_of(other))
        }),
        found(holds, hold_of(effect)) matches Some(hold) ==> hold.0 == effect,
{
    lemma_place(holds, hold_of(effect));
    lemma_upserted(holds, hold_of(effect), (effect, position, reason, at), hold_of(other));
}

/// What is known of an effect is its own watermark and its own quarantine.
pub proof fn law_what_is_known_of_an_effect_is_its_own(db: OpDb, effect: Seq<char>)
    ensures
        ({
            let (name, watermark, quarantine) = known_state(db, effect);
            &&& name == effect
            &&& watermark matches Some(mark) ==> mark == resume_after(db.marks(), effect)
            &&& watermark is None <==> found(db.marks(), mark_of(effect)) is None
            &&& quarantine matches Some(held) ==> found(db.holds(), hold_of(effect)) == Some(
                (effect, held.0, held.1, held.2),
            )
            &&& quarantine is None <==> found(db.holds(), hold_of(effect)) is None
        }),
{
    lemma_place(db.holds(), hold_of(effect));
}

// ---------------------------------------------------------------------------
// Versions
// ---------------------------------------------------------------------------

/// The versions that are current are listed, all of them and no others.
pub proof fn law_the_current_versions_are_listed(versions: Seq<DeclarationView>, version: DeclarationView)
    ensures
        current_versions(versions).contains(version) <==> on_record(versions, version) && version.current,
{
    lemma_listed(versions, |v: DeclarationView| v.current, declaration_order(), version);
}

/// Whether a row is the version of a declaration.
pub open spec fn is_version(row: DeclarationView, version: DeclarationView) -> bool {
    row.kind == version.kind && row.name == version.name && row.hash == version.hash
}

proof fn lemma_loaded(
    versions: Seq<DeclarationView>,
    rows: Seq<DeclarationView>,
    upto: nat,
    now: Seq<char>,
)
    requires
        upto <= rows.len(),
        forall|i: int, j: int|
            0 <= i < j < versions.len() ==> !is_version(#[trigger] versions[i], #[trigger] versions[j]),
    ensures
        ({
            let after = loaded(versions, rows, upto, now);
            &&& forall|k: int|
                0 <= k < after.len() ==> ((#[trigger] after[k]).current <==> exists|i: int|
                    0 <= i < upto && is_version(after[k], #[trigger] rows[i]))
            &&& forall|i: int|
                0 <= i < upto ==> exists|k: int|
                    0 <= k < after.len() && is_version(#[trigger] after[k], #[trigger] rows[i])
            &&& forall|i: int, j: int|
                0 <= i < j < after.len() ==> !is_version(#[trigger] after[i], #[trigger] after[j])
            &&& forall|k: int| 0 <= k < after.len() && (#[trigger] after[k]).current ==> after[k].last_seen == now
        }),
    decreases upto,
{
    let after = loaded(versions, rows, upto, now);
    if upto == 0 {
        assert forall|i: int, j: int| 0 <= i < j < after.len() implies !is_version(
            #[trigger] after[i],
            #[trigger] after[j],
        ) by {
            assert(!is_version(versions[i], versions[j]));
        }
    } else {
        let n = (upto - 1) as nat;
        let before = loaded(versions, rows, n, now);
        let row = rows[upto - 1];
        let wanted = version_of(row.kind, row.name, row.hash);
        lemma_loaded(versions, rows, n, now);
        lemma_place(before, wanted);
        let place = place_of(before, wanted);
        assert forall|k: int| 0 <= k < before.len() implies is_version(#[trigger] after[k], before[k]) by {}
        let own = match place {
            Some(at) => at,
            None => before.len() as int,
        };
        assert(is_version(after[own], row));
        assert forall|i: int, j: int| 0 <= i < j < after.len() implies !is_version(
            #[trigger] after[i],
            #[trigger] after[j],
        ) by {
            if j < before.len() {
                assert(!is_version(before[i], before[j]));
            } else {
                assert(!wanted(before[i]));
            }
        }
        assert forall|k: int| 0 <= k < after.len() implies ((#[trigger] after[k]).current <==> exists|i: int|
            0 <= i < upto && is_version(after[k], #[trigger] rows[i])) by {
            if k == own {
                assert(is_version(after[k], rows[upto - 1]));
            } else {
                assert(after[k] == before[k]);
                if before[k].current {
                    let i = choose|i: int| 0 <= i < n && is_version(before[k], #[trigger] rows[i]);
                    assert(is_version(after[k], rows[i]));
                }
                if exists|i: int| 0 <= i < upto && is_version(after[k], #[trigger] rows[i]) {
                    let i = choose|i: int| 0 <= i < upto && is_version(after[k], #[trigger] rows[i]);
                    if i == upto - 1 {
                        if k < own {
                            assert(!is_version(after[k], after[own]));
                        } else {
                            assert(!is_version(after[own], after[k]));
                        }
                    }
                }
            }
        }
        assert forall|i: int| 0 <= i < upto implies exists|k: int|
            0 <= k < after.len() && is_version(#[trigger] after[k], #[trigger] rows[i]) by {
            if i == upto - 1 {
                assert(is_version(after[own], rows[i]));
            } else {
                let k = choose|k: int| 0 <= k < before.len() && is_version(#[trigger] before[k], rows[i]);
                assert(is_version(after[k], rows[i]));
            }
        }
    }
}

/// After a program was loaded its declarations are current, every one of them as of now, and
/// nothing else is.
pub proof fn law_what_was_loaded_is_current(
    versions: Seq<DeclarationView>,
    rows: Seq<DeclarationView>,
    now: Seq<char>,
    at: int,
)
    requires
        0 <= at < rows.len(),
        forall|i: int, j: int|
            0 <= i < j < versions.len() ==> !is_version(#[trigger] versions[i], #[trigger] versions[j]),
    ensures
        ({
            let after = loaded(versions, rows, rows.len(), now);
            &&& exists|k: int|
                0 <= k < after.len() && is_version(#[trigger] after[k], rows[at]) && after[k].current
                    && after[k].last_seen == now
            &&& forall|k: int|
                0 <= k < after.len() && (#[trigger] after[k]).current ==> exists|i: int|
                    0 <= i < rows.len() && is_version(after[k], #[trigger] rows[i])
        }),
{
    lemma_loaded(versions, rows, rows.len(), now);
    let after = loaded(versions, rows, rows.len(), now);
    let k = choose|k: int| 0 <= k < after.len() && is_version(#[trigger] after[k], #[trigger] rows[at]);
    assert(is_version(after[k], rows[at]));
    assert(after[k].current);
}

/// A version that is loaded for the first time is recorded as it is, as first seen now. One that is
/// on record keeps everything but when it was last seen and where it is declared.
pub proof fn law_a_version_is_recorded_as_it_is(
    versions: Seq<DeclarationView>,
    row: DeclarationView,
    now: Seq<char>,
)
    ensures
        ({
            let after = with_loaded(versions, row, now);
            let was = found(versions, version_of(row.kind, row.name, row.hash));
            &&& found(after, version_of(row.kind, row.name, row.hash)) matches Some(is) && is.current
                && is.last_seen == now && is.module == row.module && is.form == (match was {
                Some(old) => old.form,
                None => row.form,
            }) && is.signature == (match was {
                Some(old) => old.signature,
                None => row.signature,
            }) && is.signature_hash == (match was {
                Some(old) => old.signature_hash,
                None => row.signature_hash,
            }) && is.first_seen == (match was {
                Some(old) => old.first_seen,
                None => now,
            })
            &&& after.len() == versions.len() + (if was is None {
                1int
            } else {
                0int
            })
        }),
{
    let wanted = version_of(row.kind, row.name, row.hash);
    lemma_place(versions, wanted);
    match place_of(versions, wanted) {
        Some(at) => {
            let is = DeclarationView { last_seen: now, current: true, module: row.module, ..versions[at] };
            lemma_found_updated(versions, at, is, wanted);
        },
        None => {
            let is = DeclarationView { first_seen: now, last_seen: now, current: true, ..row };
            lemma_found_pushed(versions, is, wanted);
        },
    }
}

// ---------------------------------------------------------------------------
// Retention
// ---------------------------------------------------------------------------

/// Whether an invocation is behind retention: it ended before the cutoff, and its effect will not
/// come back to its position.
pub open spec fn is_past(run: InvocationView, marks: Seq<(Seq<char>, u64)>, cutoff: Seq<char>) -> bool {
    &&& run.status == "terminal"@
    &&& run.completed_at matches Some(at) && precedes(at, cutoff)
    &&& found(marks, mark_of(run.effect)) is Some
    &&& run.position <= resume_after(marks, run.effect)
}

proof fn lemma_swept_parts(
    runs: Seq<InvocationView>,
    upto: nat,
    marks: Seq<(Seq<char>, u64)>,
    cutoff: Seq<char>,
    limit: usize,
)
    requires
        upto <= runs.len(),
    ensures
        ({
            let (kept, taken) = swept(runs, upto, marks, cutoff, limit);
            &&& kept.len() + taken.len() == upto
            &&& taken.len() <= limit
            &&& forall|k: int| 0 <= k < taken.len() ==> is_past(#[trigger] taken[k], marks, cutoff)
            &&& forall|k: int| 0 <= k < taken.len() ==> runs.contains(#[trigger] taken[k])
            &&& forall|k: int| 0 <= k < kept.len() ==> runs.contains(#[trigger] kept[k])
            &&& forall|i: int| 0 <= i < upto ==> kept.contains(#[trigger] runs[i]) || taken.contains(runs[i])
        }),
    decreases upto,
{
    if upto > 0 {
        lemma_swept_parts(runs, (upto - 1) as nat, marks, cutoff, limit);
        let (before, had) = swept(runs, (upto - 1) as nat, marks, cutoff, limit);
        let (kept, taken) = swept(runs, upto, marks, cutoff, limit);
        let run = runs[upto - 1];
        lemma_place(marks, mark_of(run.effect));
        assert forall|i: int| 0 <= i < upto implies kept.contains(#[trigger] runs[i]) || taken.contains(
            runs[i],
        ) by {
            if i < upto - 1 {
                if before.contains(runs[i]) {
                    let k = choose|k: int| 0 <= k < before.len() && before[k] == runs[i];
                    assert(kept[k] == runs[i]);
                } else {
                    let k = choose|k: int| 0 <= k < had.len() && had[k] == runs[i];
                    assert(taken[k] == runs[i]);
                }
            } else if sweepable(run, marks, cutoff) && had.len() < limit {
                assert(taken[had.len() as int] == run);
            } else {
                assert(kept[before.len() as int] == run);
            }
        }
    }
}

/// A sweep takes ended invocations that are behind retention and nothing else, no more than it may,
/// and keeps all the rest.
pub proof fn law_a_sweep_takes_what_is_past(
    runs: Seq<InvocationView>,
    marks: Seq<(Seq<char>, u64)>,
    cutoff: Seq<char>,
    limit: usize,
    run: InvocationView,
)
    ensures
        ({
            let (kept, taken) = swept(runs, runs.len(), marks, cutoff, limit);
            &&& kept.len() + taken.len() == runs.len()
            &&& taken.len() <= limit
            &&& taken.contains(run) ==> runs.contains(run) && is_past(run, marks, cutoff)
            &&& runs.contains(run) && !is_past(run, marks, cutoff) ==> kept.contains(run)
            &&& kept.contains(run) ==> runs.contains(run)
        }),
{
    lemma_swept_parts(runs, runs.len(), marks, cutoff, limit);
    let (kept, taken) = swept(runs, runs.len(), marks, cutoff, limit);
    if taken.contains(run) {
        let k = choose|k: int| 0 <= k < taken.len() && taken[k] == run;
        assert(is_past(taken[k], marks, cutoff));
    }
    if runs.contains(run) && !is_past(run, marks, cutoff) {
        let i = choose|i: int| 0 <= i < runs.len() && runs[i] == run;
        assert(kept.contains(runs[i]) || taken.contains(runs[i]));
        if taken.contains(run) {
            let k = choose|k: int| 0 <= k < taken.len() && taken[k] == run;
            assert(is_past(taken[k], marks, cutoff));
        }
    }
    if kept.contains(run) {
        let k = choose|k: int| 0 <= k < kept.len() && kept[k] == run;
        assert(runs.contains(kept[k]));
    }
}

/// The calls of an invocation go with it: a call is kept exactly where its invocation was not taken.
pub proof fn law_calls_go_with_their_invocation(
    calls: Seq<JournalView>,
    taken: Seq<InvocationView>,
    call: JournalView,
)
    ensures
        picked(calls, not_taken(taken)).contains(call) <==> calls.contains(call) && forall|i: int|
            0 <= i < taken.len() ==> !((#[trigger] taken[i]).effect == call.effect && taken[i].position
                == call.position),
{
    let wanted = not_taken(taken);
    lemma_picked(calls, wanted);
    lemma_place(taken, run_at(call.effect, call.position));
    if picked(calls, wanted).contains(call) {
        let k = choose|k: int| 0 <= k < picked(calls, wanted).len() && picked(calls, wanted)[k] == call;
        assert(wanted(picked(calls, wanted)[k]));
        assert forall|i: int| 0 <= i < taken.len() implies !((#[trigger] taken[i]).effect == call.effect
            && taken[i].position == call.position) by {
            assert(!run_at(call.effect, call.position)(taken[i]));
        }
    }
    if calls.contains(call) && forall|i: int|
        0 <= i < taken.len() ==> !((#[trigger] taken[i]).effect == call.effect && taken[i].position
            == call.position) {
        let i = choose|i: int| 0 <= i < calls.len() && calls[i] == call;
        if let Some(at) = place_of(taken, run_at(call.effect, call.position)) {
            assert(taken[at].effect == call.effect);
        }
        assert(wanted(calls[i]));
    }
}

// ---------------------------------------------------------------------------
// Keys
// ---------------------------------------------------------------------------

/// A subject keeps the key that it got first: a candidate is taken only where it has none, and no
/// other subject's key is touched.
pub proof fn law_a_subject_keeps_its_first_key(
    keys: Seq<KeyView>,
    candidate: KeyView,
    second: KeyView,
    field: Seq<char>,
    value: Seq<char>,
)
    requires
        second.field == candidate.field,
        second.value == candidate.value,
        field != candidate.field || value != candidate.value,
    ensures
        ({
            let own = key_of(candidate.field, candidate.value);
            let after = with_key(keys, candidate);
            &&& found(keys, own) is None ==> found(after, own) == Some(candidate)
            &&& found(keys, own) is Some ==> found(after, own) == found(keys, own)
            &&& with_key(after, second) == after
            &&& found(after, key_of(field, value)) == found(keys, key_of(field, value))
        }),
{
    let own = key_of(candidate.field, candidate.value);
    if found(keys, own) is None {
        lemma_found_pushed(keys, candidate, own);
        lemma_found_pushed(keys, candidate, key_of(field, value));
    }
}

/// A subject that was erased has no key, and every other keeps its own.
pub proof fn law_an_erased_subject_has_no_key(
    keys: Seq<KeyView>,
    field: Seq<char>,
    value: Seq<char>,
    other_field: Seq<char>,
    other_value: Seq<char>,
)
    requires
        other_field != field || other_value != value,
        forall|i: int, j: int|
            0 <= i < j < keys.len() ==> !((#[trigger] keys[i]).field == (#[trigger] keys[j]).field
                && keys[i].value == keys[j].value),
    ensures
        found(without_key(keys, field, value), key_of(field, value)) is None,
        !has_key(without_key(keys, field, value), field, value),
        found(without_key(keys, field, value), key_of(other_field, other_value)) == found(
            keys,
            key_of(other_field, other_value),
        ),
{
    let own = key_of(field, value);
    let other = key_of(other_field, other_value);
    let after = without_key(keys, field, value);
    lemma_place(keys, own);
    lemma_place(keys, other);
    lemma_place(after, own);
    lemma_place(after, other);
    if let Some(at) = place_of(keys, own) {
        assert forall|k: int| 0 <= k < after.len() implies #[trigger] after[k] == keys[if k < at {
            k
        } else {
            k + 1
        }] by {}
        if let Some(k) = place_of(after, own) {
            if k < at {
                assert(!(keys[k].field == keys[at].field && keys[k].value == keys[at].value));
            } else {
                assert(!(keys[at].field == keys[k + 1].field && keys[at].value == keys[k + 1].value));
            }
        }
        match place_of(keys, other) {
            Some(held) => {
                assert(held != at);
                let k = if held < at {
                    held
                } else {
                    held - 1
                };
                assert(after[k] == keys[held]);
                assert forall|m: int| k < m < after.len() implies !other(#[trigger] after[m]) by {
                    let back = if m < at {
                        m
                    } else {
                        m + 1
                    };
                    assert(after[m] == keys[back]);
                }
                lemma_place_of(after, other, k);
            },
            None => {
                if let Some(k) = place_of(after, other) {
                    let back = if k < at {
                        k
                    } else {
                        k + 1
                    };
                    assert(after[k] == keys[back]);
                    assert(!other(keys[back]));
                }
            },
        }
    }
}

/// A rewrap replaces the secret of its own subject, and only where it is still under the master that
/// the rewrap expects. It counts the keys that it replaced.
pub proof fn law_a_rewrap_replaces_its_own_key(keys: Seq<KeyView>, update: RewrapUpdate, field: Seq<char>, value: Seq<char>)
    requires
        field != update.subject_field@ || value != update.subject_value@,
    ensures
        ({
            let own = key_of(update.subject_field@, update.subject_value@);
            let (after, n) = rewrapped(keys, seq![update], 1);
            let due = found(keys, own) matches Some(key) && key.master == update.expected_master_id@;
            &&& n == (if due {
                1nat
            } else {
                0nat
            })
            &&& due ==> (found(after, own) matches Some(key) && key.wrapped == update.wrapped_key@ && key.master
                == update.master_key_id@ && key.created_at == found(keys, own)->0.created_at)
            &&& !due ==> after == keys
            &&& found(after, key_of(field, value)) == found(keys, key_of(field, value))
        }),
{
    reveal_with_fuel(rewrapped, 2);
    let own = key_of(update.subject_field@, update.subject_value@);
    lemma_place(keys, own);
    assert(rewrapped(keys, seq![update], 0) == (keys, 0nat));
    if let Some(at) = place_of(keys, own) {
        if keys[at].master == update.expected_master_id@ {
            let key = KeyView { wrapped: update.wrapped_key@, master: update.master_key_id@, ..keys[at] };
            lemma_found_updated(keys, at, key, own);
            lemma_found_updated(keys, at, key, key_of(field, value));
        }
    }
}

/// A subject has a key exactly where one is filed under its field and its value. The secret behind
/// uniqueness tags is no subject's, and no inventory lists it.
pub proof fn law_a_subject_has_the_key_that_is_filed_under_it(keys: Seq<KeyView>, field: Seq<char>, value: Seq<char>)
    ensures
        has_key(keys, field, value) <==> field != "@global"@ && exists|i: int|
            0 <= i < keys.len() && (#[trigger] keys[i]).field == field && keys[i].value == value,
        !has_key(keys, "@global"@, value),
{
    lemma_place(keys, key_of(field, value));
    if let Some(at) = place_of(keys, key_of(field, value)) {
        assert(keys[at].field == field);
    }
}

/// Whether a subject stands behind another in the inventory.
pub open spec fn comes_after(key: KeyView, last: (Seq<char>, Seq<char>)) -> bool {
    precedes(last.0, key.field) || (key.field == last.0 && precedes(last.1, key.value))
}

proof fn lemma_key_order()
    ensures
        is_order(key_order()),
{
    assert forall|a: KeyView, b: KeyView| #[trigger] key_order()(a, b) implies !key_order()(b, a) by {
        crate::text::lemma_precedes_irreflexive(a.field);
        crate::text::lemma_precedes_irreflexive(a.value);
        if precedes(a.field, b.field) && precedes(b.field, a.field) {
            crate::text::lemma_precedes_transitive(a.field, b.field, a.field);
        }
        if precedes(a.value, b.value) && precedes(b.value, a.value) {
            crate::text::lemma_precedes_transitive(a.value, b.value, a.value);
        }
    }
    assert forall|a: KeyView, b: KeyView, c: KeyView|
        #![trigger key_order()(b, a), key_order()(c, b)]
        !key_order()(b, a) && !key_order()(c, b) implies !key_order()(c, a) by {
        crate::text::lemma_precedes_total(a.field, b.field);
        crate::text::lemma_precedes_total(b.field, c.field);
        crate::text::lemma_precedes_total(a.value, b.value);
        crate::text::lemma_precedes_total(b.value, c.value);
        crate::text::lemma_precedes_irreflexive(a.field);
        crate::text::lemma_precedes_irreflexive(a.value);
        if key_order()(c, a) {
            if precedes(c.field, a.field) && precedes(a.field, b.field) {
                crate::text::lemma_precedes_transitive(c.field, a.field, b.field);
            }
            if precedes(c.field, a.field) && precedes(b.field, c.field) {
                crate::text::lemma_precedes_transitive(b.field, c.field, a.field);
            }
            if precedes(c.value, a.value) && precedes(a.value, b.value) {
                crate::text::lemma_precedes_transitive(c.value, a.value, b.value);
            }
            if precedes(c.value, a.value) && precedes(b.value, c.value) {
                crate::text::lemma_precedes_transitive(b.value, c.value, a.value);
            }
        }
    }
}

/// A page of the inventory lists subjects behind the last one, each in its place, and leaves one out
/// only where it is full of others that come no later.
pub proof fn law_a_page_of_subjects_goes_on_behind_the_last(
    keys: Seq<KeyView>,
    after: Option<(Seq<char>, Seq<char>)>,
    limit: usize,
    key: KeyView,
)
    ensures
        ({
            let page = keys_page(keys, after, limit);
            let fits = on_record(keys, key) && key.field != "@global"@ && (after matches Some(last) ==> comes_after(
                key,
                last,
            ));
            &&& page.contains(key) ==> fits
            &&& fits && !page.contains(key) ==> page.len() == limit && forall|i: int|
                0 <= i < page.len() ==> !key_order()(key, #[trigger] page[i])
            &&& page.len() <= limit
            &&& ordered(page, key_order())
        }),
{
    let wanted = listed_after(after);
    let all = sorted(picked(keys, wanted), key_order());
    let page = keys_page(keys, after, limit);
    lemma_listed(keys, wanted, key_order(), key);
    lemma_key_order();
    lemma_sorted_ordered(picked(keys, wanted), key_order());
    if page.contains(key) {
        let k = choose|k: int| 0 <= k < page.len() && page[k] == key;
        assert(all[k] == key);
    }
    assert forall|i: int, j: int| 0 <= i < j < page.len() implies !key_order()(
        #[trigger] page[j],
        #[trigger] page[i],
    ) by {
        assert(!key_order()(all[j], all[i]));
    }
    if all.contains(key) && !page.contains(key) {
        let k = choose|k: int| 0 <= k < all.len() && all[k] == key;
        if k < page.len() {
            assert(page[k] == key);
        }
        assert forall|i: int| 0 <= i < page.len() implies !key_order()(key, #[trigger] page[i]) by {
            assert(!key_order()(all[k], all[i]));
        }
    }
}

/// Keys are counted under the fields of subjects that have one, each subject once.
pub proof fn law_keys_are_counted_by_field(keys: Seq<KeyView>, field: Seq<char>, key: KeyView)
    ensures
        key_fields(keys).contains(field) <==> field != "@global"@ && exists|i: int|
            0 <= i < keys.len() && (#[trigger] keys[i]).field == field,
        key_count(keys.push(key), field) == key_count(keys, field) + (if key.field == field && field
            != "@global"@ {
            1nat
        } else {
            0nat
        }),
        key_count(Seq::empty(), field) == 0,
{
    let wanted = listed_after(None);
    let subjects = picked(keys, wanted);
    let fields = subjects.map_values(|k: KeyView| k.field);
    lemma_picked(keys, wanted);
    lemma_distinct(fields, field);
    lemma_sorted_contains(distinct(fields), text_order(), field);
    if fields.contains(field) {
        let k = choose|k: int| 0 <= k < fields.len() && fields[k] == field;
        assert(wanted(subjects[k]));
        assert(keys.contains(subjects[k]));
        let i = choose|i: int| 0 <= i < keys.len() && keys[i] == subjects[k];
        assert(keys[i].field == field);
    }
    if field != "@global"@ && exists|i: int| 0 <= i < keys.len() && (#[trigger] keys[i]).field == field {
        let i = choose|i: int| 0 <= i < keys.len() && (#[trigger] keys[i]).field == field;
        assert(wanted(keys[i]));
        assert(subjects.contains(keys[i]));
        let k = choose|k: int| 0 <= k < subjects.len() && subjects[k] == keys[i];
        assert(fields[k] == field);
    }
    assert(keys.push(key).drop_last() =~= keys);
    assert(subjects.push(key).drop_last() =~= subjects);
    assert(picked(Seq::<KeyView>::empty(), wanted) =~= Seq::empty());
}

proof fn lemma_distinct(list: Seq<Seq<char>>, text: Seq<char>)
    ensures
        distinct(list).contains(text) <==> list.contains(text),
    decreases list.len(),
{
    if list.len() > 0 {
        let rest = list.drop_last();
        lemma_distinct(rest, text);
        lemma_distinct(rest, list.last());
        let had = distinct(rest);
        let pushed = had.push(list.last());
        assert(list =~= rest.push(list.last()));
        if rest.contains(text) {
            let i = choose|i: int| 0 <= i < rest.len() && rest[i] == text;
            assert(list[i] == text);
        }
        if list.contains(text) && !rest.contains(text) {
            let i = choose|i: int| 0 <= i < list.len() && list[i] == text;
            if i < rest.len() {
                assert(rest[i] == text);
            }
            assert(text == list.last());
            assert(pushed[had.len() as int] == text);
        }
        if had.contains(text) {
            let i = choose|i: int| 0 <= i < had.len() && had[i] == text;
            assert(pushed[i] == text);
        }
        if pushed.contains(text) && !had.contains(text) {
            let i = choose|i: int| 0 <= i < pushed.len() && pushed[i] == text;
            if i < had.len() {
                assert(had[i] == text);
            }
            assert(list[list.len() - 1] == text);
        }
    }
}

// ---------------------------------------------------------------------------
// Statements and migrations
// ---------------------------------------------------------------------------

/// A position that a signed column holds is kept, and one that it does not hold becomes the largest
/// that it does, so that no position is put in front of another that it is behind.
pub proof fn law_a_clamped_position_keeps_its_order(a: u64, b: u64)
    requires
        a <= b,
    ensures
        clamped(a) <= clamped(b) <= i64::MAX,
        a <= i64::MAX ==> clamped(a) == a,
{
}

/// A database is migrated a version at a time: there is a step from every version that this build
/// has left behind, none from its own, and one that it does not know is refused.
pub proof fn law_a_database_is_migrated_to_this_version(version: i64)
    ensures
        migration_error(version) is Some <==> version < 0 || version > SCHEMA_VERSION,
        0 <= version < SCHEMA_VERSION ==> migration_of(version) is Some,
        version >= SCHEMA_VERSION ==> migration_of(version) is None,
{
}

// ---------------------------------------------------------------------------
// Effects and statements
// ---------------------------------------------------------------------------

/// An effect is known exactly where it has a watermark or is held in quarantine.
pub proof fn law_an_effect_is_known_by_either_table(db: OpDb, effect: Seq<char>)
    ensures
        known_effects(db).contains(effect) <==> (exists|i: int|
            0 <= i < db.marks().len() && (#[trigger] db.marks()[i]).0 == effect) || (exists|i: int|
            0 <= i < db.holds().len() && (#[trigger] db.holds()[i]).0 == effect),
{
    let marks = db.marks().map_values(|m: (Seq<char>, u64)| m.0);
    let unmarked = |h: QuarantineView| place_of(db.marks(), mark_of(h.0)) is None;
    let held = picked(db.holds(), unmarked);
    let alone = held.map_values(|h: QuarantineView| h.0);
    let all = known_effects(db);
    lemma_picked(db.holds(), unmarked);
    assert(all =~= marks + alone);
    if all.contains(effect) {
        let k = choose|k: int| 0 <= k < all.len() && all[k] == effect;
        if k < marks.len() {
            assert(db.marks()[k].0 == effect);
        } else {
            let h = held[k - marks.len()];
            assert(h.0 == effect);
            assert(db.holds().contains(h));
            let i = db.holds().index_of(h);
            assert(db.holds()[i].0 == effect);
        }
    }
    if exists|i: int| 0 <= i < db.marks().len() && (#[trigger] db.marks()[i]).0 == effect {
        let i = choose|i: int| 0 <= i < db.marks().len() && (#[trigger] db.marks()[i]).0 == effect;
        assert(all[i] == effect);
    } else if exists|i: int| 0 <= i < db.holds().len() && (#[trigger] db.holds()[i]).0 == effect {
        let i = choose|i: int| 0 <= i < db.holds().len() && (#[trigger] db.holds()[i]).0 == effect;
        lemma_place(db.marks(), mark_of(effect));
        assert(unmarked(db.holds()[i]));
        assert(held.contains(db.holds()[i]));
        let k = held.index_of(db.holds()[i]);
        assert(all[marks.len() + k] == effect);
    }
}

} // verus!
