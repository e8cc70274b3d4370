//! Replays and batches: what is replayed of which history, what an outcome counts as, and which
//! statements a batch comes to.

use vstd::prelude::*;

use crate::batch::{
    after_running, after_selecting, ops_statements, places, BatchErrorView, BatchPlace, EntityOp,
};
use crate::digest::{uses, Entry, Kind, Sexp};
use crate::opdb::DeclarationRow;
use crate::read_api::entity_named;
use crate::read_model::{op_statement, StatementView};
use crate::replay::{
    counted_as, divergence_before, is_cut, kept_positions, next_step, replay_holds, running_hash, with_history,
    Divergence, Replayed, Replaying, Step, Uncovered,
};
use crate::schema::EntityDef;
use crate::text::precedes;

verus! {

// ---------------------------------------------------------------------------
// Replays
// ---------------------------------------------------------------------------

/// Every invocation is counted once: as replayed where something can be concluded of it, and then as
/// reproduced exactly where the candidate does what was recorded, and otherwise under the reason that
/// nothing can.
pub proof fn law_an_invocation_is_counted_once(outcome: Replayed)
    ensures
        ({
            let (replayed, reproduced, no_journal, skipped, unreadable, erased, reclaimed) = counted_as(outcome);
            &&& replayed + no_journal + skipped + unreadable + erased + reclaimed == 1
            &&& replayed == 1 <==> outcome.uncovered is None
            &&& reproduced == 1 <==> outcome.uncovered is None && outcome.reproduces
            &&& reproduced == 0 || reproduced == 1
            &&& no_journal == 1 <==> outcome.uncovered == Some(Uncovered::NoJournal)
            &&& skipped == 1 <==> outcome.uncovered == Some(Uncovered::OperatorSkipped)
            &&& unreadable == 1 <==> outcome.uncovered == Some(Uncovered::Unreadable)
            &&& erased == 1 <==> outcome.uncovered == Some(Uncovered::SubjectErased)
            &&& reclaimed == 1 <==> outcome.uncovered == Some(Uncovered::Reclaimed)
            &&& 0 <= replayed && 0 <= no_journal && 0 <= skipped && 0 <= unreadable && 0 <= erased && 0
                <= reclaimed
        }),
{
}

/// A replay goes through its effects in order. It replays what was listed of one before it turns to
/// the next, and counts the history of one that reveals instead, where there is no key to reveal with.
pub proof fn law_a_replay_goes_effect_by_effect(replay: Replaying)
    requires
        replay_holds(replay),
    ensures
        next_step(replay) matches Step::Replay { effect, position } ==> effect == replay.at && replay.next
            < replay.positions.len() && position == replay.positions@[replay.next as int],
        next_step(replay) is Replay <==> replay.next < replay.positions.len(),
        next_step(replay) is Done ==> replay.at == replay.effects.len(),
        next_step(replay) matches Step::Count { effect } ==> effect == replay.at
            && replay.effects@[effect as int].reveals && !replay.has_key,
        next_step(replay) matches Step::List { effect, limit } ==> effect == replay.at && (
        replay.effects@[effect as int].reveals ==> replay.has_key),
{
}

/// One more invocation is listed than is replayed, so that what is left out is known to be: all that
/// was listed is replayed, or the newest as many as may be, and the rest is owned up to.
pub proof fn law_what_is_left_out_of_a_replay_is_known(replay: Replaying, history: Seq<u64>)
    requires
        replay_holds(replay),
        replay.coverage.limit < usize::MAX,
        next_step(replay) is List,
    ensures
        ({
            let limit = replay.coverage.limit;
            let asked = next_step(replay)->List_limit as int;
            let listed = if history.len() <= asked {
                history
            } else {
                history.take(asked)
            };
            let kept = kept_positions(listed, limit);
            &&& kept.len() <= limit
            &&& forall|i: int| 0 <= i < kept.len() ==> #[trigger] kept[i] == history[i]
            &&& is_cut(listed, limit) <==> kept.len() < history.len()
        }),
{
}

/// An effect runs what was last recorded as an effect of its name.
pub proof fn law_an_effect_runs_what_was_recorded_last(recorded: Seq<DeclarationRow>, name: Seq<char>)
    ensures
        match running_hash(recorded, name) {
            Some(hash) => exists|at: int|
                0 <= at < recorded.len() && (#[trigger] recorded[at]).kind@ == "effect"@ && recorded[at].name@
                    == name && recorded[at].hash@ == hash && forall|i: int|
                    at < i < recorded.len() ==> !((#[trigger] recorded[i]).kind@ == "effect"@
                        && recorded[i].name@ == name),
            None => forall|i: int|
                0 <= i < recorded.len() ==> !((#[trigger] recorded[i]).kind@ == "effect"@ && recorded[i].name@
                    == name),
        },
    decreases recorded.len(),
{
    if recorded.len() > 0 {
        let rest = recorded.drop_last();
        let last = recorded.last();
        lemma_effect_word(last.kind@);
        if last.kind@ == "effect"@ && last.name@ == name {
            assert(recorded[recorded.len() - 1].kind@ == "effect"@);
        } else {
            law_an_effect_runs_what_was_recorded_last(rest, name);
            assert forall|i: int| 0 <= i < rest.len() implies #[trigger] recorded[i] == rest[i] by {}
            if let Some(hash) = running_hash(rest, name) {
                let at = choose|at: int|
                    0 <= at < rest.len() && (#[trigger] rest[at]).kind@ == "effect"@ && rest[at].name@ == name
                        && rest[at].hash@ == hash && forall|i: int|
                        at < i < rest.len() ==> !((#[trigger] rest[i]).kind@ == "effect"@ && rest[i].name@
                            == name);
                assert(recorded[at].kind@ == "effect"@);
                assert forall|i: int| at < i < recorded.len() implies !((#[trigger] recorded[i]).kind@
                    == "effect"@ && recorded[i].name@ == name) by {
                    if i < rest.len() {
                        assert(rest[i] == recorded[i]);
                    }
                }
            } else {
                assert forall|i: int| 0 <= i < recorded.len() implies !((#[trigger] recorded[i]).kind@
                    == "effect"@ && recorded[i].name@ == name) by {
                    if i < rest.len() {
                        assert(rest[i] == recorded[i]);
                    }
                }
            }
        }
    }
}

proof fn lemma_effect_word(word: Seq<char>)
    ensures
        crate::digest::kind_of(word) == Some(Kind::Effect) <==> word == "effect"@,
{
    crate::laws::deploys::law_a_kind_reads_back_from_its_word(Kind::Effect, Kind::Effect);
}

/// The effects that are replayed are those that a deploy could move and that have a history: each
/// with the hash that it ran under, and with whether its entry reveals.
pub proof fn law_an_effect_with_a_history_is_replayed(
    entries: Seq<Entry>,
    effects: Seq<Seq<char>>,
    affected: Seq<(usize, usize)>,
    recorded: Seq<DeclarationRow>,
    one: (Seq<char>, Seq<char>, bool),
)
    ensures
        with_history(entries, effects, affected, recorded).contains(one) <==> exists|i: int|
            0 <= i < affected.len() && effects[(#[trigger] affected[i]).0 as int] == one.0 && running_hash(
                recorded,
                one.0,
            ) == Some(one.1) && one.2 == uses(entries[affected[i].1 as int].form, "reveal"@),
        with_history(entries, effects, affected, recorded).len() <= affected.len(),
    decreases affected.len(),
{
    if affected.len() > 0 {
        let rest = affected.drop_last();
        law_an_effect_with_a_history_is_replayed(entries, effects, rest, recorded, one);
        let had = with_history(entries, effects, rest, recorded);
        let all = with_history(entries, effects, affected, recorded);
        let (effect, entry) = affected.last();
        let name = effects[effect as int];
        assert forall|i: int| 0 <= i < rest.len() implies #[trigger] affected[i] == rest[i] by {}
        assert(affected[affected.len() - 1] == affected.last());
        if had.contains(one) {
            let k = choose|k: int| 0 <= k < had.len() && had[k] == one;
            assert(all[k] == one);
            let i = choose|i: int|
                0 <= i < rest.len() && effects[(#[trigger] rest[i]).0 as int] == one.0 && running_hash(
                    recorded,
                    one.0,
                ) == Some(one.1) && one.2 == uses(entries[rest[i].1 as int].form, "reveal"@);
            assert(affected[i] == rest[i]);
        }
        if let Some(hash) = running_hash(recorded, name) {
            let own = (name, hash, uses(entries[entry as int].form, "reveal"@));
            assert(all == had.push(own));
            if own == one {
                assert(all[had.len() as int] == one);
            }
            if all.contains(one) && own != one {
                let k = choose|k: int| 0 <= k < all.len() && all[k] == one;
                assert(had[k] == one);
            }
        }
        if exists|i: int|
            0 <= i < affected.len() && effects[(#[trigger] affected[i]).0 as int] == one.0 && running_hash(
                recorded,
                one.0,
            ) == Some(one.1) && one.2 == uses(entries[affected[i].1 as int].form, "reveal"@) {
            let i = choose|i: int|
                0 <= i < affected.len() && effects[(#[trigger] affected[i]).0 as int] == one.0 && running_hash(
                    recorded,
                    one.0,
                ) == Some(one.1) && one.2 == uses(entries[affected[i].1 as int].form, "reveal"@);
            if i < rest.len() {
                assert(rest[i] == affected[i]);
            }
        }
    }
}

/// A form uses a word exactly where a list in it, itself or inside, is headed by the word.
pub proof fn law_a_form_uses_the_words_that_head_its_lists(form: Sexp, word: Seq<char>)
    ensures
        uses(form, word) <==> match form {
            Sexp::List(items) => (items.len() > 0 && (items@[0] matches Sexp::Atom(head) && head@ == word))
                || exists|i: int| 0 <= i < items.len() && uses(#[trigger] items@[i], word),
            _ => false,
        },
{
    if let Sexp::List(items) = form {
        lemma_any_uses(items@, word);
    }
}

proof fn lemma_any_uses(items: Seq<Sexp>, word: Seq<char>)
    ensures
        crate::digest::any_uses(items, word) <==> exists|i: int|
            0 <= i < items.len() && uses(#[trigger] items[i], word),
    decreases items.len(),
{
    if items.len() > 0 {
        let rest = items.drop_last();
        lemma_any_uses(rest, word);
        assert forall|i: int| 0 <= i < rest.len() implies #[trigger] items[i] == rest[i] by {}
        if exists|i: int| 0 <= i < rest.len() && uses(#[trigger] rest[i], word) {
            let i = choose|i: int| 0 <= i < rest.len() && uses(#[trigger] rest[i], word);
            assert(uses(items[i], word));
        }
        if exists|i: int| 0 <= i < items.len() && uses(#[trigger] items[i], word) {
            let i = choose|i: int| 0 <= i < items.len() && uses(#[trigger] items[i], word);
            if i < rest.len() {
                assert(uses(rest[i], word));
            }
        }
        if uses(items.last(), word) {
            assert(uses(items[items.len() - 1], word));
        }
    }
}

/// Divergences stand by effect, and those of one effect by position.
pub proof fn law_divergences_stand_by_effect_and_position(a: Divergence, b: Divergence)
    ensures
        a.effect@ == b.effect@ ==> (divergence_before(a, b) <==> a.position < b.position),
        a.effect@ != b.effect@ ==> (divergence_before(a, b) <==> precedes(a.effect@, b.effect@)),
        !(divergence_before(a, b) && divergence_before(b, a)),
{
    if precedes(a.effect@, b.effect@) && precedes(b.effect@, a.effect@) {
        crate::text::lemma_precedes_transitive(a.effect@, b.effect@, a.effect@);
        crate::text::lemma_precedes_irreflexive(a.effect@);
    }
}

// ---------------------------------------------------------------------------
// Batches
// ---------------------------------------------------------------------------

/// What an operation comes to: nothing where its entity is not declared or its statement cannot be
/// made, and otherwise its statement, if there is one.
pub open spec fn op_result(entities: Seq<EntityDef>, op: EntityOp) -> Result<
    Seq<StatementView>,
    BatchErrorView,
> {
    match entity_named(entities, op.entity@) {
        None => Err(BatchErrorView::Undeclared),
        Some(entity) => match op_statement(entity, op.kind) {
            Ok(Some(statement)) => Ok(seq![statement]),
            Ok(None) => Ok(Seq::empty()),
            Err(error) => Err(BatchErrorView::Apply { entity: entity.name@, error }),
        },
    }
}

/// The operations of a handler come to their statements, one behind the other, and the first that
/// cannot be applied ends it.
pub proof fn law_operations_apply_in_order(entities: Seq<EntityDef>, ops: Seq<EntityOp>, op: EntityOp)
    ensures
        ops_statements(entities, Seq::empty()) == Ok::<Seq<StatementView>, BatchErrorView>(Seq::empty()),
        ops_statements(entities, ops.push(op)) == match (
            ops_statements(entities, ops),
            op_result(entities, op),
        ) {
            (Err(error), _) => Err(error),
            (Ok(earlier), Ok(own)) => Ok(earlier + own),
            (Ok(_), Err(error)) => Err(error),
        },
{
    assert(ops.push(op).drop_last() =~= ops);
    if let Ok(earlier) = ops_statements(entities, ops) {
        assert(earlier + Seq::<StatementView>::empty() =~= earlier);
        if let Some(entity) = entity_named(entities, op.entity@) {
            if let Ok(Some(statement)) = op_statement(entity, op.kind) {
                assert(earlier + seq![statement] =~= earlier.push(statement));
            }
        }
    }
}

/// The arms that have been run on the current event once some of them were.
pub open spec fn ran_so_far(place: BatchPlace) -> Seq<usize> {
    match place.1 {
        Some(arms) => arms.take(place.2 as int),
        None => Seq::empty(),
    }
}

/// An event that no arm selects is passed by. On any other its arms are run one after the other, from
/// the first to the last, and only then is the next event turned to.
pub proof fn law_a_batch_runs_every_arm_of_an_event(place: BatchPlace, selects: Seq<bool>)
    requires
        place.1 is None,
    ensures
        ({
            let at = after_selecting(place, selects);
            &&& (forall|i: int| 0 <= i < selects.len() ==> !#[trigger] selects[i]) ==> at == (
                place.0 + 1,
                None::<Seq<usize>>,
                0nat,
            )
            &&& at.1 matches Some(arms) ==> at.0 == place.0 && at.2 == 0 && arms.len() > 0
            &&& at.1 is None ==> at.0 == place.0 + 1
        }),
{
    if forall|i: int| 0 <= i < selects.len() ==> !#[trigger] selects[i] {
        lemma_no_places(selects);
    }
}

proof fn lemma_no_places(selects: Seq<bool>)
    requires
        forall|i: int| 0 <= i < selects.len() ==> !#[trigger] selects[i],
    ensures
        places(selects).len() == 0,
    decreases selects.len(),
{
    if selects.len() > 0 {
        assert(!selects[selects.len() - 1]);
        assert forall|i: int| 0 <= i < selects.drop_last().len() implies !#[trigger] selects.drop_last()[i] by {
            assert(!selects[i]);
        }
        lemma_no_places(selects.drop_last());
    }
}

/// Running an arm moves to the next one of the same event, and behind the last of them to the next
/// event.
pub proof fn law_a_batch_moves_on_behind_the_last_arm(place: BatchPlace)
    requires
        place.1 matches Some(arms) && place.2 < arms.len(),
    ensures
        ({
            let arms = place.1->0;
            let next = after_running(place);
            &&& next.1 is None <==> place.2 == arms.len() - 1
            &&& next.1 is None ==> next.0 == place.0 + 1
            &&& next.1 is Some ==> next.0 == place.0 && next.1 == place.1 && ran_so_far(next) == ran_so_far(
                place,
            ).push(arms[place.2 as int])
        }),
{
    let arms = place.1->0;
    let next = after_running(place);
    if next.1 is Some {
        assert(arms.take(place.2 as int + 1) =~= arms.take(place.2 as int).push(arms[place.2 as int]));
    }
}

} // verus!
