//! Metrics: what a scrape says of what runs, and what an outcome is counted as.

use vstd::prelude::*;

use crate::metrics::{
    all_commands, all_effects, all_projectors, class_of, command_samples, described, effect_count_samples,
    effect_position_samples, effect_samples, entity_samples, event_samples, http_samples, lag, process_samples,
    projector_samples, scraped, state_samples, BUILD_INFO, COMMANDS, COMMAND_CONFLICT_RETRIES, COMMAND_REFUSALS,
    EFFECT_BACKOFF, EFFECT_COLLAPSED, EFFECT_FAILURES, EFFECT_HTTP, EFFECT_INVOCATIONS, EFFECT_LAG,
    EFFECT_LIVE_SUPPRESSED, EFFECT_POSITION, EFFECT_PROGRESS, EFFECT_RESTARTS, EFFECT_STATE, EFFECT_TERMINAL_SKIPS,
    EFFECT_UP, EVENTS_APPENDED, EffectGauges, LOG_HEAD, Loaded, MODULE_INFO, PROJECTOR_EVENTS, PROJECTOR_LAG,
    PROJECTOR_POSITION, PROJECTOR_PROGRESS, PROJECTOR_READINESS, PROJECTOR_REBUILDS, PROJECTOR_UP, ProjectorGauges,
    READS, READ_WAITS, Reading, SampleView, Scrape, UPTIME, WEDGED_LANES,
};
use crate::runtime::{outcome_counts, outcome_word, CommandOutcome};
use crate::text::views;

verus! {

// ---------------------------------------------------------------------------
// Where a sample stands
// ---------------------------------------------------------------------------

proof fn lemma_in_front(first: Seq<SampleView>, second: Seq<SampleView>, sample: SampleView)
    requires
        first.contains(sample),
    ensures
        (first + second).contains(sample),
{
    let i = choose|i: int| 0 <= i < first.len() && first[i] == sample;
    assert((first + second)[i] == sample);
}

proof fn lemma_behind(first: Seq<SampleView>, second: Seq<SampleView>, sample: SampleView)
    requires
        second.contains(sample),
    ensures
        (first + second).contains(sample),
{
    let i = choose|i: int| 0 <= i < second.len() && second[i] == sample;
    assert((first + second)[first.len() + i] == sample);
}

proof fn lemma_projector_in(projectors: Seq<ProjectorGauges>, head: u64, at: int, sample: SampleView)
    requires
        0 <= at < projectors.len(),
        projector_samples(projectors[at], head).contains(sample) || entity_samples(
            projectors[at].name@,
            views(projectors[at].entities@),
        ).contains(sample),
    ensures
        all_projectors(projectors, head).contains(sample),
    decreases projectors.len(),
{
    let rest = projectors.drop_last();
    let last = projectors.last();
    let before = all_projectors(rest, head);
    let own = projector_samples(last, head);
    let entities = entity_samples(last.name@, views(last.entities@));
    if at == rest.len() {
        if own.contains(sample) {
            lemma_behind(before, own, sample);
            lemma_in_front(before + own, entities, sample);
        } else {
            lemma_behind(before + own, entities, sample);
        }
    } else {
        lemma_projector_in(rest, head, at, sample);
        lemma_in_front(before, own, sample);
        lemma_in_front(before + own, entities, sample);
    }
}

proof fn lemma_effect_in(effects: Seq<EffectGauges>, head: u64, states: Seq<Seq<char>>, at: int, sample: SampleView)
    requires
        0 <= at < effects.len(),
        effect_samples(effects[at], head, states).contains(sample),
    ensures
        all_effects(effects, head, states).contains(sample),
    decreases effects.len(),
{
    let rest = effects.drop_last();
    let own = effect_samples(effects.last(), head, states);
    if at == rest.len() {
        lemma_behind(all_effects(rest, head, states), own, sample);
    } else {
        lemma_effect_in(rest, head, states, at, sample);
        lemma_in_front(all_effects(rest, head, states), own, sample);
    }
}

proof fn lemma_command_in(commands: Seq<Loaded>, at: int, sample: SampleView)
    requires
        0 <= at < commands.len(),
        command_samples(commands[at]).contains(sample),
    ensures
        all_commands(commands).contains(sample),
    decreases commands.len(),
{
    let rest = commands.drop_last();
    let own = command_samples(commands.last());
    if at == rest.len() {
        lemma_behind(all_commands(rest), own, sample);
    } else {
        lemma_command_in(rest, at, sample);
        lemma_in_front(all_commands(rest), own, sample);
    }
}

proof fn lemma_part_of_scrape(scrape: Scrape, sample: SampleView)
    requires
        process_samples(scrape).contains(sample) || event_samples(views(scrape.events@)).contains(sample)
            || all_commands(scrape.commands@).contains(sample) || all_projectors(
            scrape.projectors@,
            scrape.log_head,
        ).contains(sample) || all_effects(
            scrape.effects@,
            scrape.log_head,
            views(scrape.effect_states@),
        ).contains(sample) || http_samples().contains(sample),
    ensures
        scraped(scrape).contains(sample),
{
    let a = process_samples(scrape);
    let b = event_samples(views(scrape.events@));
    let c = all_commands(scrape.commands@);
    let d = all_projectors(scrape.projectors@, scrape.log_head);
    let e = all_effects(scrape.effects@, scrape.log_head, views(scrape.effect_states@));
    let f = http_samples();
    if a.contains(sample) {
        lemma_in_front(a, b, sample);
        lemma_in_front(a + b, c, sample);
        lemma_in_front(a + b + c, d, sample);
        lemma_in_front(a + b + c + d, e, sample);
        lemma_in_front(a + b + c + d + e, f, sample);
    } else if b.contains(sample) {
        lemma_behind(a, b, sample);
        lemma_in_front(a + b, c, sample);
        lemma_in_front(a + b + c, d, sample);
        lemma_in_front(a + b + c + d, e, sample);
        lemma_in_front(a + b + c + d + e, f, sample);
    } else if c.contains(sample) {
        lemma_behind(a + b, c, sample);
        lemma_in_front(a + b + c, d, sample);
        lemma_in_front(a + b + c + d, e, sample);
        lemma_in_front(a + b + c + d + e, f, sample);
    } else if d.contains(sample) {
        lemma_behind(a + b + c, d, sample);
        lemma_in_front(a + b + c + d, e, sample);
        lemma_in_front(a + b + c + d + e, f, sample);
    } else if e.contains(sample) {
        lemma_behind(a + b + c + d, e, sample);
        lemma_in_front(a + b + c + d + e, f, sample);
    } else {
        lemma_behind(a + b + c + d + e, f, sample);
    }
}

// ---------------------------------------------------------------------------
// Scrapes
// ---------------------------------------------------------------------------

/// How far behind the head a position is: the two make up the head, and what is past it is not behind.
pub open spec fn is_behind(head: u64, position: u64, behind: u64) -> bool {
    if position <= head {
        position + behind == head
    } else {
        behind == 0
    }
}

/// Whether a scrape sets a gauge of one name.
pub open spec fn sets_gauge(scrape: Scrape, metric: Seq<char>, name: Seq<char>, level: u64) -> bool {
    scraped(scrape).contains((metric, seq![("name"@, name)], Reading::Level(level)))
}

/// Whether a scrape raises a counter of one name to a total.
pub open spec fn raises(scrape: Scrape, metric: Seq<char>, name: Seq<char>, total: u64) -> bool {
    scraped(scrape).contains((metric, seq![("name"@, name)], Reading::Raise(total)))
}

/// A scrape says of every projector where it stands, how far that is behind the head, and whether it
/// is up: running, and without a failure.
pub proof fn law_a_scrape_reports_every_projector(scrape: Scrape, at: int)
    requires
        0 <= at < scrape.projectors.len(),
    ensures
        ({
            let projector = scrape.projectors@[at];
            let name = projector.name@;
            &&& sets_gauge(scrape, "hekla_projector_position"@, name, projector.position)
            &&& exists|behind: u64|
                is_behind(scrape.log_head, projector.position, behind) && #[trigger] sets_gauge(
                    scrape,
                    "hekla_projector_lag"@,
                    name,
                    behind,
                )
            &&& sets_gauge(
                scrape,
                "hekla_projector_up"@,
                name,
                if projector.running && !projector.failed {
                    1
                } else {
                    0
                },
            )
        }),
{
    let projector = scrape.projectors@[at];
    let head = scrape.log_head;
    let own = projector_samples(projector, head);
    let behind = lag(head, projector.position);
    assert(own.contains(own[1]) && own.contains(own[2]) && own.contains(own[3]));
    lemma_projector_in(scrape.projectors@, head, at, own[1]);
    lemma_projector_in(scrape.projectors@, head, at, own[2]);
    lemma_projector_in(scrape.projectors@, head, at, own[3]);
    lemma_part_of_scrape(scrape, own[1]);
    lemma_part_of_scrape(scrape, own[2]);
    lemma_part_of_scrape(scrape, own[3]);
    assert(is_behind(head, projector.position, behind) && sets_gauge(
        scrape,
        "hekla_projector_lag"@,
        projector.name@,
        behind,
    ));
}

/// A scrape says of every effect where it stands, how far that is behind the head, whether it runs, how
/// many of its lanes fail, and what it passed by.
pub proof fn law_a_scrape_reports_every_effect(scrape: Scrape, at: int)
    requires
        0 <= at < scrape.effects.len(),
    ensures
        ({
            let effect = scrape.effects@[at];
            let name = effect.name@;
            &&& sets_gauge(scrape, "hekla_effect_position"@, name, effect.position)
            &&& exists|behind: u64|
                is_behind(scrape.log_head, effect.position, behind) && #[trigger] sets_gauge(
                    scrape,
                    "hekla_effect_lag"@,
                    name,
                    behind,
                )
            &&& sets_gauge(
                scrape,
                "hekla_effect_up"@,
                name,
                if effect.running {
                    1
                } else {
                    0
                },
            )
            &&& sets_gauge(scrape, "hekla_effect_wedged_lanes"@, name, effect.wedged_lanes)
            &&& sets_gauge(scrape, "hekla_effect_consecutive_failures"@, name, effect.consecutive_failures)
            &&& raises(scrape, "hekla_effect_terminal_skips_total"@, name, effect.terminal_skips)
            &&& raises(scrape, "hekla_effect_live_suppressed_total"@, name, effect.live_suppressed)
            &&& raises(scrape, "hekla_effect_collapsed_total"@, name, effect.latest_collapsed)
        }),
{
    let effect = scrape.effects@[at];
    let head = scrape.log_head;
    let states = views(scrape.effect_states@);
    let first = effect_position_samples(effect, head);
    let second = state_samples(effect, states);
    let third = effect_count_samples(effect);
    let behind = lag(head, effect.position);
    lemma_effect_first(scrape, at, first[1]);
    lemma_effect_first(scrape, at, first[2]);
    lemma_effect_first(scrape, at, first[3]);
    lemma_effect_third(scrape, at, third[0]);
    lemma_effect_third(scrape, at, third[1]);
    lemma_effect_third(scrape, at, third[3]);
    lemma_effect_third(scrape, at, third[4]);
    lemma_effect_third(scrape, at, third[5]);
    assert(is_behind(head, effect.position, behind) && sets_gauge(
        scrape,
        "hekla_effect_lag"@,
        effect.name@,
        behind,
    ));
}

proof fn lemma_effect_first(scrape: Scrape, at: int, sample: SampleView)
    requires
        0 <= at < scrape.effects.len(),
        exists|k: int|
            0 <= k < effect_position_samples(scrape.effects@[at], scrape.log_head).len()
                && #[trigger] effect_position_samples(scrape.effects@[at], scrape.log_head)[k] == sample,
    ensures
        scraped(scrape).contains(sample),
{
    let effect = scrape.effects@[at];
    let states = views(scrape.effect_states@);
    let first = effect_position_samples(effect, scrape.log_head);
    assert(first.contains(sample));
    lemma_in_front(first, state_samples(effect, states), sample);
    lemma_in_front(first + state_samples(effect, states), effect_count_samples(effect), sample);
    lemma_effect_in(scrape.effects@, scrape.log_head, states, at, sample);
    lemma_part_of_scrape(scrape, sample);
}

proof fn lemma_effect_third(scrape: Scrape, at: int, sample: SampleView)
    requires
        0 <= at < scrape.effects.len(),
        exists|k: int|
            0 <= k < effect_count_samples(scrape.effects@[at]).len() && #[trigger] effect_count_samples(
                scrape.effects@[at],
            )[k] == sample,
    ensures
        scraped(scrape).contains(sample),
{
    let effect = scrape.effects@[at];
    let states = views(scrape.effect_states@);
    let first = effect_position_samples(effect, scrape.log_head);
    let third = effect_count_samples(effect);
    assert(third.contains(sample));
    lemma_behind(first + state_samples(effect, states), third, sample);
    lemma_effect_in(scrape.effects@, scrape.log_head, states, at, sample);
    lemma_part_of_scrape(scrape, sample);
}

/// An effect is in one of its states: a scrape sets that one, and clears every other.
pub proof fn law_an_effect_is_in_one_state(scrape: Scrape, at: int, state: int)
    requires
        0 <= at < scrape.effects.len(),
        0 <= state < scrape.effect_states.len(),
    ensures
        scraped(scrape).contains(
            (
                "hekla_effect_state"@,
                seq![
                    ("name"@, scrape.effects@[at].name@),
                    ("state"@, scrape.effect_states@[state]@),
                ],
                Reading::Level(
                    if scrape.effect_states@[state]@ == scrape.effects@[at].state@ {
                        1
                    } else {
                        0
                    },
                ),
            ),
        ),
{
    let effect = scrape.effects@[at];
    let states = views(scrape.effect_states@);
    let first = effect_position_samples(effect, scrape.log_head);
    let second = state_samples(effect, states);
    let sample = second[state];
    assert(second.contains(sample));
    lemma_behind(first, second, sample);
    lemma_in_front(first + second, effect_count_samples(effect), sample);
    lemma_effect_in(scrape.effects@, scrape.log_head, states, at, sample);
    lemma_part_of_scrape(scrape, sample);
}

/// Every outcome that a command can come to is there from the start, at nothing, so that it can be
/// watched before it first occurs.
pub proof fn law_every_outcome_is_there_from_the_start(scrape: Scrape, at: int, outcome: CommandOutcome)
    requires
        0 <= at < scrape.commands.len(),
    ensures
        scraped(scrape).contains(
            (
                "hekla_commands_total"@,
                seq![("command"@, scrape.commands@[at].name@), ("outcome"@, outcome_word(outcome))],
                Reading::Add(0),
            ),
        ),
{
    let own = command_samples(scrape.commands@[at]);
    let k: int = match outcome {
        CommandOutcome::Committed { .. } => 1,
        CommandOutcome::AlreadyCommitted(_) => 2,
        CommandOutcome::Rejected { .. } => 3,
        CommandOutcome::InvalidInput { .. } => 4,
        CommandOutcome::Conflict => 5,
        CommandOutcome::Unavailable { .. } => 6,
    };
    assert(own.contains(own[k]));
    lemma_command_in(scrape.commands@, at, own[k]);
    lemma_part_of_scrape(scrape, own[k]);
}

// ---------------------------------------------------------------------------
// Counts
// ---------------------------------------------------------------------------

/// An outcome is counted once under its own word. Beside that, each event that it appended is counted
/// under its type, and a rejection under its code. What was recovered appended nothing.
pub proof fn law_an_outcome_is_counted_once(command: Seq<char>, outcome: CommandOutcome)
    ensures
        ({
            let counts = outcome_counts(command, outcome);
            &&& counts[0] == (
                "hekla_commands_total"@,
                seq![("command"@, command), ("outcome"@, outcome_word(outcome))],
                Reading::Add(1),
            )
            &&& outcome matches CommandOutcome::Committed { events, .. } ==> counts.len() == events.len() + 1
                && forall|i: int|
                0 <= i < events.len() ==> #[trigger] counts[i + 1] == (
                    "hekla_events_appended_total"@,
                    seq![("event"@, events@[i].event_type@)],
                    Reading::Add(1),
                )
            &&& outcome matches CommandOutcome::Rejected { code, .. } ==> counts.len() == 2 && counts[1] == (
                "hekla_command_refusals_total"@,
                seq![("command"@, command), ("code"@, code@)],
                Reading::Add(1),
            )
            &&& !(outcome is Committed) && !(outcome is Rejected) ==> counts.len() == 1
        }),
{
}

/// No two outcomes are counted under the same word.
pub proof fn law_outcomes_are_counted_apart(a: CommandOutcome, b: CommandOutcome)
    ensures
        outcome_word(a) == outcome_word(b) <==> (a is Conflict && b is Conflict) || (a is Committed && b is Committed)
            || (a is AlreadyCommitted && b is AlreadyCommitted) || (a is Rejected && b is Rejected) || (
        a is InvalidInput && b is InvalidInput) || (a is Unavailable && b is Unavailable),
{
    lemma_outcome_words();
}

/// A response is counted in the class of its status: under its first digit where that is a known one,
/// and as an error in every other case.
pub proof fn law_a_response_is_counted_in_its_class(code: u16)
    ensures
        200 <= code <= 599 ==> class_of(Some(code)).len() == 3 && class_of(Some(code))[0] as int == '0' as int + code
            / 100 && class_of(Some(code))[1] == 'x' && class_of(Some(code))[2] == 'x',
        !(200 <= code <= 599) ==> class_of(Some(code)) == class_of(None),
        class_of(None) == "error"@,
{
    reveal_strlit("2xx");
    reveal_strlit("3xx");
    reveal_strlit("4xx");
    reveal_strlit("5xx");
}

proof fn lemma_outcome_words()
    ensures
        "conflict"@ != "committed"@,
        "conflict"@ != "already_committed"@,
        "conflict"@ != "rejected"@,
        "conflict"@ != "invalid_input"@,
        "conflict"@ != "unavailable"@,
        "committed"@ != "already_committed"@,
        "committed"@ != "rejected"@,
        "committed"@ != "invalid_input"@,
        "committed"@ != "unavailable"@,
        "already_committed"@ != "rejected"@,
        "already_committed"@ != "invalid_input"@,
        "already_committed"@ != "unavailable"@,
        "rejected"@ != "invalid_input"@,
        "rejected"@ != "unavailable"@,
        "invalid_input"@ != "unavailable"@,
{
    reveal_strlit("conflict");
    reveal_strlit("committed");
    reveal_strlit("already_committed");
    reveal_strlit("rejected");
    reveal_strlit("invalid_input");
    reveal_strlit("unavailable");
    assert("conflict"@.len() == 8);
    assert("committed"@.len() == 9);
    assert("already_committed"@.len() == 17);
    assert("rejected"@.len() == 8);
    assert("invalid_input"@.len() == 13);
    assert("unavailable"@.len() == 11);
    assert("conflict"@[0] == 'c');
    assert("rejected"@[0] == 'r');
}

/// Whether a metric is named a total.
pub open spec fn is_a_total(name: Seq<char>) -> bool {
    let n = name.len() as int;
    &&& n > 6
    &&& name[n - 6] == '_'
    &&& name[n - 5] == 't'
    &&& name[n - 4] == 'o'
    &&& name[n - 3] == 't'
    &&& name[n - 2] == 'a'
    &&& name[n - 1] == 'l'
}

proof fn lemma_named_build_info()
    ensures
        !is_a_total(BUILD_INFO@),
{
    reveal_strlit("hekla_build_info");
    assert("hekla_build_info"@.len() == 16);
    assert("hekla_build_info"@[15] == 'o');
}

proof fn lemma_named_uptime()
    ensures
        !is_a_total(UPTIME@),
{
    reveal_strlit("hekla_uptime_seconds");
    assert("hekla_uptime_seconds"@.len() == 20);
    assert("hekla_uptime_seconds"@[19] == 's');
}

proof fn lemma_named_log_head()
    ensures
        !is_a_total(LOG_HEAD@),
{
    reveal_strlit("hekla_log_head_position");
    assert("hekla_log_head_position"@.len() == 23);
    assert("hekla_log_head_position"@[22] == 'n');
}

proof fn lemma_named_events_appended()
    ensures
        is_a_total(EVENTS_APPENDED@),
{
    reveal_strlit("hekla_events_appended_total");
    assert("hekla_events_appended_total"@.len() == 27);
    assert("hekla_events_appended_total"@[21] == '_');
    assert("hekla_events_appended_total"@[22] == 't');
    assert("hekla_events_appended_total"@[23] == 'o');
    assert("hekla_events_appended_total"@[24] == 't');
    assert("hekla_events_appended_total"@[25] == 'a');
    assert("hekla_events_appended_total"@[26] == 'l');
}

proof fn lemma_named_module_info()
    ensures
        !is_a_total(MODULE_INFO@),
{
    reveal_strlit("hekla_module_info");
    assert("hekla_module_info"@.len() == 17);
    assert("hekla_module_info"@[16] == 'o');
}

proof fn lemma_named_commands()
    ensures
        is_a_total(COMMANDS@),
{
    reveal_strlit("hekla_commands_total");
    assert("hekla_commands_total"@.len() == 20);
    assert("hekla_commands_total"@[14] == '_');
    assert("hekla_commands_total"@[15] == 't');
    assert("hekla_commands_total"@[16] == 'o');
    assert("hekla_commands_total"@[17] == 't');
    assert("hekla_commands_total"@[18] == 'a');
    assert("hekla_commands_total"@[19] == 'l');
}

proof fn lemma_named_command_refusals()
    ensures
        is_a_total(COMMAND_REFUSALS@),
{
    reveal_strlit("hekla_command_refusals_total");
    assert("hekla_command_refusals_total"@.len() == 28);
    assert("hekla_command_refusals_total"@[22] == '_');
    assert("hekla_command_refusals_total"@[23] == 't');
    assert("hekla_command_refusals_total"@[24] == 'o');
    assert("hekla_command_refusals_total"@[25] == 't');
    assert("hekla_command_refusals_total"@[26] == 'a');
    assert("hekla_command_refusals_total"@[27] == 'l');
}

proof fn lemma_named_command_conflict_retries()
    ensures
        is_a_total(COMMAND_CONFLICT_RETRIES@),
{
    reveal_strlit("hekla_command_conflict_retries_total");
    assert("hekla_command_conflict_retries_total"@.len() == 36);
    assert("hekla_command_conflict_retries_total"@[30] == '_');
    assert("hekla_command_conflict_retries_total"@[31] == 't');
    assert("hekla_command_conflict_retries_total"@[32] == 'o');
    assert("hekla_command_conflict_retries_total"@[33] == 't');
    assert("hekla_command_conflict_retries_total"@[34] == 'a');
    assert("hekla_command_conflict_retries_total"@[35] == 'l');
}

proof fn lemma_named_projector_up()
    ensures
        !is_a_total(PROJECTOR_UP@),
{
    reveal_strlit("hekla_projector_up");
    assert("hekla_projector_up"@.len() == 18);
    assert("hekla_projector_up"@[17] == 'p');
}

proof fn lemma_named_projector_position()
    ensures
        !is_a_total(PROJECTOR_POSITION@),
{
    reveal_strlit("hekla_projector_position");
    assert("hekla_projector_position"@.len() == 24);
    assert("hekla_projector_position"@[23] == 'n');
}

proof fn lemma_named_projector_lag()
    ensures
        !is_a_total(PROJECTOR_LAG@),
{
    reveal_strlit("hekla_projector_lag");
    assert("hekla_projector_lag"@.len() == 19);
    assert("hekla_projector_lag"@[18] == 'g');
}

proof fn lemma_named_projector_readiness()
    ensures
        !is_a_total(PROJECTOR_READINESS@),
{
    reveal_strlit("hekla_projector_readiness");
    assert("hekla_projector_readiness"@.len() == 25);
    assert("hekla_projector_readiness"@[24] == 's');
}

proof fn lemma_named_projector_events()
    ensures
        is_a_total(PROJECTOR_EVENTS@),
{
    reveal_strlit("hekla_projector_events_total");
    assert("hekla_projector_events_total"@.len() == 28);
    assert("hekla_projector_events_total"@[22] == '_');
    assert("hekla_projector_events_total"@[23] == 't');
    assert("hekla_projector_events_total"@[24] == 'o');
    assert("hekla_projector_events_total"@[25] == 't');
    assert("hekla_projector_events_total"@[26] == 'a');
    assert("hekla_projector_events_total"@[27] == 'l');
}

proof fn lemma_named_projector_rebuilds()
    ensures
        is_a_total(PROJECTOR_REBUILDS@),
{
    reveal_strlit("hekla_projector_rebuilds_total");
    assert("hekla_projector_rebuilds_total"@.len() == 30);
    assert("hekla_projector_rebuilds_total"@[24] == '_');
    assert("hekla_projector_rebuilds_total"@[25] == 't');
    assert("hekla_projector_rebuilds_total"@[26] == 'o');
    assert("hekla_projector_rebuilds_total"@[27] == 't');
    assert("hekla_projector_rebuilds_total"@[28] == 'a');
    assert("hekla_projector_rebuilds_total"@[29] == 'l');
}

proof fn lemma_named_projector_progress()
    ensures
        !is_a_total(PROJECTOR_PROGRESS@),
{
    reveal_strlit("hekla_projector_last_progress_timestamp_seconds");
    assert("hekla_projector_last_progress_timestamp_seconds"@.len() == 47);
    assert("hekla_projector_last_progress_timestamp_seconds"@[46] == 's');
}

proof fn lemma_named_effect_up()
    ensures
        !is_a_total(EFFECT_UP@),
{
    reveal_strlit("hekla_effect_up");
    assert("hekla_effect_up"@.len() == 15);
    assert("hekla_effect_up"@[14] == 'p');
}

proof fn lemma_named_effect_position()
    ensures
        !is_a_total(EFFECT_POSITION@),
{
    reveal_strlit("hekla_effect_position");
    assert("hekla_effect_position"@.len() == 21);
    assert("hekla_effect_position"@[20] == 'n');
}

proof fn lemma_named_effect_lag()
    ensures
        !is_a_total(EFFECT_LAG@),
{
    reveal_strlit("hekla_effect_lag");
    assert("hekla_effect_lag"@.len() == 16);
    assert("hekla_effect_lag"@[15] == 'g');
}

proof fn lemma_named_effect_state()
    ensures
        !is_a_total(EFFECT_STATE@),
{
    reveal_strlit("hekla_effect_state");
    assert("hekla_effect_state"@.len() == 18);
    assert("hekla_effect_state"@[17] == 'e');
}

proof fn lemma_named_wedged_lanes()
    ensures
        !is_a_total(WEDGED_LANES@),
{
    reveal_strlit("hekla_effect_wedged_lanes");
    assert("hekla_effect_wedged_lanes"@.len() == 25);
    assert("hekla_effect_wedged_lanes"@[24] == 's');
}

proof fn lemma_named_effect_failures()
    ensures
        !is_a_total(EFFECT_FAILURES@),
{
    reveal_strlit("hekla_effect_consecutive_failures");
    assert("hekla_effect_consecutive_failures"@.len() == 33);
    assert("hekla_effect_consecutive_failures"@[32] == 's');
}

proof fn lemma_named_effect_backoff()
    ensures
        !is_a_total(EFFECT_BACKOFF@),
{
    reveal_strlit("hekla_effect_retry_backoff_seconds");
    assert("hekla_effect_retry_backoff_seconds"@.len() == 34);
    assert("hekla_effect_retry_backoff_seconds"@[33] == 's');
}

proof fn lemma_named_effect_invocations()
    ensures
        is_a_total(EFFECT_INVOCATIONS@),
{
    reveal_strlit("hekla_effect_invocations_total");
    assert("hekla_effect_invocations_total"@.len() == 30);
    assert("hekla_effect_invocations_total"@[24] == '_');
    assert("hekla_effect_invocations_total"@[25] == 't');
    assert("hekla_effect_invocations_total"@[26] == 'o');
    assert("hekla_effect_invocations_total"@[27] == 't');
    assert("hekla_effect_invocations_total"@[28] == 'a');
    assert("hekla_effect_invocations_total"@[29] == 'l');
}

proof fn lemma_named_effect_restarts()
    ensures
        is_a_total(EFFECT_RESTARTS@),
{
    reveal_strlit("hekla_effect_restarts_total");
    assert("hekla_effect_restarts_total"@.len() == 27);
    assert("hekla_effect_restarts_total"@[21] == '_');
    assert("hekla_effect_restarts_total"@[22] == 't');
    assert("hekla_effect_restarts_total"@[23] == 'o');
    assert("hekla_effect_restarts_total"@[24] == 't');
    assert("hekla_effect_restarts_total"@[25] == 'a');
    assert("hekla_effect_restarts_total"@[26] == 'l');
}

proof fn lemma_named_effect_terminal_skips()
    ensures
        is_a_total(EFFECT_TERMINAL_SKIPS@),
{
    reveal_strlit("hekla_effect_terminal_skips_total");
    assert("hekla_effect_terminal_skips_total"@.len() == 33);
    assert("hekla_effect_terminal_skips_total"@[27] == '_');
    assert("hekla_effect_terminal_skips_total"@[28] == 't');
    assert("hekla_effect_terminal_skips_total"@[29] == 'o');
    assert("hekla_effect_terminal_skips_total"@[30] == 't');
    assert("hekla_effect_terminal_skips_total"@[31] == 'a');
    assert("hekla_effect_terminal_skips_total"@[32] == 'l');
}

proof fn lemma_named_effect_live_suppressed()
    ensures
        is_a_total(EFFECT_LIVE_SUPPRESSED@),
{
    reveal_strlit("hekla_effect_live_suppressed_total");
    assert("hekla_effect_live_suppressed_total"@.len() == 34);
    assert("hekla_effect_live_suppressed_total"@[28] == '_');
    assert("hekla_effect_live_suppressed_total"@[29] == 't');
    assert("hekla_effect_live_suppressed_total"@[30] == 'o');
    assert("hekla_effect_live_suppressed_total"@[31] == 't');
    assert("hekla_effect_live_suppressed_total"@[32] == 'a');
    assert("hekla_effect_live_suppressed_total"@[33] == 'l');
}

proof fn lemma_named_effect_collapsed()
    ensures
        is_a_total(EFFECT_COLLAPSED@),
{
    reveal_strlit("hekla_effect_collapsed_total");
    assert("hekla_effect_collapsed_total"@.len() == 28);
    assert("hekla_effect_collapsed_total"@[22] == '_');
    assert("hekla_effect_collapsed_total"@[23] == 't');
    assert("hekla_effect_collapsed_total"@[24] == 'o');
    assert("hekla_effect_collapsed_total"@[25] == 't');
    assert("hekla_effect_collapsed_total"@[26] == 'a');
    assert("hekla_effect_collapsed_total"@[27] == 'l');
}

proof fn lemma_named_effect_progress()
    ensures
        !is_a_total(EFFECT_PROGRESS@),
{
    reveal_strlit("hekla_effect_last_progress_timestamp_seconds");
    assert("hekla_effect_last_progress_timestamp_seconds"@.len() == 44);
    assert("hekla_effect_last_progress_timestamp_seconds"@[43] == 's');
}

proof fn lemma_named_effect_http()
    ensures
        is_a_total(EFFECT_HTTP@),
{
    reveal_strlit("hekla_effect_http_requests_total");
    assert("hekla_effect_http_requests_total"@.len() == 32);
    assert("hekla_effect_http_requests_total"@[26] == '_');
    assert("hekla_effect_http_requests_total"@[27] == 't');
    assert("hekla_effect_http_requests_total"@[28] == 'o');
    assert("hekla_effect_http_requests_total"@[29] == 't');
    assert("hekla_effect_http_requests_total"@[30] == 'a');
    assert("hekla_effect_http_requests_total"@[31] == 'l');
}

proof fn lemma_named_reads()
    ensures
        is_a_total(READS@),
{
    reveal_strlit("hekla_reads_total");
    assert("hekla_reads_total"@.len() == 17);
    assert("hekla_reads_total"@[11] == '_');
    assert("hekla_reads_total"@[12] == 't');
    assert("hekla_reads_total"@[13] == 'o');
    assert("hekla_reads_total"@[14] == 't');
    assert("hekla_reads_total"@[15] == 'a');
    assert("hekla_reads_total"@[16] == 'l');
}

proof fn lemma_named_read_waits()
    ensures
        is_a_total(READ_WAITS@),
{
    reveal_strlit("hekla_read_waits_total");
    assert("hekla_read_waits_total"@.len() == 22);
    assert("hekla_read_waits_total"@[16] == '_');
    assert("hekla_read_waits_total"@[17] == 't');
    assert("hekla_read_waits_total"@[18] == 'o');
    assert("hekla_read_waits_total"@[19] == 't');
    assert("hekla_read_waits_total"@[20] == 'a');
    assert("hekla_read_waits_total"@[21] == 'l');
}

/// Exactly the metrics that are named a total are counters: what is counted never falls.
pub proof fn law_a_counter_is_named_a_total(at: int)
    requires
        0 <= at < described().len(),
    ensures
        described()[at].1 <==> is_a_total(described()[at].0),
{
    lemma_named_build_info();
    lemma_named_uptime();
    lemma_named_log_head();
    lemma_named_events_appended();
    lemma_named_module_info();
    lemma_named_commands();
    lemma_named_command_refusals();
    lemma_named_command_conflict_retries();
    lemma_named_projector_up();
    lemma_named_projector_position();
    lemma_named_projector_lag();
    lemma_named_projector_readiness();
    lemma_named_projector_events();
    lemma_named_projector_rebuilds();
    lemma_named_projector_progress();
    lemma_named_effect_up();
    lemma_named_effect_position();
    lemma_named_effect_lag();
    lemma_named_effect_state();
    lemma_named_wedged_lanes();
    lemma_named_effect_failures();
    lemma_named_effect_backoff();
    lemma_named_effect_invocations();
    lemma_named_effect_restarts();
    lemma_named_effect_terminal_skips();
    lemma_named_effect_live_suppressed();
    lemma_named_effect_collapsed();
    lemma_named_effect_progress();
    lemma_named_effect_http();
    lemma_named_reads();
    lemma_named_read_waits();
}

} // verus!
