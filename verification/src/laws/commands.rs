//! Commands: what their outcomes are answered with, which of them a caller can run, and how
//! long a retry waits.

use vstd::prelude::*;

use crate::json::JsonView;
use crate::order::{lemma_sorted_contains, lemma_sorted_keeps, text_order};
use crate::runtime::{
    adopted, attempts_of, boot_steps, budget_of, command_for, committed_json, effect_json, effect_order,
    event_named, fresh_events, is_hidden, names_of, outcome_json, outcome_status, path_in, projector_json,
    projector_order, shown_tags, status_json, tag_text, tag_texts, window_ms, BootStep, CommandContext,
    CommandEntry, CommandOutcome, EffectStatus, PositionRange, ProjectorStatus, Purpose, RuntimeStatus,
    ADOPT_PROGRESS,
};
use crate::schema::{field_named, EmittedEvent, EventDef};
use crate::text::{decimal, views};

verus! {

// ---------------------------------------------------------------------------
// Answers
// ---------------------------------------------------------------------------

proof fn lemma_body_names()
    ensures
        "correlation_id"@ != "causation_id"@,
        "correlation_id"@ != "positions"@,
        "correlation_id"@ != "events"@,
        "correlation_id"@ != "error"@,
        "correlation_id"@ != "first"@,
        "correlation_id"@ != "last"@,
        "correlation_id"@ != "code"@,
        "correlation_id"@ != "message"@,
        "correlation_id"@ != "type"@,
        "correlation_id"@ != "tags"@,
        "causation_id"@ != "positions"@,
        "causation_id"@ != "events"@,
        "causation_id"@ != "error"@,
        "causation_id"@ != "first"@,
        "causation_id"@ != "last"@,
        "causation_id"@ != "code"@,
        "causation_id"@ != "message"@,
        "causation_id"@ != "type"@,
        "causation_id"@ != "tags"@,
        "positions"@ != "events"@,
        "positions"@ != "error"@,
        "positions"@ != "first"@,
        "positions"@ != "last"@,
        "positions"@ != "code"@,
        "positions"@ != "message"@,
        "positions"@ != "type"@,
        "positions"@ != "tags"@,
        "events"@ != "error"@,
        "events"@ != "first"@,
        "events"@ != "last"@,
        "events"@ != "code"@,
        "events"@ != "message"@,
        "events"@ != "type"@,
        "events"@ != "tags"@,
        "error"@ != "first"@,
        "error"@ != "last"@,
        "error"@ != "code"@,
        "error"@ != "message"@,
        "error"@ != "type"@,
        "error"@ != "tags"@,
        "first"@ != "last"@,
        "first"@ != "code"@,
        "first"@ != "message"@,
        "first"@ != "type"@,
        "first"@ != "tags"@,
        "last"@ != "code"@,
        "last"@ != "message"@,
        "last"@ != "type"@,
        "last"@ != "tags"@,
        "code"@ != "message"@,
        "code"@ != "type"@,
        "code"@ != "tags"@,
        "message"@ != "type"@,
        "message"@ != "tags"@,
        "type"@ != "tags"@,
{
    reveal_strlit("correlation_id");
    reveal_strlit("causation_id");
    reveal_strlit("positions");
    reveal_strlit("events");
    reveal_strlit("error");
    reveal_strlit("first");
    reveal_strlit("last");
    reveal_strlit("code");
    reveal_strlit("message");
    reveal_strlit("type");
    reveal_strlit("tags");
    assert("correlation_id"@.len() == 14);
    assert("causation_id"@.len() == 12);
    assert("positions"@.len() == 9);
    assert("events"@.len() == 6);
    assert("error"@.len() == 5);
    assert("first"@.len() == 5);
    assert("last"@.len() == 4);
    assert("code"@.len() == 4);
    assert("message"@.len() == 7);
    assert("type"@.len() == 4);
    assert("tags"@.len() == 4);
    assert("error"@[0] == 'e');
    assert("first"@[0] == 'f');
    assert("last"@[0] == 'l');
    assert("code"@[0] == 'c');
    assert("type"@[0] == 't');
    assert("tags"@[0] == 't');
    assert("type"@[1] == 'y');
    assert("tags"@[1] == 'a');
}

/// The member of a body at a path of two names.
pub open spec fn at_path(body: JsonView, outer: Seq<char>, inner: Seq<char>) -> Option<JsonView> {
    match body.member(outer) {
        Some(value) => value.member(inner),
        None => None,
    }
}

/// Whether the answer to an outcome reports events at that range of positions.
pub open spec fn reports_range(body: JsonView, range: PositionRange) -> bool {
    &&& at_path(body, "positions"@, "first"@) == Some(JsonView::Int(range.first as int))
    &&& at_path(body, "positions"@, "last"@) == Some(JsonView::Int(range.last as int))
}

/// The body of a commit says where its events begin and where they end.
pub proof fn law_a_commit_reports_its_positions(
    correlation_id: Seq<char>,
    causation_id: Seq<char>,
    range: PositionRange,
    events: Seq<JsonView>,
)
    ensures
        reports_range(committed_json(correlation_id, causation_id, Some(range), events), range),
        committed_json(correlation_id, causation_id, None, events).member("positions"@) == Some(
            JsonView::Null,
        ),
{
    lemma_body_names();
}

/// Two commits over different ranges never have the same body, whoever asked for them.
pub proof fn law_commits_over_different_ranges_differ(
    a: PositionRange,
    b: PositionRange,
    correlation_ids: (Seq<char>, Seq<char>),
    causation_ids: (Seq<char>, Seq<char>),
    events: (Seq<JsonView>, Seq<JsonView>),
)
    requires
        a != b,
    ensures
        committed_json(correlation_ids.0, causation_ids.0, Some(a), events.0) != committed_json(
            correlation_ids.1,
            causation_ids.1,
            Some(b),
            events.1,
        ),
{
    law_a_commit_reports_its_positions(correlation_ids.0, causation_ids.0, a, events.0);
    law_a_commit_reports_its_positions(correlation_ids.1, causation_ids.1, b, events.1);
}

/// A committed command is answered with the range that its events were appended at, and a
/// recovered one with the range that the log holds them at.
pub proof fn law_an_answer_reports_the_appended_range(
    ctx: CommandContext,
    outcome: CommandOutcome,
    defs: Seq<EventDef>,
)
    ensures
        outcome matches CommandOutcome::Committed { positions: Some(range), .. } ==> reports_range(
            outcome_json(ctx, outcome, defs),
            range,
        ),
        outcome matches CommandOutcome::AlreadyCommitted(recovered) ==> reports_range(
            outcome_json(ctx, outcome, defs),
            recovered.positions,
        ),
{
    lemma_body_names();
}

/// An answer carries the identity of the request that it is about: the one that was asked,
/// or, for a commit that was recovered, the one that made it.
pub proof fn law_an_answer_names_its_request(ctx: CommandContext, outcome: CommandOutcome, defs: Seq<EventDef>)
    ensures
        ({
            let body = outcome_json(ctx, outcome, defs);
            match outcome {
                CommandOutcome::AlreadyCommitted(recovered) => {
                    &&& body.member("correlation_id"@) == Some(
                        JsonView::Text(recovered.correlation_id@),
                    )
                    &&& body.member("causation_id"@) == Some(JsonView::Text(recovered.causation_id@))
                },
                _ => {
                    &&& body.member("correlation_id"@) == Some(JsonView::Text(ctx.correlation_id@))
                    &&& body.member("causation_id"@) == Some(JsonView::Text(ctx.causation_id@))
                },
            }
        }),
{
    lemma_body_names();
}

/// Only a command that committed is answered as a success: its answer lists events, and
/// every other one has an error in place of them.
pub proof fn law_only_a_commit_is_a_success(ctx: CommandContext, outcome: CommandOutcome, defs: Seq<EventDef>)
    ensures
        ({
            let body = outcome_json(ctx, outcome, defs);
            let status = outcome_status(outcome);
            &&& status == 200 <==> outcome is Committed || outcome is AlreadyCommitted
            &&& status == 200 <==> body.member("events"@) is Some
            &&& status == 200 <==> body.member("error"@) is None
            &&& status != 200 ==> status >= 400
        }),
{
    lemma_body_names();
}

/// A refusal says what is to be done about it: the caller's request is at fault where it is
/// malformed or rejected, the moment is where it conflicts, and the server where it is
/// unavailable. The code tells these apart, and a rejection brings the command's own.
pub proof fn law_a_refusal_is_told_apart(ctx: CommandContext, outcome: CommandOutcome, defs: Seq<EventDef>)
    ensures
        ({
            let body = outcome_json(ctx, outcome, defs);
            let status = outcome_status(outcome);
            let code = at_path(body, "error"@, "code"@);
            let text = at_path(body, "error"@, "message"@);
            &&& outcome matches CommandOutcome::Rejected { code: own, message } ==> status == 422 && code == Some(
                JsonView::Text(own@),
            ) && text == Some(JsonView::Text(message@))
            &&& outcome matches CommandOutcome::InvalidInput { message } ==> status == 400 && code == Some(
                JsonView::Text("invalid_input"@),
            ) && text == Some(JsonView::Text(message@))
            &&& outcome matches CommandOutcome::Unavailable { message } ==> status == 503 && code == Some(
                JsonView::Text("unavailable"@),
            ) && text == Some(JsonView::Text(message@))
            &&& outcome is Conflict ==> status == 409 && code == Some(
                JsonView::Text("concurrency_conflict"@),
            )
        }),
{
    lemma_body_names();
}

/// The events that an answer lists.
pub open spec fn listed_events(body: JsonView) -> Seq<JsonView> {
    match body.member("events"@) {
        Some(JsonView::Array(events)) => events,
        _ => Seq::empty(),
    }
}

/// A commit is answered with every event that it appended, in the order they were appended.
pub proof fn law_an_answer_lists_its_events_in_order(
    ctx: CommandContext,
    outcome: CommandOutcome,
    defs: Seq<EventDef>,
)
    ensures
        outcome matches CommandOutcome::Committed { events, .. } ==> {
            let listed = listed_events(outcome_json(ctx, outcome, defs));
            &&& listed.len() == events.len()
            &&& forall|i: int|
                0 <= i < events.len() ==> (#[trigger] listed[i]).member("type"@) == Some(
                    JsonView::Text(events@[i].event_type@),
                )
        },
        outcome matches CommandOutcome::AlreadyCommitted(recovered) ==> {
            let listed = listed_events(outcome_json(ctx, outcome, defs));
            &&& listed.len() == recovered.events.len()
            &&& forall|i: int|
                0 <= i < recovered.events.len() ==> (#[trigger] listed[i]).member("type"@) == Some(
                    JsonView::Text(recovered.events@[i].event_type@),
                ) && listed[i].member("tags"@) == Some(
                    JsonView::texts(views(recovered.events@[i].tags@)),
                )
        },
{
    lemma_body_names();
}

/// Whether an event keeps the field of a tag under a subject's key. The first declaration
/// of its type decides.
pub open spec fn keeps_sealed(defs: Seq<EventDef>, event_type: Seq<char>, key: Seq<char>) -> bool {
    exists|i: int|
        0 <= i < defs.len() && (#[trigger] defs[i]).event_type@ == event_type && (forall|j: int|
            0 <= j < i ==> (#[trigger] defs[j]).event_type@ != event_type) && (field_named(
            defs[i].fields@,
            key,
        ) matches Some(meta) && meta.subject is Some)
}

proof fn lemma_event_named(defs: Seq<EventDef>, event_type: Seq<char>)
    ensures
        match event_named(defs, event_type) {
            Some(def) => exists|i: int|
                0 <= i < defs.len() && #[trigger] defs[i] == def && def.event_type@ == event_type && forall|j: int|
                    0 <= j < i ==> (#[trigger] defs[j]).event_type@ != event_type,
            None => forall|j: int| 0 <= j < defs.len() ==> (#[trigger] defs[j]).event_type@ != event_type,
        },
    decreases defs.len(),
{
    if defs.len() > 0 {
        if defs[0].event_type@ == event_type {
            assert(defs[0] == defs[0]);
        } else {
            let rest = defs.skip(1);
            lemma_event_named(rest, event_type);
            match event_named(rest, event_type) {
                Some(def) => {
                    let i = choose|i: int|
                        0 <= i < rest.len() && #[trigger] rest[i] == def && def.event_type@ == event_type && forall|j: int|
                            0 <= j < i ==> (#[trigger] rest[j]).event_type@ != event_type;
                    assert(defs[i + 1] == def);
                    assert forall|j: int| 0 <= j < i + 1 implies (#[trigger] defs[j]).event_type@
                        != event_type by {
                        if j > 0 {
                            assert(rest[j - 1] == defs[j]);
                        }
                    }
                },
                None => {
                    assert forall|j: int| 0 <= j < defs.len() implies (#[trigger] defs[j]).event_type@
                        != event_type by {
                        if j > 0 {
                            assert(rest[j - 1] == defs[j]);
                        }
                    }
                },
            }
        }
    }
}

proof fn lemma_hidden(defs: Seq<EventDef>, event_type: Seq<char>, key: Seq<char>)
    ensures
        is_hidden(defs, event_type, key) <==> keeps_sealed(defs, event_type, key),
{
    lemma_event_named(defs, event_type);
    if let Some(def) = event_named(defs, event_type) {
        let i = choose|i: int|
            0 <= i < defs.len() && #[trigger] defs[i] == def && def.event_type@ == event_type && forall|j: int|
                0 <= j < i ==> (#[trigger] defs[j]).event_type@ != event_type;
        if keeps_sealed(defs, event_type, key) {
            let k = choose|k: int|
                0 <= k < defs.len() && (#[trigger] defs[k]).event_type@ == event_type && (forall|j: int|
                    0 <= j < k ==> (#[trigger] defs[j]).event_type@ != event_type) && (field_named(
                    defs[k].fields@,
                    key,
                ) matches Some(meta) && meta.subject is Some);
            assert(i == k) by {
                if i < k {
                    assert(defs[i].event_type@ != event_type);
                }
                if k < i {
                    assert(defs[k].event_type@ != event_type);
                }
            }
        }
    }
}

proof fn lemma_shown(
    defs: Seq<EventDef>,
    event_type: Seq<char>,
    tags: Seq<(String, Option<String>)>,
    tag: (String, Option<String>),
)
    ensures
        shown_tags(defs, event_type, tags).contains(tag) <==> tags.contains(tag) && !is_hidden(
            defs,
            event_type,
            tag.0@,
        ),
    decreases tags.len(),
{
    if tags.len() > 0 {
        let rest = tags.drop_last();
        lemma_shown(defs, event_type, rest, tag);
        assert(tags =~= rest.push(tags.last()));
        assert(tags.contains(tag) <==> rest.contains(tag) || tag == tags.last()) by {
            if rest.contains(tag) {
                let i = choose|i: int| 0 <= i < rest.len() && rest[i] == tag;
                assert(tags[i] == tag);
            }
            if tag == tags.last() {
                assert(tags[tags.len() - 1] == tag);
            }
            if tags.contains(tag) && tag != tags.last() {
                let i = choose|i: int| 0 <= i < tags.len() && tags[i] == tag;
                assert(rest[i] == tag);
            }
        }
        let shown = shown_tags(defs, event_type, rest);
        let pushed = shown.push(tags.last());
        assert(pushed.contains(tag) <==> shown.contains(tag) || tag == tags.last()) by {
            if shown.contains(tag) {
                let i = choose|i: int| 0 <= i < shown.len() && shown[i] == tag;
                assert(pushed[i] == tag);
            }
            if tag == tags.last() {
                assert(pushed[shown.len() as int] == tag);
            }
            if pushed.contains(tag) && tag != tags.last() {
                let i = choose|i: int| 0 <= i < pushed.len() && pushed[i] == tag;
                assert(shown[i] == tag);
            }
        }
    }
}

/// How a tag reads: its key, and behind a colon the value where it has one.
pub open spec fn reads_as(tag: (String, Option<String>), text: Seq<char>) -> bool {
    match tag.1 {
        Some(value) => text.len() == tag.0@.len() + 1 + value@.len() && text.take(tag.0@.len() as int)
            == tag.0@ && text[tag.0@.len() as int] == ':' && text.skip(tag.0@.len() as int + 1) == value@,
        None => text == tag.0@,
    }
}

/// A response shows an event's tags, all of them but those of a field that is kept under a
/// subject's key, and nothing that is not a tag of it.
pub proof fn law_an_event_shows_its_open_tags(
    defs: Seq<EventDef>,
    event_type: Seq<char>,
    tags: Seq<(String, Option<String>)>,
    text: Seq<char>,
)
    ensures
        tag_texts(shown_tags(defs, event_type, tags)).contains(text) <==> exists|i: int|
            0 <= i < tags.len() && reads_as(#[trigger] tags[i], text) && !keeps_sealed(
                defs,
                event_type,
                tags[i].0@,
            ),
{
    let shown = shown_tags(defs, event_type, tags);
    let texts = Seq::new(shown.len(), |i: int| tag_text(shown[i]));
    lemma_sorted_contains(texts, text_order(), text);
    assert forall|tag: (String, Option<String>)| #[trigger] reads_as(tag, text) <==> tag_text(tag) == text by {
        reveal_strlit(":");
        if let Some(value) = tag.1 {
            let key = tag.0@;
            if reads_as(tag, text) {
                assert(text =~= text.take(key.len() as int) + seq![text[key.len() as int]] + text.skip(
                    key.len() as int + 1,
                ));
                assert(":"@ =~= seq![':']);
            }
            if tag_text(tag) == text {
                assert(text.take(key.len() as int) =~= key);
                assert(text.skip(key.len() as int + 1) =~= value@);
            }
        }
    }
    if texts.contains(text) {
        let k = choose|k: int| 0 <= k < texts.len() && texts[k] == text;
        lemma_shown(defs, event_type, tags, shown[k]);
        let i = choose|i: int| 0 <= i < tags.len() && tags[i] == shown[k];
        lemma_hidden(defs, event_type, tags[i].0@);
        assert(reads_as(tags[i], text));
    }
    if exists|i: int|
        0 <= i < tags.len() && reads_as(#[trigger] tags[i], text) && !keeps_sealed(
            defs,
            event_type,
            tags[i].0@,
        ) {
        let i = choose|i: int|
            0 <= i < tags.len() && reads_as(#[trigger] tags[i], text) && !keeps_sealed(
                defs,
                event_type,
                tags[i].0@,
            );
        lemma_hidden(defs, event_type, tags[i].0@);
        assert(tags.contains(tags[i]));
        lemma_shown(defs, event_type, tags, tags[i]);
        let k = choose|k: int| 0 <= k < shown.len() && shown[k] == tags[i];
        assert(texts[k] == text);
    }
}

/// A fresh answer's events carry the tags that a response shows.
pub proof fn law_a_fresh_event_carries_its_open_tags(
    defs: Seq<EventDef>,
    events: Seq<EmittedEvent>,
    at: int,
    text: Seq<char>,
)
    requires
        0 <= at < events.len(),
    ensures
        fresh_events(defs, events)[at].member("tags"@) matches Some(JsonView::Array(tags)) && (
        tags.contains(JsonView::Text(text)) <==> exists|i: int|
            0 <= i < events[at].tags.len() && reads_as(#[trigger] events[at].tags@[i], text)
                && !keeps_sealed(defs, events[at].event_type@, events[at].tags@[i].0@)),
{
    lemma_body_names();
    let texts = tag_texts(shown_tags(defs, events[at].event_type@, events[at].tags@));
    law_an_event_shows_its_open_tags(defs, events[at].event_type@, events[at].tags@, text);
    let tags = Seq::new(texts.len(), |i: int| JsonView::Text(texts[i]));
    assert(tags.contains(JsonView::Text(text)) <==> texts.contains(text)) by {
        if texts.contains(text) {
            let i = choose|i: int| 0 <= i < texts.len() && texts[i] == text;
            assert(tags[i] == JsonView::Text(text));
        }
        if tags.contains(JsonView::Text(text)) {
            let i = choose|i: int| 0 <= i < tags.len() && tags[i] == JsonView::Text(text);
            assert(texts[i] == text);
        }
    }
}

// ---------------------------------------------------------------------------
// Finding and retrying
// ---------------------------------------------------------------------------

/// A caller runs the command that was loaded last under the name, and is turned away only
/// where there is none or where it is internal and a request asked.
pub proof fn law_the_last_command_of_a_name_runs(commands: Seq<CommandEntry>, name: Seq<char>, from_effect: bool)
    ensures
        match command_for(commands, name, from_effect) {
            Some(at) => {
                &&& 0 <= at < commands.len()
                &&& commands[at].name@ == name
                &&& forall|i: int| at < i < commands.len() ==> (#[trigger] commands[i]).name@ != name
                &&& commands[at].internal ==> from_effect
            },
            None => (forall|i: int| 0 <= i < commands.len() ==> (#[trigger] commands[i]).name@ != name) || (
            !from_effect && exists|at: int|
                0 <= at < commands.len() && (#[trigger] commands[at]).name@ == name && commands[at].internal),
        },
    decreases commands.len(),
{
    if commands.len() > 0 {
        let rest = commands.drop_last();
        if commands.last().name@ != name {
            law_the_last_command_of_a_name_runs(rest, name, from_effect);
            assert forall|i: int| 0 <= i < rest.len() implies #[trigger] commands[i] == rest[i] by {}
            if command_for(rest, name, from_effect) is None && exists|at: int|
                0 <= at < rest.len() && (#[trigger] rest[at]).name@ == name && rest[at].internal {
                let at = choose|at: int|
                    0 <= at < rest.len() && (#[trigger] rest[at]).name@ == name && rest[at].internal;
                assert(commands[at].name@ == name && commands[at].internal);
            }
        } else {
            assert(commands[commands.len() - 1].name@ == name);
        }
    }
}

/// The window that a retry waits in begins at a millisecond and doubles with each attempt,
/// until it has come to sixteen.
pub proof fn law_a_window_doubles_to_its_cap(attempt: u32)
    requires
        attempt < u32::MAX,
    ensures
        window_ms(0) == 1,
        window_ms((attempt + 1) as u32) == if 2 * window_ms(attempt) < 16 {
            2 * window_ms(attempt)
        } else {
            16
        },
{
}

/// A budget that is written out is the budget that is kept, up to fifteen attempts. One that
/// allows no attempt at all, and one that is no number, is the budget that nothing was set
/// for.
pub proof fn law_a_budget_is_what_it_is_set_to(n: u32, other: Seq<char>)
    ensures
        n >= 1 ==> budget_of(Some(decimal(n as nat))) == if n < 15 {
            n as int
        } else {
            15
        },
        budget_of(Some("0"@)) == budget_of(None),
        attempts_of(other) is None ==> budget_of(Some(other)) == budget_of(None),
        1 <= budget_of(Some(other)) <= 15,
        budget_of(None) == 5,
{
    let text = decimal(n as nat);
    crate::text::lemma_decimal_digits(n as nat);
    crate::text::lemma_signed_decimal_value(n as int);
    lemma_trimmed_digits(text);
    reveal_strlit("0");
    assert("0"@.len() == 1 && "0"@[0] == '0');
    assert("0"@ =~= decimal(0));
    crate::text::lemma_decimal_digits(0);
    crate::text::lemma_signed_decimal_value(0);
    lemma_trimmed_digits("0"@);
}

proof fn lemma_trimmed_digits(text: Seq<char>)
    requires
        text.len() > 0,
        crate::text::all_digits(text),
    ensures
        crate::text::trimmed(text) == text,
        text[0] != '-',
{
}

/// Progress of the adoption is reported once it has advanced far enough since it was last
/// reported, and then counts from there. A position behind the last begins it anew.
pub proof fn law_adoption_reports_as_it_advances(last: u64, position: u64)
    ensures
        adopted(last, position).0 ==> position >= ADOPT_PROGRESS && adopted(last, position).1 == position,
        !adopted(last, position).0 ==> adopted(last, position).1 <= position && position
            - adopted(last, position).1 < ADOPT_PROGRESS,
        position >= last ==> (adopted(last, position).0 <==> position >= last + ADOPT_PROGRESS),
        position < last ==> adopted(last, position) == adopted(0, position),
{
}

/// Every runtime is opened by refusing a scratch project before anything else, and reads its
/// log and its books. Only one that serves records what is deployed and starts what runs it,
/// and every one that claims its directory does so before it opens the log.
pub proof fn law_a_runtime_opens_in_order(purpose: Purpose, keyed: bool)
    ensures
        ({
            let steps = boot_steps(purpose, keyed);
            &&& steps[0] == BootStep::RefuseScratch
            &&& steps.contains(BootStep::OpenBooks)
            &&& steps.contains(BootStep::OpenLog) <==> purpose != Purpose::Plan
            &&& steps.contains(BootStep::FollowLog) <==> purpose == Purpose::Plan
            &&& steps.contains(BootStep::CheckSecrets) <==> purpose != Purpose::Plan
            &&& steps.contains(BootStep::CheckHistory) <==> purpose != Purpose::Plan
            &&& steps.contains(BootStep::CheckSubjects) <==> purpose != Purpose::Plan
            &&& steps.contains(BootStep::CheckMasters) <==> purpose != Purpose::Plan && keyed
            &&& steps.contains(BootStep::AdoptKeys) <==> purpose == Purpose::Serve && keyed
            &&& steps.contains(BootStep::RecordDeclarations) <==> purpose == Purpose::Serve
            &&& steps.contains(BootStep::StartProjectors) <==> purpose == Purpose::Serve
            &&& steps.contains(BootStep::StartEffects) <==> purpose == Purpose::Serve
            &&& forall|i: int, j: int|
                0 <= i < steps.len() && 0 <= j < steps.len() && #[trigger] steps[i]
                    == BootStep::ClaimDirectory && #[trigger] steps[j] == BootStep::OpenLog ==> i < j
        }),
{
    let steps = boot_steps(purpose, keyed);
    let n = steps.len();
    match purpose {
        Purpose::Serve => {
            assert(steps[2] == BootStep::OpenLog);
            assert(steps[3] == BootStep::OpenBooks);
            assert(steps[4] == BootStep::CheckSecrets);
            assert(steps[5] == BootStep::CheckHistory);
            assert(steps[6] == BootStep::CheckSubjects);
            if keyed {
                assert(steps[7] == BootStep::CheckMasters);
                assert(steps[8] == BootStep::AdoptKeys);
            }
            assert(steps[n - 3] == BootStep::RecordDeclarations);
            assert(steps[n - 2] == BootStep::StartProjectors);
            assert(steps[n - 1] == BootStep::StartEffects);
        },
        Purpose::Verify => {
            assert(steps[2] == BootStep::OpenLog);
            assert(steps[3] == BootStep::CheckSubjects);
            assert(steps[4] == BootStep::CheckSecrets);
            assert(steps[5] == BootStep::OpenBooks);
            assert(steps[6] == BootStep::CheckHistory);
            if keyed {
                assert(steps[7] == BootStep::CheckMasters);
            }
        },
        Purpose::Plan => {
            assert(steps[1] == BootStep::FollowLog);
            assert(steps[2] == BootStep::OpenBooks);
        },
    }
}

/// Where the steps of a file's path meet there is one slash: the directory is in front of it,
/// and the name ends it.
pub proof fn law_a_path_ends_in_its_name(dir: Seq<char>, name: Seq<char>)
    ensures
        path_in(dir, name).skip(path_in(dir, name).len() - name.len()) == name,
        path_in(dir, name).take(dir.len() as int) == dir,
        dir.len() > 0 ==> path_in(dir, name)[path_in(dir, name).len() - name.len() - 1] == '/',
        path_in(dir, name).len() <= dir.len() + 1 + name.len(),
        dir.len() > 0 && dir.last() == '/' ==> path_in(dir, name).len() == dir.len() + name.len(),
{
    reveal_strlit("/");
    assert(path_in(dir, name).skip(path_in(dir, name).len() - name.len()) =~= name);
    assert(path_in(dir, name).take(dir.len() as int) =~= dir);
}

// ---------------------------------------------------------------------------
// Status
// ---------------------------------------------------------------------------

proof fn lemma_report_names()
    ensures
        "name"@ != "position"@,
        "name"@ != "lag"@,
        "name"@ != "readiness"@,
        "name"@ != "running"@,
        "name"@ != "failed"@,
        "name"@ != "replays_completed"@,
        "name"@ != "replays_failed"@,
        "name"@ != "last_error"@,
        "name"@ != "state"@,
        "name"@ != "consecutive_failures"@,
        "name"@ != "wedged_lanes"@,
        "name"@ != "pinning_key"@,
        "name"@ != "pinning_position"@,
        "name"@ != "quarantined"@,
        "name"@ != "terminal_skips"@,
        "name"@ != "last_terminal_error"@,
        "name"@ != "ready"@,
        "name"@ != "rebuilding"@,
        "name"@ != "stale"@,
        "name"@ != "rebuild_failed"@,
        "position"@ != "lag"@,
        "position"@ != "readiness"@,
        "position"@ != "running"@,
        "position"@ != "failed"@,
        "position"@ != "replays_completed"@,
        "position"@ != "replays_failed"@,
        "position"@ != "last_error"@,
        "position"@ != "state"@,
        "position"@ != "consecutive_failures"@,
        "position"@ != "wedged_lanes"@,
        "position"@ != "pinning_key"@,
        "position"@ != "pinning_position"@,
        "position"@ != "quarantined"@,
        "position"@ != "terminal_skips"@,
        "position"@ != "last_terminal_error"@,
        "position"@ != "ready"@,
        "position"@ != "rebuilding"@,
        "position"@ != "stale"@,
        "position"@ != "rebuild_failed"@,
        "lag"@ != "readiness"@,
        "lag"@ != "running"@,
        "lag"@ != "failed"@,
        "lag"@ != "replays_completed"@,
        "lag"@ != "replays_failed"@,
        "lag"@ != "last_error"@,
        "lag"@ != "state"@,
        "lag"@ != "consecutive_failures"@,
        "lag"@ != "wedged_lanes"@,
        "lag"@ != "pinning_key"@,
        "lag"@ != "pinning_position"@,
        "lag"@ != "quarantined"@,
        "lag"@ != "terminal_skips"@,
        "lag"@ != "last_terminal_error"@,
        "lag"@ != "ready"@,
        "lag"@ != "rebuilding"@,
        "lag"@ != "stale"@,
        "lag"@ != "rebuild_failed"@,
        "readiness"@ != "running"@,
        "readiness"@ != "failed"@,
        "readiness"@ != "replays_completed"@,
        "readiness"@ != "replays_failed"@,
        "readiness"@ != "last_error"@,
        "readiness"@ != "state"@,
        "readiness"@ != "consecutive_failures"@,
        "readiness"@ != "wedged_lanes"@,
        "readiness"@ != "pinning_key"@,
        "readiness"@ != "pinning_position"@,
        "readiness"@ != "quarantined"@,
        "readiness"@ != "terminal_skips"@,
        "readiness"@ != "last_terminal_error"@,
        "readiness"@ != "ready"@,
        "readiness"@ != "rebuilding"@,
        "readiness"@ != "stale"@,
        "readiness"@ != "rebuild_failed"@,
        "running"@ != "failed"@,
        "running"@ != "replays_completed"@,
        "running"@ != "replays_failed"@,
        "running"@ != "last_error"@,
        "running"@ != "state"@,
        "running"@ != "consecutive_failures"@,
        "running"@ != "wedged_lanes"@,
        "running"@ != "pinning_key"@,
        "running"@ != "pinning_position"@,
        "running"@ != "quarantined"@,
        "running"@ != "terminal_skips"@,
        "running"@ != "last_terminal_error"@,
        "running"@ != "ready"@,
        "running"@ != "rebuilding"@,
        "running"@ != "stale"@,
        "running"@ != "rebuild_failed"@,
        "failed"@ != "replays_completed"@,
        "failed"@ != "replays_failed"@,
        "failed"@ != "last_error"@,
        "failed"@ != "state"@,
        "failed"@ != "consecutive_failures"@,
        "failed"@ != "wedged_lanes"@,
        "failed"@ != "pinning_key"@,
        "failed"@ != "pinning_position"@,
        "failed"@ != "quarantined"@,
        "failed"@ != "terminal_skips"@,
        "failed"@ != "last_terminal_error"@,
        "failed"@ != "ready"@,
        "failed"@ != "rebuilding"@,
        "failed"@ != "stale"@,
        "failed"@ != "rebuild_failed"@,
        "replays_completed"@ != "replays_failed"@,
        "replays_completed"@ != "last_error"@,
        "replays_completed"@ != "state"@,
        "replays_completed"@ != "consecutive_failures"@,
        "replays_completed"@ != "wedged_lanes"@,
        "replays_completed"@ != "pinning_key"@,
        "replays_completed"@ != "pinning_position"@,
        "replays_completed"@ != "quarantined"@,
        "replays_completed"@ != "terminal_skips"@,
        "replays_completed"@ != "last_terminal_error"@,
        "replays_completed"@ != "ready"@,
        "replays_completed"@ != "rebuilding"@,
        "replays_completed"@ != "stale"@,
        "replays_completed"@ != "rebuild_failed"@,
        "replays_failed"@ != "last_error"@,
        "replays_failed"@ != "state"@,
        "replays_failed"@ != "consecutive_failures"@,
        "replays_failed"@ != "wedged_lanes"@,
        "replays_failed"@ != "pinning_key"@,
        "replays_failed"@ != "pinning_position"@,
        "replays_failed"@ != "quarantined"@,
        "replays_failed"@ != "terminal_skips"@,
        "replays_failed"@ != "last_terminal_error"@,
        "replays_failed"@ != "ready"@,
        "replays_failed"@ != "rebuilding"@,
        "replays_failed"@ != "stale"@,
        "replays_failed"@ != "rebuild_failed"@,
        "last_error"@ != "state"@,
        "last_error"@ != "consecutive_failures"@,
        "last_error"@ != "wedged_lanes"@,
        "last_error"@ != "pinning_key"@,
        "last_error"@ != "pinning_position"@,
        "last_error"@ != "quarantined"@,
        "last_error"@ != "terminal_skips"@,
        "last_error"@ != "last_terminal_error"@,
        "last_error"@ != "ready"@,
        "last_error"@ != "rebuilding"@,
        "last_error"@ != "stale"@,
        "last_error"@ != "rebuild_failed"@,
        "state"@ != "consecutive_failures"@,
        "state"@ != "wedged_lanes"@,
        "state"@ != "pinning_key"@,
        "state"@ != "pinning_position"@,
        "state"@ != "quarantined"@,
        "state"@ != "terminal_skips"@,
        "state"@ != "last_terminal_error"@,
        "state"@ != "ready"@,
        "state"@ != "rebuilding"@,
        "state"@ != "stale"@,
        "state"@ != "rebuild_failed"@,
        "consecutive_failures"@ != "wedged_lanes"@,
        "consecutive_failures"@ != "pinning_key"@,
        "consecutive_failures"@ != "pinning_position"@,
        "consecutive_failures"@ != "quarantined"@,
        "consecutive_failures"@ != "terminal_skips"@,
        "consecutive_failures"@ != "last_terminal_error"@,
        "consecutive_failures"@ != "ready"@,
        "consecutive_failures"@ != "rebuilding"@,
        "consecutive_failures"@ != "stale"@,
        "consecutive_failures"@ != "rebuild_failed"@,
        "wedged_lanes"@ != "pinning_key"@,
        "wedged_lanes"@ != "pinning_position"@,
        "wedged_lanes"@ != "quarantined"@,
        "wedged_lanes"@ != "terminal_skips"@,
        "wedged_lanes"@ != "last_terminal_error"@,
        "wedged_lanes"@ != "ready"@,
        "wedged_lanes"@ != "rebuilding"@,
        "wedged_lanes"@ != "stale"@,
        "wedged_lanes"@ != "rebuild_failed"@,
        "pinning_key"@ != "pinning_position"@,
        "pinning_key"@ != "quarantined"@,
        "pinning_key"@ != "terminal_skips"@,
        "pinning_key"@ != "last_terminal_error"@,
        "pinning_key"@ != "ready"@,
        "pinning_key"@ != "rebuilding"@,
        "pinning_key"@ != "stale"@,
        "pinning_key"@ != "rebuild_failed"@,
        "pinning_position"@ != "quarantined"@,
        "pinning_position"@ != "terminal_skips"@,
        "pinning_position"@ != "last_terminal_error"@,
        "pinning_position"@ != "ready"@,
        "pinning_position"@ != "rebuilding"@,
        "pinning_position"@ != "stale"@,
        "pinning_position"@ != "rebuild_failed"@,
        "quarantined"@ != "terminal_skips"@,
        "quarantined"@ != "last_terminal_error"@,
        "quarantined"@ != "ready"@,
        "quarantined"@ != "rebuilding"@,
        "quarantined"@ != "stale"@,
        "quarantined"@ != "rebuild_failed"@,
        "terminal_skips"@ != "last_terminal_error"@,
        "terminal_skips"@ != "ready"@,
        "terminal_skips"@ != "rebuilding"@,
        "terminal_skips"@ != "stale"@,
        "terminal_skips"@ != "rebuild_failed"@,
        "last_terminal_error"@ != "ready"@,
        "last_terminal_error"@ != "rebuilding"@,
        "last_terminal_error"@ != "stale"@,
        "last_terminal_error"@ != "rebuild_failed"@,
        "ready"@ != "rebuilding"@,
        "ready"@ != "stale"@,
        "ready"@ != "rebuild_failed"@,
        "rebuilding"@ != "stale"@,
        "rebuilding"@ != "rebuild_failed"@,
        "stale"@ != "rebuild_failed"@,
{
    reveal_strlit("name");
    reveal_strlit("position");
    reveal_strlit("lag");
    reveal_strlit("readiness");
    reveal_strlit("running");
    reveal_strlit("failed");
    reveal_strlit("replays_completed");
    reveal_strlit("replays_failed");
    reveal_strlit("last_error");
    reveal_strlit("state");
    reveal_strlit("consecutive_failures");
    reveal_strlit("wedged_lanes");
    reveal_strlit("pinning_key");
    reveal_strlit("pinning_position");
    reveal_strlit("quarantined");
    reveal_strlit("terminal_skips");
    reveal_strlit("last_terminal_error");
    reveal_strlit("ready");
    reveal_strlit("rebuilding");
    reveal_strlit("stale");
    reveal_strlit("rebuild_failed");
    assert("name"@.len() == 4);
    assert("position"@.len() == 8);
    assert("lag"@.len() == 3);
    assert("readiness"@.len() == 9);
    assert("running"@.len() == 7);
    assert("failed"@.len() == 6);
    assert("replays_completed"@.len() == 17);
    assert("replays_failed"@.len() == 14);
    assert("last_error"@.len() == 10);
    assert("state"@.len() == 5);
    assert("consecutive_failures"@.len() == 20);
    assert("wedged_lanes"@.len() == 12);
    assert("pinning_key"@.len() == 11);
    assert("pinning_position"@.len() == 16);
    assert("quarantined"@.len() == 11);
    assert("terminal_skips"@.len() == 14);
    assert("last_terminal_error"@.len() == 19);
    assert("ready"@.len() == 5);
    assert("rebuilding"@.len() == 10);
    assert("stale"@.len() == 5);
    assert("rebuild_failed"@.len() == 14);
    assert("replays_failed"@[0] == 'r');
    assert("terminal_skips"@[0] == 't');
    assert("replays_failed"@[2] == 'p');
    assert("rebuild_failed"@[2] == 'b');
    assert("last_error"@[0] == 'l');
    assert("rebuilding"@[0] == 'r');
    assert("state"@[0] == 's');
    assert("ready"@[0] == 'r');
    assert("state"@[3] == 't');
    assert("stale"@[3] == 'l');
    assert("pinning_key"@[0] == 'p');
    assert("quarantined"@[0] == 'q');
    assert("rebuild_failed"@[0] == 'r');
    assert("stale"@[0] == 's');
}

proof fn lemma_status_names()
    ensures
        "log_head"@ != "uptime_seconds"@,
        "log_head"@ != "verify"@,
        "log_head"@ != "commands"@,
        "log_head"@ != "projectors"@,
        "log_head"@ != "effects"@,
        "log_head"@ != "events"@,
        "log_head"@ != "public"@,
        "log_head"@ != "internal"@,
        "uptime_seconds"@ != "verify"@,
        "uptime_seconds"@ != "commands"@,
        "uptime_seconds"@ != "projectors"@,
        "uptime_seconds"@ != "effects"@,
        "uptime_seconds"@ != "events"@,
        "uptime_seconds"@ != "public"@,
        "uptime_seconds"@ != "internal"@,
        "verify"@ != "commands"@,
        "verify"@ != "projectors"@,
        "verify"@ != "effects"@,
        "verify"@ != "events"@,
        "verify"@ != "public"@,
        "verify"@ != "internal"@,
        "commands"@ != "projectors"@,
        "commands"@ != "effects"@,
        "commands"@ != "events"@,
        "commands"@ != "public"@,
        "commands"@ != "internal"@,
        "projectors"@ != "effects"@,
        "projectors"@ != "events"@,
        "projectors"@ != "public"@,
        "projectors"@ != "internal"@,
        "effects"@ != "events"@,
        "effects"@ != "public"@,
        "effects"@ != "internal"@,
        "events"@ != "public"@,
        "events"@ != "internal"@,
        "public"@ != "internal"@,
{
    reveal_strlit("log_head");
    reveal_strlit("uptime_seconds");
    reveal_strlit("verify");
    reveal_strlit("commands");
    reveal_strlit("projectors");
    reveal_strlit("effects");
    reveal_strlit("events");
    reveal_strlit("public");
    reveal_strlit("internal");
    assert("log_head"@.len() == 8);
    assert("uptime_seconds"@.len() == 14);
    assert("verify"@.len() == 6);
    assert("commands"@.len() == 8);
    assert("projectors"@.len() == 10);
    assert("effects"@.len() == 7);
    assert("events"@.len() == 6);
    assert("public"@.len() == 6);
    assert("internal"@.len() == 8);
    assert("log_head"@[0] == 'l');
    assert("commands"@[0] == 'c');
    assert("internal"@[0] == 'i');
    assert("verify"@[0] == 'v');
    assert("events"@[0] == 'e');
    assert("public"@[0] == 'p');
}

/// How far a reader is behind the head of the log: the two make up the head, and a reader
/// that is past it is not behind at all.
pub open spec fn trails(head: u64, position: u64, lag: JsonView) -> bool {
    lag matches JsonView::Int(behind) && behind >= 0 && (position <= head ==> position + behind == head) && (
    position > head ==> behind == 0)
}

/// A report says of a projector where it stands, how far that is behind the head, and how its
/// rebuilds went.
pub proof fn law_a_report_says_where_a_projector_stands(projector: ProjectorStatus, head: u64)
    ensures
        ({
            let json = projector_json(projector, head);
            let shared = projector.shared;
            &&& json.member("name"@) == Some(JsonView::Text(shared.name@))
            &&& json.member("position"@) == Some(JsonView::Int(shared.position as int))
            &&& json.member("lag"@) matches Some(lag) && trails(head, shared.position, lag)
            &&& json.member("running"@) == Some(JsonView::Bool(shared.running))
            &&& json.member("failed"@) == Some(JsonView::Bool(shared.failed))
            &&& json.member("replays_completed"@) == Some(
                JsonView::Int(projector.replays_completed as int),
            )
            &&& json.member("replays_failed"@) == Some(JsonView::Int(projector.replays_failed as int))
            &&& json.member("readiness"@) == Some(JsonView::Text("ready"@)) <==> shared.readiness == 0
                || shared.readiness > 3
            &&& json.member("last_error"@) == Some(JsonView::Null) <==> shared.last_error is None
            &&& shared.last_error matches Some(error) ==> json.member("last_error"@) == Some(
                JsonView::Text(error@),
            )
        }),
{
    lemma_report_names();
}

/// A report says of an effect where it stands, how far that is behind the head, and what
/// holds it back.
pub proof fn law_a_report_says_where_an_effect_stands(effect: EffectStatus, head: u64)
    ensures
        ({
            let json = effect_json(effect, head);
            &&& json.member("name"@) == Some(JsonView::Text(effect.name@))
            &&& json.member("state"@) == Some(JsonView::Text(effect.state@))
            &&& json.member("position"@) == Some(JsonView::Int(effect.position as int))
            &&& json.member("lag"@) matches Some(lag) && trails(head, effect.position, lag)
            &&& json.member("consecutive_failures"@) == Some(
                JsonView::Int(effect.consecutive_failures as int),
            )
            &&& json.member("wedged_lanes"@) == Some(JsonView::Int(effect.wedged_lanes as int))
            &&& json.member("terminal_skips"@) == Some(JsonView::Int(effect.terminal_skips as int))
            &&& json.member("quarantined"@) == Some(JsonView::Bool(effect.quarantined))
            &&& effect.pinning matches Some((key, position)) ==> json.member("pinning_key"@) == Some(
                JsonView::Text(key@),
            ) && json.member("pinning_position"@) == Some(JsonView::Int(position as int))
            &&& effect.pinning is None ==> json.member("pinning_key"@) == Some(JsonView::Null)
                && json.member("pinning_position"@) == Some(JsonView::Null)
            &&& effect.last_error matches Some(error) ==> json.member("last_error"@) == Some(
                JsonView::Text(error@),
            )
            &&& effect.last_terminal_error matches Some(error) ==> json.member("last_terminal_error"@) == Some(
                JsonView::Text(error@),
            )
        }),
{
    lemma_report_names();
}

proof fn lemma_names_of(commands: Seq<CommandEntry>, internal: bool, name: Seq<char>)
    ensures
        names_of(commands, internal).contains(name) <==> exists|i: int|
            0 <= i < commands.len() && (#[trigger] commands[i]).name@ == name && commands[i].internal
                == internal,
    decreases commands.len(),
{
    if commands.len() > 0 {
        let rest = commands.drop_last();
        lemma_names_of(rest, internal, name);
        let names = names_of(rest, internal);
        let pushed = names.push(commands.last().name@);
        assert(pushed.contains(name) <==> names.contains(name) || commands.last().name@ == name) by {
            if names.contains(name) {
                let i = choose|i: int| 0 <= i < names.len() && names[i] == name;
                assert(pushed[i] == name);
            }
            if commands.last().name@ == name {
                assert(pushed[names.len() as int] == name);
            }
            if pushed.contains(name) && commands.last().name@ != name {
                let i = choose|i: int| 0 <= i < pushed.len() && pushed[i] == name;
                assert(names[i] == name);
            }
        }
        if exists|i: int|
            0 <= i < rest.len() && (#[trigger] rest[i]).name@ == name && rest[i].internal == internal {
            let i = choose|i: int|
                0 <= i < rest.len() && (#[trigger] rest[i]).name@ == name && rest[i].internal == internal;
            assert(commands[i].name@ == name);
        }
        if exists|i: int|
            0 <= i < commands.len() && (#[trigger] commands[i]).name@ == name && commands[i].internal
                == internal {
            let i = choose|i: int|
                0 <= i < commands.len() && (#[trigger] commands[i]).name@ == name && commands[i].internal
                    == internal;
            if i < rest.len() {
                assert(rest[i].name@ == name);
            }
        }
        if commands.last().name@ == name && commands.last().internal == internal {
            assert(commands[commands.len() - 1].name@ == name);
        }
    }
}

/// A report lists each command once, on the side of the surface it is on, and every projector
/// and every effect that runs.
pub proof fn law_a_report_leaves_nothing_out(status: RuntimeStatus, name: Seq<char>, projector: int, effect: int)
    requires
        0 <= projector < status.projectors.len(),
        0 <= effect < status.effects.len(),
    ensures
        ({
            let json = status_json(status);
            &&& json.member("log_head"@) == Some(JsonView::Int(status.log_head as int))
            &&& json.member("uptime_seconds"@) == Some(JsonView::Int(status.uptime_seconds as int))
            &&& json.member("verify"@) == Some(JsonView::Bool(status.verify))
            &&& json.member("events"@) == Some(JsonView::Int(status.events as int))
            &&& at_path(json, "commands"@, "public"@) matches Some(JsonView::Array(list)) && (list.contains(
                JsonView::Text(name),
            ) <==> exists|i: int|
                0 <= i < status.commands.len() && (#[trigger] status.commands@[i]).name@ == name
                    && !status.commands@[i].internal)
            &&& at_path(json, "commands"@, "internal"@) matches Some(JsonView::Array(list)) && (list.contains(
                JsonView::Text(name),
            ) <==> exists|i: int|
                0 <= i < status.commands.len() && (#[trigger] status.commands@[i]).name@ == name
                    && status.commands@[i].internal)
            &&& json.member("projectors"@) matches Some(JsonView::Array(list)) && list.len()
                == status.projectors.len() && list.contains(
                projector_json(status.projectors@[projector], status.log_head),
            )
            &&& json.member("effects"@) matches Some(JsonView::Array(list)) && list.len()
                == status.effects.len() && list.contains(
                effect_json(status.effects@[effect], status.log_head),
            )
        }),
{
    lemma_status_names();
    let json = status_json(status);
    lemma_listed_names(status.commands@, false, name);
    lemma_listed_names(status.commands@, true, name);
    let of_projector = |p: ProjectorStatus| projector_json(p, status.log_head);
    let of_effect = |e: EffectStatus| effect_json(e, status.log_head);
    let projectors = crate::order::sorted(status.projectors@, projector_order());
    let effects = crate::order::sorted(status.effects@, effect_order());
    lemma_sorted_keeps(status.projectors@, projector_order());
    lemma_sorted_keeps(status.effects@, effect_order());
    projectors.to_multiset_ensures();
    status.projectors@.to_multiset_ensures();
    effects.to_multiset_ensures();
    status.effects@.to_multiset_ensures();
    assert(status.projectors@.contains(status.projectors@[projector]));
    assert(status.effects@.contains(status.effects@[effect]));
    lemma_sorted_contains(status.projectors@, projector_order(), status.projectors@[projector]);
    lemma_sorted_contains(status.effects@, effect_order(), status.effects@[effect]);
    let i = choose|i: int| 0 <= i < projectors.len() && projectors[i] == status.projectors@[projector];
    let k = choose|k: int| 0 <= k < effects.len() && effects[k] == status.effects@[effect];
    assert(projectors.map_values(of_projector)[i] == projector_json(
        status.projectors@[projector],
        status.log_head,
    ));
    assert(effects.map_values(of_effect)[k] == effect_json(status.effects@[effect], status.log_head));
}

proof fn lemma_listed_names(commands: Seq<CommandEntry>, internal: bool, name: Seq<char>)
    ensures
        JsonView::texts(crate::order::sorted(names_of(commands, internal), text_order())) matches JsonView::Array(
            list,
        ) && (list.contains(JsonView::Text(name)) <==> exists|i: int|
            0 <= i < commands.len() && (#[trigger] commands[i]).name@ == name && commands[i].internal
                == internal),
{
    let names = names_of(commands, internal);
    let sorted_names = crate::order::sorted(names, text_order());
    lemma_names_of(commands, internal, name);
    lemma_sorted_contains(names, text_order(), name);
    let list = Seq::new(sorted_names.len(), |i: int| JsonView::Text(sorted_names[i]));
    if sorted_names.contains(name) {
        let i = choose|i: int| 0 <= i < sorted_names.len() && sorted_names[i] == name;
        assert(list[i] == JsonView::Text(name));
    }
    if list.contains(JsonView::Text(name)) {
        let i = choose|i: int| 0 <= i < list.len() && list[i] == JsonView::Text(name);
        assert(sorted_names[i] == name);
    }
}

} // verus!
