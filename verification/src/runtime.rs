//! The runtime's rules: how long a retry waits, what a command's outcome is answered with,
//! what a boot does in which order, and what a status report says.

use vstd::prelude::*;

use crate::digest::{kind_name, Entry};
use crate::json::{items_view, json_view, lemma_items, Json, JsonView};
use crate::metrics::{
    command_outcome, command_refusal, events_appended, sample_views, Reading, Sample, SampleView,
    COMMANDS, COMMAND_REFUSALS, EVENTS_APPENDED,
};
use crate::opdb::{declaration_view, DeclarationRow, DeclarationView};
use crate::order::{
    is_order, lemma_sorted_contains, lemma_sorted_ordered, lemma_text_order, ordered, sort, sort_texts, sorted,
    text_order, Ranked,
};
use crate::projector::{readiness_label, readiness_of, ProjectorShared};
use crate::schema::{subject_scoped, EmittedEvent, EventDef};
use crate::text::{copied_option, option_view, parsed_number, precedes, same, trim, trimmed, views};

verus! {

// ---------------------------------------------------------------------------
// Retrying
// ---------------------------------------------------------------------------

/// How many projections one runtime folds at once, so that a few requests cannot own the
/// pool that every other read runs on.
pub const PROJECTION_SLOTS: usize = 2;

/// How many times a command is decided anew on a conflict before the runtime gives up.
pub const DEFAULT_MAX_ATTEMPTS: u32 = 5;

/// The most that the number of attempts can be set to.
pub const MAX_ATTEMPTS_CAP: u32 = 15;

/// The most that one retry waits, in milliseconds. The wait blocks a thread, so without a
/// cap a large budget would be worse than a small one.
pub const BACKOFF_CAP_MS: u64 = 16;

/// A number of attempts, where a text is one.
pub open spec fn attempts_of(raw: Seq<char>) -> Option<int> {
    let text = trimmed(raw);
    if text.len() > 0 && text[0] == '-' {
        None
    } else {
        match parsed_number(text) {
            Some(n) => if 1 <= n <= u32::MAX {
                Some(n)
            } else {
                None
            },
            None => None,
        }
    }
}

/// The retry budget that a setting comes to.
pub open spec fn budget_of(setting: Option<Seq<char>>) -> int {
    match setting {
        None => DEFAULT_MAX_ATTEMPTS as int,
        Some(raw) => match attempts_of(raw) {
            None => DEFAULT_MAX_ATTEMPTS as int,
            Some(n) => if n < MAX_ATTEMPTS_CAP {
                n
            } else {
                MAX_ATTEMPTS_CAP as int
            },
        },
    }
}

/// The retry budget that a setting comes to. A setting that is no number, or below one,
/// falls back to the default rather than disabling the append, and all of it is capped.
pub fn max_attempts(setting: Option<&str>) -> (r: u32)
    ensures
        r == match setting {
            None => DEFAULT_MAX_ATTEMPTS as int,
            Some(raw) => match attempts_of(raw@) {
                None => DEFAULT_MAX_ATTEMPTS as int,
                Some(n) => if n < MAX_ATTEMPTS_CAP {
                    n
                } else {
                    MAX_ATTEMPTS_CAP as int
                },
            },
        },
        r == budget_of(
            match setting {
                Some(raw) => Some(raw@),
                None => None,
            },
        ),
        1 <= r <= MAX_ATTEMPTS_CAP,
{
    match setting {
        None => DEFAULT_MAX_ATTEMPTS,
        Some(raw) => {
            let text = trim(raw);
            let chars: Vec<char> = crate::text::chars_of(&text);
            if chars.len() > 0 && chars[0] == '-' {
                return DEFAULT_MAX_ATTEMPTS;
            }
            match crate::text::parse_i64(&text) {
                Some(n) => {
                    if n < 1 || n > u32::MAX as i64 {
                        DEFAULT_MAX_ATTEMPTS
                    } else if n < MAX_ATTEMPTS_CAP as i64 {
                        n as u32
                    } else {
                        MAX_ATTEMPTS_CAP
                    }
                },
                None => DEFAULT_MAX_ATTEMPTS,
            }
        },
    }
}

/// The longest wait before the retry after an attempt, in milliseconds: it doubles with
/// each attempt up to the cap.
pub open spec fn window_ms(attempt: u32) -> u64 {
    if attempt == 0 {
        1
    } else if attempt == 1 {
        2
    } else if attempt == 2 {
        4
    } else if attempt == 3 {
        8
    } else {
        BACKOFF_CAP_MS
    }
}

/// How long to wait before the retry after `attempt`, in microseconds: a draw out of a
/// window that doubles up to a cap, so that requests that conflict, which are in step by
/// definition, do not line up to conflict again. `roll` is the caller's random draw.
pub fn backoff_delay(attempt: u32, roll: u64) -> (r: u64)
    ensures
        r == roll as int % (window_ms(attempt) * 1000 + 1),
        r <= window_ms(attempt) * 1000,
        r <= BACKOFF_CAP_MS * 1000,
{
    // Held before the shift, so that the window is exact up to the cap and stays there.
    let exponent: u64 = if attempt < 5 { attempt as u64 } else { 5 };
    let doubled: u64 = 1u64 << exponent;
    proof {
        assert(1u64 << 0u64 == 1) by (bit_vector);
        assert(1u64 << 1u64 == 2) by (bit_vector);
        assert(1u64 << 2u64 == 4) by (bit_vector);
        assert(1u64 << 3u64 == 8) by (bit_vector);
        assert(1u64 << 4u64 == 16) by (bit_vector);
        assert(1u64 << 5u64 == 32) by (bit_vector);
    }
    let window: u64 = if doubled < BACKOFF_CAP_MS { doubled } else { BACKOFF_CAP_MS };
    roll % (window * 1000 + 1)
}

/// The cap is reached: at a high attempt the largest draw waits all of it.
pub proof fn law_backoff_reaches_its_cap(attempt: u32)
    requires
        attempt >= 4,
    ensures
        (BACKOFF_CAP_MS * 1000) % (window_ms(attempt) * 1000 + 1) == BACKOFF_CAP_MS * 1000,
{
    assert(window_ms(attempt) * 1000 + 1 == 16001);
    vstd::arithmetic::div_mod::lemma_small_mod(16000, 16001);
}

/// A later attempt draws from a window that is no smaller.
pub proof fn law_backoff_windows_grow(earlier: u32, later: u32)
    requires
        earlier <= later,
    ensures
        window_ms(earlier) <= window_ms(later) <= BACKOFF_CAP_MS,
{
}

/// The first state of a thread's draws, from what tells it apart: a counter of threads,
/// an address of its own, and bytes from the system.
pub open spec fn first_seed(thread: u64, address: u64, entropy: u64) -> u64 {
    let a = thread ^ address ^ entropy;
    let b = a ^ (a >> 30);
    let c = ((b as int * 0xbf58_476d_1ce4_e5b9) % 0x1_0000_0000_0000_0000) as u64;
    let d = c ^ (c >> 27);
    let e = ((d as int * 0x94d0_49bb_1331_11eb) % 0x1_0000_0000_0000_0000) as u64;
    (e ^ (e >> 31)) | 1
}

/// The first state of a thread's draws. Neither a failing source of entropy nor addresses
/// that lie close together make two threads draw alike.
pub fn jitter_seed(thread: u64, address: u64, entropy: u64) -> (r: u64)
    ensures
        r == first_seed(thread, address, entropy),
        r != 0,
{
    let mut mix: u64 = thread ^ address ^ entropy;
    mix = mix ^ (mix >> 30);
    mix = mix.wrapping_mul(0xbf58_476d_1ce4_e5b9);
    mix = mix ^ (mix >> 27);
    mix = mix.wrapping_mul(0x94d0_49bb_1331_11eb);
    assert((mix ^ (mix >> 31)) | 1 != 0) by (bit_vector);
    (mix ^ (mix >> 31)) | 1
}

/// The draw that follows a state, which is the next state.
pub open spec fn next_roll(seed: u64) -> u64 {
    let a = seed ^ (seed << 13);
    let b = a ^ (a >> 7);
    b ^ (b << 17)
}

/// The draw that follows a state, which is the next state. It never gets stuck at zero.
pub fn jitter_roll(seed: u64) -> (r: u64)
    ensures
        r == next_roll(seed),
        seed != 0 ==> r != 0,
{
    let a: u64 = seed ^ (seed << 13);
    let b: u64 = a ^ (a >> 7);
    assert(seed != 0 ==> seed ^ (seed << 13) != 0) by (bit_vector);
    assert(a != 0 ==> a ^ (a >> 7) != 0) by (bit_vector);
    assert(b != 0 ==> b ^ (b << 17) != 0) by (bit_vector);
    b ^ (b << 17)
}

// ---------------------------------------------------------------------------
// Responses
// ---------------------------------------------------------------------------

/// What ties a request to a trace.
pub struct CommandContext {
    pub correlation_id: String,
    pub causation_id: String,
}

/// The positions that appended events occupy.
#[derive(Debug, Clone, Copy, PartialEq, Eq, Structural)]
pub struct PositionRange {
    pub first: u64,
    pub last: u64,
}

/// An event of a commit that was recovered from the log.
pub struct RecoveredEvent {
    pub event_type: String,
    pub tags: Vec<String>,
}

/// A commit that was recovered from the log, with the identity of the request that made
/// it.
pub struct RecoveredOutcome {
    pub correlation_id: String,
    pub causation_id: String,
    pub positions: PositionRange,
    pub events: Vec<RecoveredEvent>,
}

/// What came of a command.
pub enum CommandOutcome {
    /// Its boundary kept changing.
    Conflict,
    Committed { events: Vec<EmittedEvent>, positions: Option<PositionRange> },
    /// A prior request with the same key committed.
    AlreadyCommitted(RecoveredOutcome),
    Rejected { code: String, message: String },
    InvalidInput { message: String },
    Unavailable { message: String },
}

/// The answer to a command: the status, and the body.
pub struct ExecResult {
    pub status: u16,
    pub body: Json,
}

/// The error envelope.
pub open spec fn error_json(ctx: CommandContext, code: Seq<char>, message: Seq<char>) -> JsonView {
    JsonView::object().with("correlation_id"@, JsonView::Text(ctx.correlation_id@)).with(
        "causation_id"@,
        JsonView::Text(ctx.causation_id@),
    ).with(
        "error"@,
        JsonView::object().with("code"@, JsonView::Text(code)).with(
            "message"@,
            JsonView::Text(message),
        ),
    )
}

/// The error envelope.
pub fn error_body(ctx: &CommandContext, code: &str, message: &str) -> (r: Json)
    ensures
        r@ == error_json(*ctx, code@, message@),
{
    Json::object().with("correlation_id", Json::text(&ctx.correlation_id)).with(
        "causation_id",
        Json::text(&ctx.causation_id),
    ).with(
        "error",
        Json::object().with("code", Json::text(code)).with("message", Json::text(message)),
    )
}

pub open spec fn conflict_message() -> Seq<char> {
    "the command's consistency boundary kept changing during the request; retry"@
}

/// The body for a request whose boundary kept changing until the runtime gave up.
pub fn conflict_body(ctx: &CommandContext) -> (r: Json)
    ensures
        r@ == error_json(*ctx, "concurrency_conflict"@, conflict_message()),
{
    error_body(
        ctx,
        "concurrency_conflict",
        "the command's consistency boundary kept changing during the request; retry",
    )
}

/// A tag as it is reported.
pub open spec fn tag_text(tag: (String, Option<String>)) -> Seq<char> {
    match tag.1 {
        Some(value) => tag.0@ + ":"@ + value@,
        None => tag.0@,
    }
}

/// The tags of a list as they are reported, in order.
pub open spec fn tag_texts(tags: Seq<(String, Option<String>)>) -> Seq<Seq<char>> {
    sorted(Seq::new(tags.len(), |i: int| tag_text(tags[i])), text_order())
}

/// Writes tags as `key:value` or `key`, in order, so that a fresh outcome reads like one
/// that was recovered from the log, where tags are kept in order.
pub fn tag_strings(tags: &Vec<(String, Option<String>)>) -> (r: Vec<String>)
    ensures
        views(r@) == tag_texts(tags@),
{
    let mut out: Vec<String> = Vec::new();
    let mut i: usize = 0;
    while i < tags.len()
        invariant
            i <= tags.len(),
            out.len() == i,
            forall|k: int| 0 <= k < i ==> (#[trigger] out@[k])@ == tag_text(tags@[k]),
        decreases tags.len() - i,
    {
        let mut text = tags[i].0.clone();
        if let Some(value) = &tags[i].1 {
            text.append(":");
            text.append(value);
        }
        out.push(text);
        i += 1;
    }
    assert(views(out@) =~= Seq::new(tags@.len(), |i: int| tag_text(tags@[i])));
    sort_texts(out)
}

/// The declared event of that type.
pub open spec fn event_named(defs: Seq<EventDef>, event_type: Seq<char>) -> Option<EventDef>
    decreases defs.len(),
{
    if defs.len() == 0 {
        None
    } else if defs[0].event_type@ == event_type {
        Some(defs[0])
    } else {
        event_named(defs.skip(1), event_type)
    }
}

/// The declared event of that type.
pub fn find_event<'a>(defs: &'a Vec<EventDef>, event_type: &str) -> (r: Option<&'a EventDef>)
    ensures
        match r {
            Some(def) => event_named(defs@, event_type@) == Some(*def),
            None => event_named(defs@, event_type@) is None,
        },
{
    let mut i: usize = 0;
    assert(defs@.skip(0) =~= defs@);
    while i < defs.len()
        invariant
            i <= defs.len(),
            event_named(defs@.skip(i as int), event_type@) == event_named(defs@, event_type@),
        decreases defs.len() - i,
    {
        if same(&defs[i].event_type, event_type) {
            assert(defs@.skip(i as int)[0] == defs@[i as int]);
            return Some(&defs[i]);
        }
        assert(defs@.skip(i as int).skip(1) =~= defs@.skip(i as int + 1));
        i += 1;
    }
    None
}

/// Whether the tag of a field is left out of a response: its stored form is ciphertext.
pub open spec fn is_hidden(defs: Seq<EventDef>, event_type: Seq<char>, key: Seq<char>) -> bool {
    match event_named(defs, event_type) {
        Some(def) => subject_scoped(def, key),
        None => false,
    }
}

/// The tags of an event that a response reports.
pub open spec fn shown_tags(
    defs: Seq<EventDef>,
    event_type: Seq<char>,
    tags: Seq<(String, Option<String>)>,
) -> Seq<(String, Option<String>)>
    decreases tags.len(),
{
    if tags.len() == 0 {
        Seq::empty()
    } else if is_hidden(defs, event_type, tags.last().0@) {
        shown_tags(defs, event_type, tags.drop_last())
    } else {
        shown_tags(defs, event_type, tags.drop_last()).push(tags.last())
    }
}

/// An event in a response: its type and its tags.
pub open spec fn event_json(event_type: Seq<char>, tags: Seq<Seq<char>>) -> JsonView {
    JsonView::object().with("type"@, JsonView::Text(event_type)).with("tags"@, JsonView::texts(tags))
}

pub open spec fn positions_json(positions: Option<PositionRange>) -> JsonView {
    match positions {
        Some(range) => JsonView::object().with("first"@, JsonView::Int(range.first as int)).with(
            "last"@,
            JsonView::Int(range.last as int),
        ),
        None => JsonView::Null,
    }
}

/// The body for a commit.
pub open spec fn committed_json(
    correlation_id: Seq<char>,
    causation_id: Seq<char>,
    positions: Option<PositionRange>,
    events: Seq<JsonView>,
) -> JsonView {
    JsonView::object().with("correlation_id"@, JsonView::Text(correlation_id)).with(
        "causation_id"@,
        JsonView::Text(causation_id),
    ).with("positions"@, positions_json(positions)).with("events"@, JsonView::Array(events))
}

fn committed_body(
    correlation_id: &str,
    causation_id: &str,
    positions: Option<PositionRange>,
    events: Vec<Json>,
) -> (r: Json)
    ensures
        r@ == committed_json(correlation_id@, causation_id@, positions, items_view(events@)),
{
    let range = match positions {
        Some(range) => Json::object().with("first", Json::uint(range.first)).with(
            "last",
            Json::uint(range.last),
        ),
        None => Json::Null,
    };
    Json::object().with("correlation_id", Json::text(correlation_id)).with(
        "causation_id",
        Json::text(causation_id),
    ).with("positions", range).with("events", Json::Array(events))
}

/// The events of a fresh commit as a response reports them.
pub open spec fn fresh_events(defs: Seq<EventDef>, events: Seq<EmittedEvent>) -> Seq<JsonView> {
    Seq::new(
        events.len(),
        |i: int|
            event_json(
                events[i].event_type@,
                tag_texts(shown_tags(defs, events[i].event_type@, events[i].tags@)),
            ),
    )
}

/// The events of a recovered commit as a response reports them.
pub open spec fn recovered_events(events: Seq<RecoveredEvent>) -> Seq<JsonView> {
    Seq::new(events.len(), |i: int| event_json(events[i].event_type@, views(events[i].tags@)))
}

fn visible_tags(defs: &Vec<EventDef>, event: &EmittedEvent) -> (r: Vec<(String, Option<String>)>)
    ensures
        r@ == shown_tags(defs@, event.event_type@, event.tags@),
{
    let def = find_event(defs, &event.event_type);
    let mut out: Vec<(String, Option<String>)> = Vec::new();
    let mut i: usize = 0;
    assert(event.tags@.take(0) =~= Seq::empty());
    while i < event.tags.len()
        invariant
            i <= event.tags.len(),
            match def {
                Some(found) => event_named(defs@, event.event_type@) == Some(*found),
                None => event_named(defs@, event.event_type@) is None,
            },
            out@ == shown_tags(defs@, event.event_type@, event.tags@.take(i as int)),
        decreases event.tags.len() - i,
    {
        assert(event.tags@.take(i as int + 1).drop_last() =~= event.tags@.take(i as int));
        assert(event.tags@.take(i as int + 1).last() == event.tags@[i as int]);
        let hidden = match def {
            Some(found) => found.is_subject(&event.tags[i].0),
            None => false,
        };
        if !hidden {
            let key = event.tags[i].0.clone();
            let value = copied_option(&event.tags[i].1);
            out.push((key, value));
        }
        i += 1;
    }
    assert(event.tags@.take(i as int) =~= event.tags@);
    out
}

/// The body for a fresh commit. Tags of encrypted fields are left out: they cannot be
/// recovered from the log, and the two responses must be the same.
pub fn success_body(
    ctx: &CommandContext,
    positions: Option<PositionRange>,
    events: &Vec<EmittedEvent>,
    defs: &Vec<EventDef>,
) -> (r: Json)
    ensures
        r@ == committed_json(
            ctx.correlation_id@,
            ctx.causation_id@,
            positions,
            fresh_events(defs@, events@),
        ),
{
    let mut out: Vec<Json> = Vec::new();
    let mut i: usize = 0;
    while i < events.len()
        invariant
            i <= events.len(),
            out.len() == i,
            forall|k: int| 0 <= k < i ==> json_view(#[trigger] out@[k]) == fresh_events(defs@, events@)[k],
        decreases events.len() - i,
    {
        let tags = tag_strings(&visible_tags(defs, &events[i]));
        out.push(
            Json::object().with("type", Json::text(&events[i].event_type)).with(
                "tags",
                Json::texts(&tags),
            ),
        );
        i += 1;
    }
    proof {
        lemma_items(out@);
        assert(items_view(out@) =~= fresh_events(defs@, events@));
    }
    committed_body(&ctx.correlation_id, &ctx.causation_id, positions, out)
}

/// The body for a commit that was recovered from the log, with the identity of the
/// request that made it.
pub fn recovered_body(recovered: &RecoveredOutcome) -> (r: Json)
    ensures
        r@ == committed_json(
            recovered.correlation_id@,
            recovered.causation_id@,
            Some(recovered.positions),
            recovered_events(recovered.events@),
        ),
{
    let mut out: Vec<Json> = Vec::new();
    let mut i: usize = 0;
    while i < recovered.events.len()
        invariant
            i <= recovered.events.len(),
            out.len() == i,
            forall|k: int|
                0 <= k < i ==> json_view(#[trigger] out@[k]) == recovered_events(recovered.events@)[k],
        decreases recovered.events.len() - i,
    {
        let event = &recovered.events[i];
        out.push(
            Json::object().with("type", Json::text(&event.event_type)).with(
                "tags",
                Json::texts(&event.tags),
            ),
        );
        i += 1;
    }
    proof {
        lemma_items(out@);
        assert(items_view(out@) =~= recovered_events(recovered.events@));
    }
    committed_body(
        &recovered.correlation_id,
        &recovered.causation_id,
        Some(recovered.positions),
        out,
    )
}

/// A client cannot tell a retry from a first attempt: where the log gives back the
/// request's identity, its positions, and the types and plaintext tags of its events, the
/// recovered response is the fresh one.
pub proof fn law_a_recovered_response_is_the_fresh_one(
    ctx: CommandContext,
    positions: PositionRange,
    events: Seq<EmittedEvent>,
    defs: Seq<EventDef>,
    recovered: RecoveredOutcome,
)
    requires
        recovered.correlation_id@ == ctx.correlation_id@,
        recovered.causation_id@ == ctx.causation_id@,
        recovered.positions == positions,
        recovered.events.len() == events.len(),
        forall|i: int|
            0 <= i < events.len() ==> {
                &&& (#[trigger] recovered.events@[i]).event_type@ == events[i].event_type@
                &&& views(recovered.events@[i].tags@) == tag_texts(
                    shown_tags(defs, events[i].event_type@, events[i].tags@),
                )
            },
    ensures
        committed_json(
            recovered.correlation_id@,
            recovered.causation_id@,
            Some(recovered.positions),
            recovered_events(recovered.events@),
        ) == committed_json(
            ctx.correlation_id@,
            ctx.causation_id@,
            Some(positions),
            fresh_events(defs, events),
        ),
{
    assert(recovered_events(recovered.events@) =~= fresh_events(defs, events));
}

/// No tag of an encrypted field is in a response.
pub proof fn law_encrypted_tags_are_not_reported(
    defs: Seq<EventDef>,
    event_type: Seq<char>,
    tags: Seq<(String, Option<String>)>,
)
    ensures
        forall|i: int|
            0 <= i < shown_tags(defs, event_type, tags).len() ==> !is_hidden(
                defs,
                event_type,
                (#[trigger] shown_tags(defs, event_type, tags)[i]).0@,
            ),
    decreases tags.len(),
{
    if tags.len() > 0 {
        law_encrypted_tags_are_not_reported(defs, event_type, tags.drop_last());
        let rest = shown_tags(defs, event_type, tags.drop_last());
        assert forall|i: int| 0 <= i < shown_tags(defs, event_type, tags).len() implies !is_hidden(
            defs,
            event_type,
            (#[trigger] shown_tags(defs, event_type, tags)[i]).0@,
        ) by {
            if i < rest.len() {
                assert(shown_tags(defs, event_type, tags)[i] == rest[i]);
            }
        }
    }
}

/// The status of an outcome.
pub open spec fn outcome_status(outcome: CommandOutcome) -> u16 {
    match outcome {
        CommandOutcome::Conflict => 409,
        CommandOutcome::Committed { .. } => 200,
        CommandOutcome::AlreadyCommitted(_) => 200,
        CommandOutcome::Rejected { .. } => 422,
        CommandOutcome::InvalidInput { .. } => 400,
        CommandOutcome::Unavailable { .. } => 503,
    }
}

/// The body of an outcome.
pub open spec fn outcome_json(ctx: CommandContext, outcome: CommandOutcome, defs: Seq<EventDef>) -> JsonView {
    match outcome {
        CommandOutcome::Conflict => error_json(ctx, "concurrency_conflict"@, conflict_message()),
        CommandOutcome::Committed { events, positions } => committed_json(
            ctx.correlation_id@,
            ctx.causation_id@,
            positions,
            fresh_events(defs, events@),
        ),
        CommandOutcome::AlreadyCommitted(recovered) => committed_json(
            recovered.correlation_id@,
            recovered.causation_id@,
            Some(recovered.positions),
            recovered_events(recovered.events@),
        ),
        CommandOutcome::Rejected { code, message } => error_json(ctx, code@, message@),
        CommandOutcome::InvalidInput { message } => error_json(ctx, "invalid_input"@, message@),
        CommandOutcome::Unavailable { message } => error_json(ctx, "unavailable"@, message@),
    }
}

/// The word that an outcome is counted under.
pub open spec fn outcome_word(outcome: CommandOutcome) -> Seq<char> {
    match outcome {
        CommandOutcome::Conflict => "conflict"@,
        CommandOutcome::Committed { .. } => "committed"@,
        CommandOutcome::AlreadyCommitted(_) => "already_committed"@,
        CommandOutcome::Rejected { .. } => "rejected"@,
        CommandOutcome::InvalidInput { .. } => "invalid_input"@,
        CommandOutcome::Unavailable { .. } => "unavailable"@,
    }
}

/// What an outcome is answered with.
pub fn respond(ctx: &CommandContext, outcome: &CommandOutcome, defs: &Vec<EventDef>) -> (r: ExecResult)
    ensures
        r.status == outcome_status(*outcome),
        r.body@ == outcome_json(*ctx, *outcome, defs@),
{
    match outcome {
        CommandOutcome::Conflict => ExecResult { status: 409, body: conflict_body(ctx) },
        CommandOutcome::Committed { events, positions } => ExecResult {
            status: 200,
            body: success_body(ctx, *positions, events, defs),
        },
        CommandOutcome::AlreadyCommitted(recovered) => ExecResult {
            status: 200,
            body: recovered_body(recovered),
        },
        CommandOutcome::Rejected { code, message } => ExecResult {
            status: 422,
            body: error_body(ctx, code, message),
        },
        CommandOutcome::InvalidInput { message } => ExecResult {
            status: 400,
            body: error_body(ctx, "invalid_input", message),
        },
        CommandOutcome::Unavailable { message } => ExecResult {
            status: 503,
            body: error_body(ctx, "unavailable", message),
        },
    }
}

/// What an outcome is counted as: once under its word, and beside that each event that it
/// appended, or the code that it was refused with. A recovered commit appended nothing.
pub open spec fn outcome_counts(command: Seq<char>, outcome: CommandOutcome) -> Seq<SampleView> {
    seq![
        (
            COMMANDS@,
            seq![("command"@, command), ("outcome"@, outcome_word(outcome))],
            Reading::Add(1),
        ),
    ] + match outcome {
        CommandOutcome::Committed { events, .. } => Seq::new(
            events.len() as nat,
            |i: int|
                (EVENTS_APPENDED@, seq![("event"@, events@[i].event_type@)], Reading::Add(1)),
        ),
        CommandOutcome::Rejected { code, .. } => seq![
            (
                COMMAND_REFUSALS@,
                seq![("command"@, command), ("code"@, code@)],
                Reading::Add(1),
            ),
        ],
        _ => Seq::empty(),
    }
}

/// What an outcome is counted as.
pub fn count_outcome(command: &str, outcome: &CommandOutcome) -> (r: Vec<Sample>)
    ensures
        sample_views(r@) == outcome_counts(command@, *outcome),
{
    let word = match outcome {
        CommandOutcome::Conflict => "conflict",
        CommandOutcome::Committed { .. } => "committed",
        CommandOutcome::AlreadyCommitted(_) => "already_committed",
        CommandOutcome::Rejected { .. } => "rejected",
        CommandOutcome::InvalidInput { .. } => "invalid_input",
        CommandOutcome::Unavailable { .. } => "unavailable",
    };
    let mut out: Vec<Sample> = Vec::new();
    out.push(command_outcome(command, word));
    match outcome {
        CommandOutcome::Committed { events, .. } => {
            let mut more = events_appended(events);
            out.append(&mut more);
        },
        CommandOutcome::Rejected { code, .. } => {
            out.push(command_refusal(command, code));
        },
        _ => {},
    }
    assert(sample_views(out@) =~= outcome_counts(command@, *outcome));
    out
}

// ---------------------------------------------------------------------------
// Finding a command
// ---------------------------------------------------------------------------

/// A loaded command: its name, and whether it is off the public surface.
pub struct CommandEntry {
    pub name: String,
    pub internal: bool,
}

/// Where a command stands that a caller may run: an effect may run any, a request only a
/// public one.
pub open spec fn command_for(commands: Seq<CommandEntry>, name: Seq<char>, from_effect: bool) -> Option<int>
    decreases commands.len(),
{
    if commands.len() == 0 {
        None
    } else if commands.last().name@ == name {
        if from_effect || !commands.last().internal {
            Some(commands.len() - 1)
        } else {
            None
        }
    } else {
        command_for(commands.drop_last(), name, from_effect)
    }
}

/// Why a command is not run.
pub open spec fn unknown_command(name: Seq<char>, from_effect: bool) -> Seq<char> {
    if from_effect {
        "no command `"@ + name + "`"@
    } else {
        "no public command `"@ + name + "`"@
    }
}

/// Finds the command that a caller asks for. A name that is not loaded, or an internal
/// command that a request asks for, is answered with a 404.
pub fn resolve_command(commands: &Vec<CommandEntry>, name: &str, from_effect: bool, ctx: &CommandContext) -> (r: Result<
    usize,
    ExecResult,
>)
    ensures
        match r {
            Ok(i) => command_for(commands@, name@, from_effect) == Some(i as int),
            Err(answer) => {
                &&& command_for(commands@, name@, from_effect) is None
                &&& answer.status == 404
                &&& answer.body@ == error_json(
                    *ctx,
                    "not_found"@,
                    unknown_command(name@, from_effect),
                )
            },
        },
{
    let mut i: usize = commands.len();
    assert(commands@.take(i as int) =~= commands@);
    while i > 0
        invariant
            i <= commands.len(),
            command_for(commands@.take(i as int), name@, from_effect) == command_for(
                commands@,
                name@,
                from_effect,
            ),
        decreases i,
    {
        assert(commands@.take(i as int).drop_last() =~= commands@.take(i as int - 1));
        assert(commands@.take(i as int).last() == commands@[i as int - 1]);
        i -= 1;
        if same(&commands[i].name, name) {
            if from_effect || !commands[i].internal {
                return Ok(i);
            }
            let mut message = "no public command `".to_owned();
            message.append(name);
            message.append("`");
            return Err(ExecResult { status: 404, body: error_body(ctx, "not_found", &message) });
        }
    }
    let mut message = if from_effect {
        "no command `".to_owned()
    } else {
        "no public command `".to_owned()
    };
    message.append(name);
    message.append("`");
    Err(ExecResult { status: 404, body: error_body(ctx, "not_found", &message) })
}

/// An internal command cannot be run over the public surface, and an effect can run it.
pub proof fn law_an_internal_command_is_off_the_surface(commands: Seq<CommandEntry>, name: Seq<char>)
    ensures
        command_for(commands, name, false) matches Some(at) ==> 0 <= at < commands.len()
            && !commands[at].internal && command_for(commands, name, true) == Some(at),
    decreases commands.len(),
{
    if commands.len() > 0 && commands.last().name@ != name {
        law_an_internal_command_is_off_the_surface(commands.drop_last(), name);
    }
}

// ---------------------------------------------------------------------------
// Declarations
// ---------------------------------------------------------------------------

/// The row that a declaration is recorded as. The times are the writer's to set.
pub open spec fn declared_row(entry: Entry) -> DeclarationView {
    DeclarationView {
        kind: kind_name(entry.kind),
        name: entry.name@,
        hash: entry.hash@,
        signature_hash: option_view(entry.signature_hash),
        form: entry.packed@,
        signature: option_view(entry.signature),
        module: option_view(entry.module),
        first_seen: Seq::empty(),
        last_seen: Seq::empty(),
        current: true,
    }
}

/// Every declaration that a project deploys, as rows. The packed form stands beside the
/// hash because it reads back, so that a hash can later be shown as what it stands for.
pub fn declarations(entries: &Vec<Entry>) -> (r: Vec<DeclarationRow>)
    ensures
        r.len() == entries.len(),
        forall|i: int|
            0 <= i < r.len() ==> declaration_view(#[trigger] r@[i]) == declared_row(entries@[i]),
{
    let mut out: Vec<DeclarationRow> = Vec::new();
    let mut i: usize = 0;
    while i < entries.len()
        invariant
            i <= entries.len(),
            out.len() == i,
            forall|k: int|
                0 <= k < i ==> declaration_view(#[trigger] out@[k]) == declared_row(entries@[k]),
        decreases entries.len() - i,
    {
        let entry = &entries[i];
        out.push(
            DeclarationRow {
                kind: entry.kind.name().to_owned(),
                name: entry.name.clone(),
                hash: entry.hash.clone(),
                signature_hash: copied_option(&entry.signature_hash),
                form: entry.packed.clone(),
                signature: copied_option(&entry.signature),
                module: copied_option(&entry.module),
                first_seen: String::new(),
                last_seen: String::new(),
                current: true,
            },
        );
        i += 1;
    }
    out
}


// ---------------------------------------------------------------------------
// Booting
// ---------------------------------------------------------------------------

/// What a runtime is opened for.
#[derive(Debug, Clone, Copy, PartialEq, Eq, Structural)]
pub enum Purpose {
    /// To serve: every thread is started.
    Serve,
    /// To audit what is recorded: nothing is started and nothing advances.
    Verify,
    /// To plan a deploy over a directory that may be serving: no claim on it is taken.
    Plan,
}

/// One step of opening a runtime.
#[derive(Debug, Clone, Copy, PartialEq, Eq, Structural)]
pub enum BootStep {
    /// Refuse a project that was loaded with a scratch module.
    RefuseScratch,
    /// Take the exclusive claim on the data directory, before anything opens the log.
    ClaimDirectory,
    /// Open the event log for writing.
    OpenLog,
    /// Follow the event log without a claim on it.
    FollowLog,
    /// Open the operational database.
    OpenBooks,
    /// Refuse where a required credential is not set.
    CheckSecrets,
    /// Refuse where the program cannot read what the log holds.
    CheckHistory,
    /// Refuse where a subject is declared and no master key is configured.
    CheckSubjects,
    /// Refuse where a stored key was wrapped under a master that is not configured.
    CheckMasters,
    /// Put every subject key under the parent that the declarations name.
    AdoptKeys,
    /// Record what is deployed.
    RecordDeclarations,
    StartProjectors,
    StartEffects,
}

/// Whether a step may refuse the boot for what is being deployed.
pub open spec fn refuses(step: BootStep) -> bool {
    match step {
        BootStep::RefuseScratch | BootStep::CheckSecrets | BootStep::CheckHistory
        | BootStep::CheckSubjects | BootStep::CheckMasters | BootStep::AdoptKeys => true,
        _ => false,
    }
}

/// Whether a step leaves a trace of what is being deployed.
pub open spec fn leaves_trace(step: BootStep) -> bool {
    match step {
        BootStep::RecordDeclarations | BootStep::StartProjectors | BootStep::StartEffects => true,
        _ => false,
    }
}

/// The steps of opening a runtime. `keyed` says that a master key is configured.
pub open spec fn boot_steps(purpose: Purpose, keyed: bool) -> Seq<BootStep> {
    match purpose {
        Purpose::Serve => seq![
            BootStep::RefuseScratch,
            BootStep::ClaimDirectory,
            BootStep::OpenLog,
            BootStep::OpenBooks,
            BootStep::CheckSecrets,
            BootStep::CheckHistory,
            BootStep::CheckSubjects,
        ] + (if keyed {
            seq![BootStep::CheckMasters, BootStep::AdoptKeys]
        } else {
            Seq::empty()
        }) + seq![
            BootStep::RecordDeclarations,
            BootStep::StartProjectors,
            BootStep::StartEffects,
        ],
        Purpose::Verify => seq![
            BootStep::RefuseScratch,
            BootStep::ClaimDirectory,
            BootStep::OpenLog,
            BootStep::CheckSubjects,
            BootStep::CheckSecrets,
            BootStep::OpenBooks,
            BootStep::CheckHistory,
        ] + (if keyed {
            seq![BootStep::CheckMasters]
        } else {
            Seq::empty()
        }),
        Purpose::Plan => seq![BootStep::RefuseScratch, BootStep::FollowLog, BootStep::OpenBooks],
    }
}

/// The steps of opening a runtime, in the order they are taken. The first that fails ends
/// it.
pub fn boot(purpose: Purpose, keyed: bool) -> (r: Vec<BootStep>)
    ensures
        r@ == boot_steps(purpose, keyed),
{
    let mut out: Vec<BootStep> = Vec::new();
    out.push(BootStep::RefuseScratch);
    match purpose {
        Purpose::Serve => {
            out.push(BootStep::ClaimDirectory);
            out.push(BootStep::OpenLog);
            out.push(BootStep::OpenBooks);
            out.push(BootStep::CheckSecrets);
            out.push(BootStep::CheckHistory);
            out.push(BootStep::CheckSubjects);
            if keyed {
                out.push(BootStep::CheckMasters);
                out.push(BootStep::AdoptKeys);
            }
            out.push(BootStep::RecordDeclarations);
            out.push(BootStep::StartProjectors);
            out.push(BootStep::StartEffects);
        },
        Purpose::Verify => {
            out.push(BootStep::ClaimDirectory);
            out.push(BootStep::OpenLog);
            out.push(BootStep::CheckSubjects);
            out.push(BootStep::CheckSecrets);
            out.push(BootStep::OpenBooks);
            out.push(BootStep::CheckHistory);
            if keyed {
                out.push(BootStep::CheckMasters);
            }
        },
        Purpose::Plan => {
            out.push(BootStep::FollowLog);
            out.push(BootStep::OpenBooks);
        },
    }
    assert(out@ =~= boot_steps(purpose, keyed));
    out
}

/// A boot that refuses leaves no trace of having happened: nothing is recorded or started
/// before every refusal is behind it.
pub proof fn law_a_refused_boot_leaves_no_trace(purpose: Purpose, keyed: bool, i: int, j: int)
    requires
        0 <= i < boot_steps(purpose, keyed).len(),
        0 <= j < boot_steps(purpose, keyed).len(),
        leaves_trace(boot_steps(purpose, keyed)[i]),
        refuses(boot_steps(purpose, keyed)[j]),
    ensures
        j < i,
{
}

/// Opening a runtime to audit or to plan leaves no trace, and a plan takes no claim.
pub proof fn law_a_reader_leaves_no_trace(purpose: Purpose, keyed: bool, i: int)
    requires
        purpose != Purpose::Serve,
        0 <= i < boot_steps(purpose, keyed).len(),
    ensures
        !leaves_trace(boot_steps(purpose, keyed)[i]),
        purpose == Purpose::Plan ==> boot_steps(purpose, keyed)[i] != BootStep::ClaimDirectory,
{
}

/// Why a project is refused that was loaded with a scratch module.
pub open spec fn scratch_message(name: Seq<char>) -> Seq<char> {
    "this project was loaded with the scratch module `"@ + name
        + "`, which is a question rather than a deployment; load it without one to run it"@
}

/// Refuses a project that was loaded with a scratch module: it is a question, not a
/// deployment.
pub fn refuse_scratch(scratch: &Option<String>) -> (r: Result<(), String>)
    ensures
        match r {
            Ok(()) => *scratch is None,
            Err(message) => *scratch is Some && message@ == scratch_message(scratch->0@),
        },
{
    match scratch {
        Some(name) => {
            let mut message = "this project was loaded with the scratch module `".to_owned();
            message.append(name);
            message.append(
                "`, which is a question rather than a deployment; load it without one to run it",
            );
            Err(message)
        },
        None => Ok(()),
    }
}

/// Why a project is refused that declares a subject without a master key to be had.
pub open spec fn subject_message(purpose: Purpose) -> Seq<char> {
    match purpose {
        Purpose::Verify =>
            "this project declares a subject (`subject Customer(Int)`), so HEKLA_MASTER_KEY must be set to verify it"@,
        _ =>
            "this project declares a subject (`subject Customer(Int)`), so HEKLA_MASTER_KEY must be set"@,
    }
}

/// Refuses a project that declares a subject where no master key is configured. A plan is
/// not refused: it counts what it cannot replay.
pub fn require_master(declares_subject: bool, keyed: bool, purpose: Purpose) -> (r: Result<(), String>)
    ensures
        match r {
            Ok(()) => !declares_subject || keyed || purpose == Purpose::Plan,
            Err(message) => declares_subject && !keyed && purpose != Purpose::Plan && message@
                == subject_message(purpose),
        },
{
    if !declares_subject || keyed {
        return Ok(());
    }
    match purpose {
        Purpose::Serve => Err(
            "this project declares a subject (`subject Customer(Int)`), so HEKLA_MASTER_KEY must be set".to_owned(),
        ),
        Purpose::Verify => Err(
            "this project declares a subject (`subject Customer(Int)`), so HEKLA_MASTER_KEY must be set to verify it".to_owned(),
        ),
        Purpose::Plan => Ok(()),
    }
}

/// How far the adoption of keys advances between two lines of progress.
pub const ADOPT_PROGRESS: u64 = 250_000;

/// Whether a line of progress is due at a position of the adoption, and the position that the
/// next one counts from.
pub open spec fn adopted(last: u64, position: u64) -> (bool, u64) {
    let from = if position < last {
        0
    } else {
        last
    };
    if position - from >= ADOPT_PROGRESS {
        (true, position)
    } else {
        (false, from)
    }
}

/// Takes in a position of the adoption, and says whether a line of progress is due. It
/// makes more than one pass where something else writes, and each starts over, so the
/// position may go back.
pub fn adopt_progress(last: &mut u64, position: u64) -> (r: bool)
    ensures
        ({
            let from = if position < *old(last) { 0 } else { *old(last) };
            &&& r == (position - from >= ADOPT_PROGRESS)
            &&& *final(last) == if r { position } else { from }
        }),
        (r, *final(last)) == adopted(*old(last), position),
{
    if position < *last {
        *last = 0;
    }
    if position - *last >= ADOPT_PROGRESS {
        *last = position;
        return true;
    }
    false
}

/// The path of a file in a directory.
pub open spec fn path_in(dir: Seq<char>, name: Seq<char>) -> Seq<char> {
    if dir.len() == 0 || dir.last() == '/' {
        dir + name
    } else {
        dir + "/"@ + name
    }
}

/// The data directory: the one that is given, or `data` in the project.
pub fn resolve_data_dir(project_dir: &str, data_dir: Option<&str>) -> (r: String)
    ensures
        r@ == match data_dir {
            Some(dir) => dir@,
            None => path_in(project_dir@, "data"@),
        },
{
    match data_dir {
        Some(dir) => dir.to_owned(),
        None => {
            let mut out = project_dir.to_owned();
            let n: usize = project_dir.unicode_len();
            if n > 0 && project_dir.get_char(n - 1) != '/' {
                out.append("/");
            }
            out.append("data");
            out
        },
    }
}

// ---------------------------------------------------------------------------
// Status
// ---------------------------------------------------------------------------

/// A projector in a status report.
pub struct ProjectorStatus {
    pub shared: ProjectorShared,
    /// Rebuilds since the start.
    pub replays_completed: u64,
    pub replays_failed: u64,
}

/// An effect in a status report.
pub struct EffectStatus {
    pub name: String,
    pub state: String,
    pub position: u64,
    pub consecutive_failures: u64,
    pub last_error: Option<String>,
    pub wedged_lanes: u64,
    /// The lane whose failure holds the effect back, and where.
    pub pinning: Option<(String, u64)>,
    pub quarantined: bool,
    pub terminal_skips: u64,
    pub last_terminal_error: Option<String>,
}

/// What a status report is made of.
pub struct RuntimeStatus {
    pub log_head: u64,
    pub uptime_seconds: u64,
    pub verify: bool,
    pub commands: Vec<CommandEntry>,
    pub projectors: Vec<ProjectorStatus>,
    pub effects: Vec<EffectStatus>,
    /// How many event types are declared.
    pub events: usize,
}

pub open spec fn lag_json(head: u64, position: u64) -> JsonView {
    JsonView::Int(crate::metrics::lag(head, position) as int)
}

pub open spec fn projector_json(projector: ProjectorStatus, head: u64) -> JsonView {
    let shared = projector.shared;
    JsonView::object().with("name"@, JsonView::Text(shared.name@)).with(
        "position"@,
        JsonView::Int(shared.position as int),
    ).with("lag"@, lag_json(head, shared.position)).with(
        "readiness"@,
        JsonView::Text(readiness_label(readiness_of(shared.readiness))),
    ).with("running"@, JsonView::Bool(shared.running)).with("failed"@, JsonView::Bool(shared.failed)).with(
        "replays_completed"@,
        JsonView::Int(projector.replays_completed as int),
    ).with("replays_failed"@, JsonView::Int(projector.replays_failed as int)).with(
        "last_error"@,
        JsonView::text_or_null(option_view(shared.last_error)),
    )
}

pub open spec fn effect_json(effect: EffectStatus, head: u64) -> JsonView {
    JsonView::object().with("name"@, JsonView::Text(effect.name@)).with(
        "state"@,
        JsonView::Text(effect.state@),
    ).with("position"@, JsonView::Int(effect.position as int)).with(
        "lag"@,
        lag_json(head, effect.position),
    ).with("consecutive_failures"@, JsonView::Int(effect.consecutive_failures as int)).with(
        "last_error"@,
        JsonView::text_or_null(option_view(effect.last_error)),
    ).with("wedged_lanes"@, JsonView::Int(effect.wedged_lanes as int)).with(
        "pinning_key"@,
        match effect.pinning {
            Some(pinning) => JsonView::Text(pinning.0@),
            None => JsonView::Null,
        },
    ).with(
        "pinning_position"@,
        match effect.pinning {
            Some(pinning) => JsonView::Int(pinning.1 as int),
            None => JsonView::Null,
        },
    ).with("quarantined"@, JsonView::Bool(effect.quarantined)).with(
        "terminal_skips"@,
        JsonView::Int(effect.terminal_skips as int),
    ).with(
        "last_terminal_error"@,
        JsonView::text_or_null(option_view(effect.last_terminal_error)),
    )
}

/// The names of the commands on one side of the surface, in order.
pub open spec fn names_of(commands: Seq<CommandEntry>, internal: bool) -> Seq<Seq<char>>
    decreases commands.len(),
{
    if commands.len() == 0 {
        Seq::empty()
    } else if commands.last().internal == internal {
        names_of(commands.drop_last(), internal).push(commands.last().name@)
    } else {
        names_of(commands.drop_last(), internal)
    }
}

/// Projectors by name.
pub open spec fn projector_order() -> spec_fn(ProjectorStatus, ProjectorStatus) -> bool {
    |a: ProjectorStatus, b: ProjectorStatus| precedes(a.shared.name@, b.shared.name@)
}

/// Effects by name.
pub open spec fn effect_order() -> spec_fn(EffectStatus, EffectStatus) -> bool {
    |a: EffectStatus, b: EffectStatus| precedes(a.name@, b.name@)
}

impl Ranked for ProjectorStatus {
    open spec fn ranks_before(self, other: ProjectorStatus) -> bool {
        precedes(self.shared.name@, other.shared.name@)
    }

    fn is_before(&self, other: &ProjectorStatus) -> (r: bool) {
        crate::text::is_before(&self.shared.name, &other.shared.name)
    }
}

impl Ranked for EffectStatus {
    open spec fn ranks_before(self, other: EffectStatus) -> bool {
        precedes(self.name@, other.name@)
    }

    fn is_before(&self, other: &EffectStatus) -> (r: bool) {
        crate::text::is_before(&self.name, &other.name)
    }
}

/// What a status report says: commands, projectors and effects by name.
pub open spec fn status_json(status: RuntimeStatus) -> JsonView {
    JsonView::object().with("log_head"@, JsonView::Int(status.log_head as int)).with(
        "uptime_seconds"@,
        JsonView::Int(status.uptime_seconds as int),
    ).with("verify"@, JsonView::Bool(status.verify)).with(
        "commands"@,
        JsonView::object().with(
            "public"@,
            JsonView::texts(sorted(names_of(status.commands@, false), text_order())),
        ).with(
            "internal"@,
            JsonView::texts(sorted(names_of(status.commands@, true), text_order())),
        ),
    ).with(
        "projectors"@,
        JsonView::Array(
            sorted(status.projectors@, projector_order()).map_values(
                |projector: ProjectorStatus| projector_json(projector, status.log_head),
            ),
        ),
    ).with(
        "effects"@,
        JsonView::Array(
            sorted(status.effects@, effect_order()).map_values(
                |effect: EffectStatus| effect_json(effect, status.log_head),
            ),
        ),
    ).with("events"@, JsonView::Int(status.events as int))
}

fn behind(head: u64, position: u64) -> (r: u64)
    ensures
        r == crate::metrics::lag(head, position),
{
    if head >= position {
        head - position
    } else {
        0
    }
}

fn command_names(commands: &Vec<CommandEntry>, internal: bool) -> (r: Vec<String>)
    ensures
        views(r@) == sorted(names_of(commands@, internal), text_order()),
{
    let mut out: Vec<String> = Vec::new();
    let mut i: usize = 0;
    assert(commands@.take(0) =~= Seq::empty());
    assert(views(out@) =~= Seq::empty());
    while i < commands.len()
        invariant
            i <= commands.len(),
            views(out@) == names_of(commands@.take(i as int), internal),
        decreases commands.len() - i,
    {
        assert(commands@.take(i as int + 1).drop_last() =~= commands@.take(i as int));
        if commands[i].internal == internal {
            let ghost had = views(out@);
            out.push(commands[i].name.clone());
            assert(views(out@) =~= had.push(commands@[i as int].name@));
        }
        i += 1;
    }
    assert(commands@.take(i as int) =~= commands@);
    sort_texts(out)
}

impl ProjectorStatus {
    fn json(&self, head: u64) -> (r: Json)
        ensures
            r@ == projector_json(*self, head),
    {
        let shared = &self.shared;
        Json::object().with("name", Json::text(&shared.name)).with(
            "position",
            Json::uint(shared.position()),
        ).with("lag", Json::uint(behind(head, shared.position()))).with(
            "readiness",
            Json::text(shared.readiness().label()),
        ).with("running", Json::Bool(shared.running())).with(
            "failed",
            Json::Bool(shared.failed()),
        ).with("replays_completed", Json::uint(self.replays_completed)).with(
            "replays_failed",
            Json::uint(self.replays_failed),
        ).with("last_error", Json::text_or_null(&shared.last_error))
    }
}

impl EffectStatus {
    fn json(&self, head: u64) -> (r: Json)
        ensures
            r@ == effect_json(*self, head),
    {
        let key = match &self.pinning {
            Some(pinning) => Json::text(&pinning.0),
            None => Json::Null,
        };
        let place = match &self.pinning {
            Some(pinning) => Json::uint(pinning.1),
            None => Json::Null,
        };
        Json::object().with("name", Json::text(&self.name)).with("state", Json::text(&self.state)).with(
            "position",
            Json::uint(self.position),
        ).with("lag", Json::uint(behind(head, self.position))).with(
            "consecutive_failures",
            Json::uint(self.consecutive_failures),
        ).with("last_error", Json::text_or_null(&self.last_error)).with(
            "wedged_lanes",
            Json::uint(self.wedged_lanes),
        ).with("pinning_key", key).with("pinning_position", place).with(
            "quarantined",
            Json::Bool(self.quarantined),
        ).with("terminal_skips", Json::uint(self.terminal_skips)).with(
            "last_terminal_error",
            Json::text_or_null(&self.last_terminal_error),
        )
    }
}

/// The status report: the log's head, what is loaded, and how far and how well each
/// projector and each effect is, so that a wedge reads as broken rather than as lag. All of
/// them are listed by name.
pub fn status(report: RuntimeStatus) -> (r: Json)
    ensures
        r@ == status_json(report),
{
    let head: u64 = report.log_head;
    proof {
        assert((|a: ProjectorStatus, b: ProjectorStatus| a.ranks_before(b)) =~= projector_order());
        assert((|a: EffectStatus, b: EffectStatus| a.ranks_before(b)) =~= effect_order());
    }
    let listed = sort(report.projectors);
    let mut projectors: Vec<Json> = Vec::new();
    let mut i: usize = 0;
    while i < listed.len()
        invariant
            i <= listed.len(),
            projectors.len() == i,
            forall|k: int|
                0 <= k < i ==> json_view(#[trigger] projectors@[k]) == projector_json(listed@[k], head),
        decreases listed.len() - i,
    {
        projectors.push(listed[i].json(head));
        i += 1;
    }
    let reported = sort(report.effects);
    let mut effects: Vec<Json> = Vec::new();
    let mut i: usize = 0;
    while i < reported.len()
        invariant
            i <= reported.len(),
            effects.len() == i,
            forall|k: int|
                0 <= k < i ==> json_view(#[trigger] effects@[k]) == effect_json(reported@[k], head),
        decreases reported.len() - i,
    {
        effects.push(reported[i].json(head));
        i += 1;
    }
    proof {
        lemma_items(projectors@);
        lemma_items(effects@);
        assert(items_view(projectors@) =~= listed@.map_values(
            |projector: ProjectorStatus| projector_json(projector, head),
        ));
        assert(items_view(effects@) =~= reported@.map_values(
            |effect: EffectStatus| effect_json(effect, head),
        ));
    }
    let public = command_names(&report.commands, false);
    let internal = command_names(&report.commands, true);
    Json::object().with("log_head", Json::uint(head)).with(
        "uptime_seconds",
        Json::uint(report.uptime_seconds),
    ).with("verify", Json::Bool(report.verify)).with(
        "commands",
        Json::object().with("public", Json::texts(&public)).with("internal", Json::texts(&internal)),
    ).with("projectors", Json::Array(projectors)).with("effects", Json::Array(effects)).with(
        "events",
        Json::size(report.events),
    )
}

/// A status report lists every projector and every effect, none in front of one whose name
/// comes first.
pub proof fn law_a_status_lists_by_name(status: RuntimeStatus)
    ensures
        ordered(sorted(status.projectors@, projector_order()), projector_order()),
        ordered(sorted(status.effects@, effect_order()), effect_order()),
        forall|projector: ProjectorStatus|
            status.projectors@.contains(projector) <==> #[trigger] sorted(
                status.projectors@,
                projector_order(),
            ).contains(projector),
        forall|effect: EffectStatus|
            status.effects@.contains(effect) <==> #[trigger] sorted(
                status.effects@,
                effect_order(),
            ).contains(effect),
{
    lemma_text_order();
    let texts = text_order();
    assert(is_order(projector_order())) by {
        let before = projector_order();
        assert forall|a: ProjectorStatus, b: ProjectorStatus| #[trigger] before(a, b) implies !before(
            b,
            a,
        ) by {
            assert(texts(a.shared.name@, b.shared.name@));
        }
        assert forall|a: ProjectorStatus, b: ProjectorStatus, c: ProjectorStatus|
            #![trigger before(b, a), before(c, b)]
            !before(b, a) && !before(c, b) implies !before(c, a) by {
            assert(!texts(b.shared.name@, a.shared.name@) && !texts(c.shared.name@, b.shared.name@));
        }
    }
    assert(is_order(effect_order())) by {
        let before = effect_order();
        assert forall|a: EffectStatus, b: EffectStatus| #[trigger] before(a, b) implies !before(
            b,
            a,
        ) by {
            assert(texts(a.name@, b.name@));
        }
        assert forall|a: EffectStatus, b: EffectStatus, c: EffectStatus|
            #![trigger before(b, a), before(c, b)]
            !before(b, a) && !before(c, b) implies !before(c, a) by {
            assert(!texts(b.name@, a.name@) && !texts(c.name@, b.name@));
        }
    }
    lemma_sorted_ordered(status.projectors@, projector_order());
    lemma_sorted_ordered(status.effects@, effect_order());
    assert forall|projector: ProjectorStatus|
        status.projectors@.contains(projector) <==> #[trigger] sorted(
            status.projectors@,
            projector_order(),
        ).contains(projector) by {
        lemma_sorted_contains(status.projectors@, projector_order(), projector);
    }
    assert forall|effect: EffectStatus|
        status.effects@.contains(effect) <==> #[trigger] sorted(
            status.effects@,
            effect_order(),
        ).contains(effect) by {
        lemma_sorted_contains(status.effects@, effect_order(), effect);
    }
}

} // verus!
