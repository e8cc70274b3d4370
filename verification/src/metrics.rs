//! What the metrics endpoint reports: every metric's name and every label stand here, and
//! nowhere else.
//!
//! Every label is a declaration: the name of a command, a projector, an entity, an effect
//! or an event, a refusal code, a fixed outcome or state word, or a digest hash. Nothing is
//! computed from a request or read out of an event, so the number of series is bounded by
//! the project rather than by traffic. A lane key is never a label: it is routinely a
//! customer's id, and a scrape is a copy that an erasure cannot reach.

use vstd::prelude::*;

use crate::projector::{readiness_label, Readiness};
use crate::schema::EmittedEvent;
use crate::text::{same, views};

verus! {

/// The content type of what is served: the version is that of the text format.
pub const CONTENT_TYPE: &'static str = "text/plain; version=0.0.4";

pub const BUILD_INFO: &'static str = "hekla_build_info";

pub const UPTIME: &'static str = "hekla_uptime_seconds";

pub const LOG_HEAD: &'static str = "hekla_log_head_position";

pub const EVENTS_APPENDED: &'static str = "hekla_events_appended_total";

pub const MODULE_INFO: &'static str = "hekla_module_info";

pub const COMMANDS: &'static str = "hekla_commands_total";

pub const COMMAND_REFUSALS: &'static str = "hekla_command_refusals_total";

pub const COMMAND_CONFLICT_RETRIES: &'static str = "hekla_command_conflict_retries_total";

pub const PROJECTOR_UP: &'static str = "hekla_projector_up";

pub const PROJECTOR_POSITION: &'static str = "hekla_projector_position";

pub const PROJECTOR_LAG: &'static str = "hekla_projector_lag";

pub const PROJECTOR_READINESS: &'static str = "hekla_projector_readiness";

pub const PROJECTOR_EVENTS: &'static str = "hekla_projector_events_total";

pub const PROJECTOR_REBUILDS: &'static str = "hekla_projector_rebuilds_total";

pub const PROJECTOR_PROGRESS: &'static str = "hekla_projector_last_progress_timestamp_seconds";

pub const EFFECT_UP: &'static str = "hekla_effect_up";

pub const EFFECT_POSITION: &'static str = "hekla_effect_position";

pub const EFFECT_LAG: &'static str = "hekla_effect_lag";

pub const EFFECT_STATE: &'static str = "hekla_effect_state";

pub const WEDGED_LANES: &'static str = "hekla_effect_wedged_lanes";

pub const EFFECT_FAILURES: &'static str = "hekla_effect_consecutive_failures";

pub const EFFECT_BACKOFF: &'static str = "hekla_effect_retry_backoff_seconds";

pub const EFFECT_INVOCATIONS: &'static str = "hekla_effect_invocations_total";

pub const EFFECT_RESTARTS: &'static str = "hekla_effect_restarts_total";

pub const EFFECT_TERMINAL_SKIPS: &'static str = "hekla_effect_terminal_skips_total";

pub const EFFECT_LIVE_SUPPRESSED: &'static str = "hekla_effect_live_suppressed_total";

pub const EFFECT_COLLAPSED: &'static str = "hekla_effect_collapsed_total";

pub const EFFECT_PROGRESS: &'static str = "hekla_effect_last_progress_timestamp_seconds";

pub const EFFECT_HTTP: &'static str = "hekla_effect_http_requests_total";

pub const READS: &'static str = "hekla_reads_total";

pub const READ_WAITS: &'static str = "hekla_read_waits_total";

/// What is done to a series.
#[derive(Debug, Clone, Copy, PartialEq, Eq, Structural)]
pub enum Reading {
    /// A gauge is set to a number.
    Level(u64),
    /// A gauge of seconds is set to this many milliseconds.
    LevelMillis(u64),
    /// A gauge is set to the present time, in seconds since the epoch.
    Now,
    /// A counter goes up. By zero, it comes to be.
    Add(u64),
    /// A counter is raised to a total that is kept elsewhere.
    Raise(u64),
}

/// One series of a metric, and what is done to it.
pub struct Sample {
    pub metric: &'static str,
    pub labels: Vec<(&'static str, String)>,
    pub reading: Reading,
}

pub type LabelView = (Seq<char>, Seq<char>);

pub type SampleView = (Seq<char>, Seq<LabelView>, Reading);

pub open spec fn label_views(labels: Seq<(&'static str, String)>) -> Seq<LabelView> {
    Seq::new(labels.len(), |i: int| (labels[i].0@, labels[i].1@))
}

pub open spec fn sample_view(sample: Sample) -> SampleView {
    (sample.metric@, label_views(sample.labels@), sample.reading)
}

pub open spec fn sample_views(samples: Seq<Sample>) -> Seq<SampleView> {
    Seq::new(samples.len(), |i: int| sample_view(samples[i]))
}

// ---------------------------------------------------------------------------
// Descriptions
// ---------------------------------------------------------------------------

/// What is said of a metric: its name, whether it is a counter, and its help text.
pub struct Description {
    pub metric: &'static str,
    pub counter: bool,
    pub help: &'static str,
}

/// Every metric, in the order they are described.
pub open spec fn described() -> Seq<(Seq<char>, bool, Seq<char>)> {
    seq![
        (BUILD_INFO@, false, "Always 1, carrying this build's hekla version."@),
        (UPTIME@, false, "Seconds since this runtime opened."@),
        (LOG_HEAD@, false, "The event log's head position."@),
        (EVENTS_APPENDED@, true, "Events appended, by declared event type."@),
        (MODULE_INFO@, false, "Always 1, carrying each loaded module's kind, name and digest hash. The hash moves when what the module does moves, so two replicas disagreeing here are running different code."@),
        (COMMANDS@, true, "Command attempts, by command and outcome."@),
        (COMMAND_REFUSALS@, true, "Refusals, by command and declared refusal code. A code appears on its first refusal rather than at boot, so alert on it with `or vector(0)`."@),
        (COMMAND_CONFLICT_RETRIES@, true, "DCB boundary conflicts retried inside a command's retry budget. Distinct from the `conflict` outcome, which is the budget having run out: this is contention, that is contention the caller sees."@),
        (PROJECTOR_UP@, false, "1 while a projector's thread is running and unfailed."@),
        (PROJECTOR_POSITION@, false, "The log position a projector has committed."@),
        (PROJECTOR_LAG@, false, "Events between a projector and the log head."@),
        (PROJECTOR_READINESS@, false, "A state set over a projector's readiness: 1 on the current state, 0 on the rest."@),
        (PROJECTOR_EVENTS@, true, "Events applied into a projector's read model."@),
        (PROJECTOR_REBUILDS@, true, "Projector rebuilds, by outcome."@),
        (PROJECTOR_PROGRESS@, false, "Unix seconds at which a projector last committed a batch. Subtract from `time()` for staleness."@),
        (EFFECT_UP@, false, "1 while an effect's reader thread is running."@),
        (EFFECT_POSITION@, false, "An effect's mark: every position at or below is terminal."@),
        (EFFECT_LAG@, false, "Events between an effect's mark and the log head."@),
        (EFFECT_STATE@, false, "A state set over an effect's health: 1 on the current state, 0 on the rest."@),
        (WEDGED_LANES@, false, "How many of an effect's lanes are failing. A count and never a key: a lane key is a partition key, and a scrape outlives an erasure."@),
        (EFFECT_FAILURES@, false, "Consecutive failures on the lane holding an effect's mark down."@),
        (EFFECT_BACKOFF@, false, "Seconds until the pinning lane's next retry, or 0 when nothing is waiting."@),
        (EFFECT_INVOCATIONS@, true, "Effect invocations, by effect and outcome."@),
        (EFFECT_RESTARTS@, true, "Times an effect's reader was restarted by its supervisor."@),
        (EFFECT_TERMINAL_SKIPS@, true, "Positions abandoned to an unrecoverable failure. These advance rather than wedge."@),
        (EFFECT_LIVE_SUPPRESSED@, true, "Positions an `on live` arm declined for being below its boundary."@),
        (EFFECT_COLLAPSED@, true, "Positions an `on latest` arm folded into a later invocation."@),
        (EFFECT_PROGRESS@, false, "Unix seconds at which an effect last advanced its mark."@),
        (EFFECT_HTTP@, true, "Outbound HTTP requests made by effects, by response status class. Carries no effect name and no url: the transport does not know the one and the other is unbounded."@),
        (READS@, true, "Read API requests, by projector, entity and outcome."@),
        (READ_WAITS@, true, "Read-your-writes waits, by projector and whether the projector arrived in time."@),
    ]
}

pub open spec fn description_views(list: Seq<Description>) -> Seq<(Seq<char>, bool, Seq<char>)> {
    Seq::new(list.len(), |i: int| (list[i].metric@, list[i].counter, list[i].help@))
}

/// The help text of every metric. Units are carried by the end of a name.
pub fn describe() -> (r: Vec<Description>)
    ensures
        description_views(r@) == described(),
{
    let mut out: Vec<Description> = Vec::new();
    out.push(
        Description {
            metric: BUILD_INFO,
            counter: false,
            help: "Always 1, carrying this build's hekla version.",
        },
    );
    out.push(
        Description {
            metric: UPTIME,
            counter: false,
            help: "Seconds since this runtime opened.",
        },
    );
    out.push(
        Description {
            metric: LOG_HEAD,
            counter: false,
            help: "The event log's head position.",
        },
    );
    out.push(
        Description {
            metric: EVENTS_APPENDED,
            counter: true,
            help: "Events appended, by declared event type.",
        },
    );
    out.push(
        Description {
            metric: MODULE_INFO,
            counter: false,
            help: "Always 1, carrying each loaded module's kind, name and digest hash. The hash moves when what the module does moves, so two replicas disagreeing here are running different code.",
        },
    );
    out.push(
        Description {
            metric: COMMANDS,
            counter: true,
            help: "Command attempts, by command and outcome.",
        },
    );
    out.push(
        Description {
            metric: COMMAND_REFUSALS,
            counter: true,
            help: "Refusals, by command and declared refusal code. A code appears on its first refusal rather than at boot, so alert on it with `or vector(0)`.",
        },
    );
    out.push(
        Description {
            metric: COMMAND_CONFLICT_RETRIES,
            counter: true,
            help: "DCB boundary conflicts retried inside a command's retry budget. Distinct from the `conflict` outcome, which is the budget having run out: this is contention, that is contention the caller sees.",
        },
    );
    out.push(
        Description {
            metric: PROJECTOR_UP,
            counter: false,
            help: "1 while a projector's thread is running and unfailed.",
        },
    );
    out.push(
        Description {
            metric: PROJECTOR_POSITION,
            counter: false,
            help: "The log position a projector has committed.",
        },
    );
    out.push(
        Description {
            metric: PROJECTOR_LAG,
            counter: false,
            help: "Events between a projector and the log head.",
        },
    );
    out.push(
        Description {
            metric: PROJECTOR_READINESS,
            counter: false,
            help: "A state set over a projector's readiness: 1 on the current state, 0 on the rest.",
        },
    );
    out.push(
        Description {
            metric: PROJECTOR_EVENTS,
            counter: true,
            help: "Events applied into a projector's read model.",
        },
    );
    out.push(
        Description {
            metric: PROJECTOR_REBUILDS,
            counter: true,
            help: "Projector rebuilds, by outcome.",
        },
    );
    out.push(
        Description {
            metric: PROJECTOR_PROGRESS,
            counter: false,
            help: "Unix seconds at which a projector last committed a batch. Subtract from `time()` for staleness.",
        },
    );
    out.push(
        Description {
            metric: EFFECT_UP,
            counter: false,
            help: "1 while an effect's reader thread is running.",
        },
    );
    out.push(
        Description {
            metric: EFFECT_POSITION,
            counter: false,
            help: "An effect's mark: every position at or below is terminal.",
        },
    );
    out.push(
        Description {
            metric: EFFECT_LAG,
            counter: false,
            help: "Events between an effect's mark and the log head.",
        },
    );
    out.push(
        Description {
            metric: EFFECT_STATE,
            counter: false,
            help: "A state set over an effect's health: 1 on the current state, 0 on the rest.",
        },
    );
    out.push(
        Description {
            metric: WEDGED_LANES,
            counter: false,
            help: "How many of an effect's lanes are failing. A count and never a key: a lane key is a partition key, and a scrape outlives an erasure.",
        },
    );
    out.push(
        Description {
            metric: EFFECT_FAILURES,
            counter: false,
            help: "Consecutive failures on the lane holding an effect's mark down.",
        },
    );
    out.push(
        Description {
            metric: EFFECT_BACKOFF,
            counter: false,
            help: "Seconds until the pinning lane's next retry, or 0 when nothing is waiting.",
        },
    );
    out.push(
        Description {
            metric: EFFECT_INVOCATIONS,
            counter: true,
            help: "Effect invocations, by effect and outcome.",
        },
    );
    out.push(
        Description {
            metric: EFFECT_RESTARTS,
            counter: true,
            help: "Times an effect's reader was restarted by its supervisor.",
        },
    );
    out.push(
        Description {
            metric: EFFECT_TERMINAL_SKIPS,
            counter: true,
            help: "Positions abandoned to an unrecoverable failure. These advance rather than wedge.",
        },
    );
    out.push(
        Description {
            metric: EFFECT_LIVE_SUPPRESSED,
            counter: true,
            help: "Positions an `on live` arm declined for being below its boundary.",
        },
    );
    out.push(
        Description {
            metric: EFFECT_COLLAPSED,
            counter: true,
            help: "Positions an `on latest` arm folded into a later invocation.",
        },
    );
    out.push(
        Description {
            metric: EFFECT_PROGRESS,
            counter: false,
            help: "Unix seconds at which an effect last advanced its mark.",
        },
    );
    out.push(
        Description {
            metric: EFFECT_HTTP,
            counter: true,
            help: "Outbound HTTP requests made by effects, by response status class. Carries no effect name and no url: the transport does not know the one and the other is unbounded.",
        },
    );
    out.push(
        Description {
            metric: READS,
            counter: true,
            help: "Read API requests, by projector, entity and outcome.",
        },
    );
    out.push(
        Description {
            metric: READ_WAITS,
            counter: true,
            help: "Read-your-writes waits, by projector and whether the projector arrived in time.",
        },
    );
    assert(description_views(out@) =~= described());
    out
}

// ---------------------------------------------------------------------------
// Outcome words
// ---------------------------------------------------------------------------

/// Every outcome of a command, and the error that a fault of the server reports.
pub const COMMAND_OUTCOMES: [&'static str; 7] = [
    "committed",
    "already_committed",
    "rejected",
    "invalid_input",
    "conflict",
    "unavailable",
    "error",
];

/// What an effect's invocation ends as.
pub const EFFECT_OUTCOMES: [&'static str; 4] = ["completed", "failed", "terminal", "skipped"];

/// What a projector's rebuild ends as.
pub const REBUILD_OUTCOMES: [&'static str; 2] = ["completed", "failed"];

/// What an outbound request ends as.
pub const HTTP_OUTCOMES: [&'static str; 5] = ["2xx", "3xx", "4xx", "5xx", "error"];

/// What a read ends as. `invalid_input` covers every refusal of a malformed request.
pub const READ_OUTCOMES: [&'static str; 5] = ["ok", "not_found", "not_ready", "invalid_input", "error"];

/// What a wait for one's own write ends as.
pub const WAIT_OUTCOMES: [&'static str; 2] = ["served", "timeout"];


// ---------------------------------------------------------------------------
// Building samples
// ---------------------------------------------------------------------------

fn bare(metric: &'static str, reading: Reading) -> (r: Sample)
    ensures
        sample_view(r) == (metric@, Seq::<LabelView>::empty(), reading),
{
    let labels: Vec<(&'static str, String)> = Vec::new();
    assert(label_views(labels@) =~= Seq::empty());
    Sample { metric, labels, reading }
}

fn labelled(metric: &'static str, key: &'static str, value: &str, reading: Reading) -> (r: Sample)
    ensures
        sample_view(r) == (metric@, seq![(key@, value@)], reading),
{
    let mut labels: Vec<(&'static str, String)> = Vec::new();
    labels.push((key, value.to_owned()));
    assert(label_views(labels@) =~= seq![(key@, value@)]);
    Sample { metric, labels, reading }
}

fn labelled_twice(
    metric: &'static str,
    first: (&'static str, &str),
    second: (&'static str, &str),
    reading: Reading,
) -> (r: Sample)
    ensures
        sample_view(r) == (
            metric@,
            seq![(first.0@, first.1@), (second.0@, second.1@)],
            reading,
        ),
{
    let mut labels: Vec<(&'static str, String)> = Vec::new();
    labels.push((first.0, first.1.to_owned()));
    labels.push((second.0, second.1.to_owned()));
    assert(label_views(labels@) =~= seq![(first.0@, first.1@), (second.0@, second.1@)]);
    Sample { metric, labels, reading }
}

fn labelled_thrice(
    metric: &'static str,
    first: (&'static str, &str),
    second: (&'static str, &str),
    third: (&'static str, &str),
    reading: Reading,
) -> (r: Sample)
    ensures
        sample_view(r) == (
            metric@,
            seq![(first.0@, first.1@), (second.0@, second.1@), (third.0@, third.1@)],
            reading,
        ),
{
    let mut labels: Vec<(&'static str, String)> = Vec::new();
    labels.push((first.0, first.1.to_owned()));
    labels.push((second.0, second.1.to_owned()));
    labels.push((third.0, third.1.to_owned()));
    assert(label_views(labels@) =~= seq![(first.0@, first.1@), (second.0@, second.1@), (third.0@, third.1@)]);
    Sample { metric, labels, reading }
}

/// One, or zero.
pub fn bit(set: bool) -> (r: u64)
    ensures
        r == if set { 1u64 } else { 0u64 },
{
    if set {
        1
    } else {
        0
    }
}

// ---------------------------------------------------------------------------
// Recorders
// ---------------------------------------------------------------------------

/// A command ended with an outcome.
pub fn command_outcome(command: &str, outcome: &'static str) -> (r: Sample)
    ensures
        sample_view(r) == (
            COMMANDS@,
            seq![("command"@, command@), ("outcome"@, outcome@)],
            Reading::Add(1),
        ),
{
    labelled_twice(COMMANDS, ("command", command), ("outcome", outcome), Reading::Add(1))
}

/// A command refused with a declared code. A code appears with its first refusal: no list
/// of them is to be had.
pub fn command_refusal(command: &str, code: &str) -> (r: Sample)
    ensures
        sample_view(r) == (
            COMMAND_REFUSALS@,
            seq![("command"@, command@), ("code"@, code@)],
            Reading::Add(1),
        ),
{
    labelled_twice(COMMAND_REFUSALS, ("command", command), ("code", code), Reading::Add(1))
}

/// A command was retried over a conflict.
pub fn command_conflict_retry(command: &str) -> (r: Sample)
    ensures
        sample_view(r) == (COMMAND_CONFLICT_RETRIES@, seq![("command"@, command@)], Reading::Add(1)),
{
    labelled(COMMAND_CONFLICT_RETRIES, "command", command, Reading::Add(1))
}

/// Events were appended: one for each.
pub fn events_appended(events: &Vec<EmittedEvent>) -> (r: Vec<Sample>)
    ensures
        r.len() == events.len(),
        forall|i: int|
            0 <= i < r.len() ==> sample_view(#[trigger] r@[i]) == (
                EVENTS_APPENDED@,
                seq![("event"@, events@[i].event_type@)],
                Reading::Add(1),
            ),
{
    let mut out: Vec<Sample> = Vec::new();
    let mut i: usize = 0;
    while i < events.len()
        invariant
            i <= events.len(),
            out.len() == i,
            forall|k: int|
                0 <= k < i ==> sample_view(#[trigger] out@[k]) == (
                    EVENTS_APPENDED@,
                    seq![("event"@, events@[k].event_type@)],
                    Reading::Add(1),
                ),
        decreases events.len() - i,
    {
        out.push(labelled(EVENTS_APPENDED, "event", &events[i].event_type, Reading::Add(1)));
        i += 1;
    }
    out
}

/// A projector applied a batch.
pub fn projector_batch(name: &str, events: usize) -> (r: (Sample, Sample))
    ensures
        sample_view(r.0) == (
            PROJECTOR_EVENTS@,
            seq![("name"@, name@)],
            Reading::Add(events as u64),
        ),
        sample_view(r.1) == (PROJECTOR_PROGRESS@, seq![("name"@, name@)], Reading::Now),
{
    (
        labelled(PROJECTOR_EVENTS, "name", name, Reading::Add(events as u64)),
        labelled(PROJECTOR_PROGRESS, "name", name, Reading::Now),
    )
}

/// A projector's rebuild ended.
pub fn projector_rebuild(name: &str, ok: bool) -> (r: Sample)
    ensures
        sample_view(r) == (
            PROJECTOR_REBUILDS@,
            seq![("name"@, name@), ("outcome"@, if ok { "completed"@ } else { "failed"@ })],
            Reading::Add(1),
        ),
{
    let outcome = if ok { "completed" } else { "failed" };
    labelled_twice(PROJECTOR_REBUILDS, ("name", name), ("outcome", outcome), Reading::Add(1))
}

/// An effect's invocation ended with an outcome.
pub fn effect_invocation(name: &str, outcome: &'static str) -> (r: Sample)
    ensures
        sample_view(r) == (
            EFFECT_INVOCATIONS@,
            seq![("name"@, name@), ("outcome"@, outcome@)],
            Reading::Add(1),
        ),
{
    labelled_twice(EFFECT_INVOCATIONS, ("name", name), ("outcome", outcome), Reading::Add(1))
}

/// An effect's reader was started again.
pub fn effect_restart(name: &str) -> (r: Sample)
    ensures
        sample_view(r) == (EFFECT_RESTARTS@, seq![("name"@, name@)], Reading::Add(1)),
{
    labelled(EFFECT_RESTARTS, "name", name, Reading::Add(1))
}

/// An effect advanced.
pub fn effect_progress(name: &str) -> (r: Sample)
    ensures
        sample_view(r) == (EFFECT_PROGRESS@, seq![("name"@, name@)], Reading::Now),
{
    labelled(EFFECT_PROGRESS, "name", name, Reading::Now)
}

/// The class of a response's status. Without a response there is none.
pub open spec fn class_of(status: Option<u16>) -> Seq<char> {
    match status {
        Some(code) => if 200 <= code <= 299 {
            "2xx"@
        } else if 300 <= code <= 399 {
            "3xx"@
        } else if 400 <= code <= 499 {
            "4xx"@
        } else if 500 <= code <= 599 {
            "5xx"@
        } else {
            "error"@
        },
        None => "error"@,
    }
}

/// The class of a response's status. One outside the ranges is no class that anyone
/// alerts on.
pub fn status_class(status: Option<u16>) -> (r: &'static str)
    ensures
        r@ == class_of(status),
{
    match status {
        Some(code) => {
            if 200 <= code && code <= 299 {
                "2xx"
            } else if 300 <= code && code <= 399 {
                "3xx"
            } else if 400 <= code && code <= 499 {
                "4xx"
            } else if 500 <= code && code <= 599 {
                "5xx"
            } else {
                "error"
            }
        },
        None => "error",
    }
}

/// An effect made an outbound request. Nothing but the class of its status is reported.
pub fn effect_http(status: Option<u16>) -> (r: Sample)
    ensures
        sample_view(r) == (EFFECT_HTTP@, seq![("outcome"@, class_of(status))], Reading::Add(1)),
{
    labelled(EFFECT_HTTP, "outcome", status_class(status), Reading::Add(1))
}

/// A read ended with an outcome.
pub fn read(projector: &str, entity: &str, outcome: &'static str) -> (r: Sample)
    ensures
        sample_view(r) == (
            READS@,
            seq![("projector"@, projector@), ("entity"@, entity@), ("outcome"@, outcome@)],
            Reading::Add(1),
        ),
{
    labelled_thrice(
        READS,
        ("projector", projector),
        ("entity", entity),
        ("outcome", outcome),
        Reading::Add(1),
    )
}

/// A wait for one's own write ended.
pub fn read_wait(projector: &str, outcome: &'static str) -> (r: Sample)
    ensures
        sample_view(r) == (
            READ_WAITS@,
            seq![("projector"@, projector@), ("outcome"@, outcome@)],
            Reading::Add(1),
        ),
{
    labelled_twice(READ_WAITS, ("projector", projector), ("outcome", outcome), Reading::Add(1))
}


// ---------------------------------------------------------------------------
// A scrape
// ---------------------------------------------------------------------------

/// A loaded module: its name, and the hash of what it does.
pub struct Loaded {
    pub name: String,
    pub hash: String,
}

/// A projector at the time of a scrape.
pub struct ProjectorGauges {
    pub name: String,
    pub hash: String,
    pub position: u64,
    pub running: bool,
    pub failed: bool,
    pub readiness: Readiness,
    pub entities: Vec<String>,
}

/// An effect at the time of a scrape.
pub struct EffectGauges {
    pub name: String,
    pub hash: String,
    pub position: u64,
    pub running: bool,
    pub state: String,
    pub wedged_lanes: u64,
    pub consecutive_failures: u64,
    pub retry_in_ms: Option<u64>,
    pub terminal_skips: u64,
    pub live_suppressed: u64,
    pub latest_collapsed: u64,
}

/// What a scrape finds.
pub struct Scrape {
    pub version: String,
    pub uptime_seconds: u64,
    pub log_head: u64,
    pub events: Vec<String>,
    pub commands: Vec<Loaded>,
    pub projectors: Vec<ProjectorGauges>,
    pub effects: Vec<EffectGauges>,
    /// Every word for an effect's state.
    pub effect_states: Vec<String>,
}

/// The distance from a position to the head of the log.
pub open spec fn lag(head: u64, position: u64) -> u64 {
    if head >= position {
        (head - position) as u64
    } else {
        0
    }
}

pub open spec fn flag(set: bool) -> Reading {
    Reading::Level(
        if set {
            1
        } else {
            0
        },
    )
}

/// A counter that a scrape brings into being.
pub open spec fn zero(metric: Seq<char>, labels: Seq<LabelView>) -> SampleView {
    (metric, labels, Reading::Add(0))
}

pub open spec fn module_sample(kind: Seq<char>, name: Seq<char>, hash: Seq<char>) -> SampleView {
    (
        MODULE_INFO@,
        seq![("kind"@, kind), ("name"@, name), ("hash"@, hash)],
        Reading::Level(1),
    )
}

/// What a scrape reports of a command: its version, and each outcome from zero on.
pub open spec fn command_samples(command: Loaded) -> Seq<SampleView> {
    let name = command.name@;
    seq![
        module_sample("command"@, name, command.hash@),
        zero(COMMANDS@, seq![("command"@, name), ("outcome"@, "committed"@)]),
        zero(COMMANDS@, seq![("command"@, name), ("outcome"@, "already_committed"@)]),
        zero(COMMANDS@, seq![("command"@, name), ("outcome"@, "rejected"@)]),
        zero(COMMANDS@, seq![("command"@, name), ("outcome"@, "invalid_input"@)]),
        zero(COMMANDS@, seq![("command"@, name), ("outcome"@, "conflict"@)]),
        zero(COMMANDS@, seq![("command"@, name), ("outcome"@, "unavailable"@)]),
        zero(COMMANDS@, seq![("command"@, name), ("outcome"@, "error"@)]),
        zero(COMMAND_CONFLICT_RETRIES@, seq![("command"@, name)]),
    ]
}

/// What a scrape reports of one entity's reads.
pub open spec fn read_samples(projector: Seq<char>, entity: Seq<char>) -> Seq<SampleView> {
    seq![
        zero(READS@, seq![("projector"@, projector), ("entity"@, entity), ("outcome"@, "ok"@)]),
        zero(READS@, seq![("projector"@, projector), ("entity"@, entity), ("outcome"@, "not_found"@)]),
        zero(READS@, seq![("projector"@, projector), ("entity"@, entity), ("outcome"@, "not_ready"@)]),
        zero(
            READS@,
            seq![("projector"@, projector), ("entity"@, entity), ("outcome"@, "invalid_input"@)],
        ),
        zero(READS@, seq![("projector"@, projector), ("entity"@, entity), ("outcome"@, "error"@)]),
    ]
}

/// One state of a projector: one where it is in that state, zero otherwise.
pub open spec fn readiness_sample(projector: ProjectorGauges, state: Readiness) -> SampleView {
    (
        PROJECTOR_READINESS@,
        seq![("name"@, projector.name@), ("state"@, readiness_label(state))],
        flag(projector.readiness == state),
    )
}

/// What a scrape reports of a projector, apart from its entities.
pub open spec fn projector_samples(projector: ProjectorGauges, head: u64) -> Seq<SampleView> {
    let name = projector.name@;
    seq![
        module_sample("projector"@, name, projector.hash@),
        (PROJECTOR_UP@, seq![("name"@, name)], flag(projector.running && !projector.failed)),
        (PROJECTOR_POSITION@, seq![("name"@, name)], Reading::Level(projector.position)),
        (PROJECTOR_LAG@, seq![("name"@, name)], Reading::Level(lag(head, projector.position))),
        readiness_sample(projector, Readiness::Ready),
        readiness_sample(projector, Readiness::Rebuilding),
        readiness_sample(projector, Readiness::Stale),
        readiness_sample(projector, Readiness::Failed),
        zero(PROJECTOR_EVENTS@, seq![("name"@, name)]),
        zero(PROJECTOR_REBUILDS@, seq![("name"@, name), ("outcome"@, "completed"@)]),
        zero(PROJECTOR_REBUILDS@, seq![("name"@, name), ("outcome"@, "failed"@)]),
        zero(READ_WAITS@, seq![("projector"@, name), ("outcome"@, "served"@)]),
        zero(READ_WAITS@, seq![("projector"@, name), ("outcome"@, "timeout"@)]),
    ]
}

/// The reads of a projector's first entities.
pub open spec fn entity_samples(projector: Seq<char>, entities: Seq<Seq<char>>) -> Seq<SampleView>
    decreases entities.len(),
{
    if entities.len() == 0 {
        Seq::empty()
    } else {
        entity_samples(projector, entities.drop_last()) + read_samples(projector, entities.last())
    }
}

/// What a scrape reports of an effect, up to its states.
pub open spec fn effect_position_samples(effect: EffectGauges, head: u64) -> Seq<SampleView> {
    let name = effect.name@;
    seq![
        module_sample("effect"@, name, effect.hash@),
        (EFFECT_UP@, seq![("name"@, name)], flag(effect.running)),
        (EFFECT_POSITION@, seq![("name"@, name)], Reading::Level(effect.position)),
        (EFFECT_LAG@, seq![("name"@, name)], Reading::Level(lag(head, effect.position))),
    ]
}

/// Each state of an effect: one where it is in that state, zero otherwise.
pub open spec fn state_samples(effect: EffectGauges, states: Seq<Seq<char>>) -> Seq<SampleView> {
    Seq::new(
        states.len(),
        |i: int|
            (
                EFFECT_STATE@,
                seq![("name"@, effect.name@), ("state"@, states[i])],
                flag(states[i] == effect.state@),
            ),
    )
}

/// What a scrape reports of an effect behind its states.
pub open spec fn effect_count_samples(effect: EffectGauges) -> Seq<SampleView> {
    let name = effect.name@;
    let own = seq![("name"@, name)];
    seq![
        (WEDGED_LANES@, own, Reading::Level(effect.wedged_lanes)),
        (EFFECT_FAILURES@, own, Reading::Level(effect.consecutive_failures)),
        (
            EFFECT_BACKOFF@,
            own,
            Reading::LevelMillis(
                match effect.retry_in_ms {
                    Some(ms) => ms,
                    None => 0,
                },
            ),
        ),
        (EFFECT_TERMINAL_SKIPS@, own, Reading::Raise(effect.terminal_skips)),
        (EFFECT_LIVE_SUPPRESSED@, own, Reading::Raise(effect.live_suppressed)),
        (EFFECT_COLLAPSED@, own, Reading::Raise(effect.latest_collapsed)),
        zero(EFFECT_RESTARTS@, own),
        zero(EFFECT_INVOCATIONS@, seq![("name"@, name), ("outcome"@, "completed"@)]),
        zero(EFFECT_INVOCATIONS@, seq![("name"@, name), ("outcome"@, "failed"@)]),
        zero(EFFECT_INVOCATIONS@, seq![("name"@, name), ("outcome"@, "terminal"@)]),
        zero(EFFECT_INVOCATIONS@, seq![("name"@, name), ("outcome"@, "skipped"@)]),
    ]
}

pub open spec fn effect_samples(effect: EffectGauges, head: u64, states: Seq<Seq<char>>) -> Seq<SampleView> {
    effect_position_samples(effect, head) + state_samples(effect, states) + effect_count_samples(
        effect,
    )
}

pub open spec fn event_samples(events: Seq<Seq<char>>) -> Seq<SampleView> {
    Seq::new(events.len(), |i: int| zero(EVENTS_APPENDED@, seq![("event"@, events[i])]))
}

pub open spec fn all_commands(commands: Seq<Loaded>) -> Seq<SampleView>
    decreases commands.len(),
{
    if commands.len() == 0 {
        Seq::empty()
    } else {
        all_commands(commands.drop_last()) + command_samples(commands.last())
    }
}

pub open spec fn all_projectors(projectors: Seq<ProjectorGauges>, head: u64) -> Seq<SampleView>
    decreases projectors.len(),
{
    if projectors.len() == 0 {
        Seq::empty()
    } else {
        all_projectors(projectors.drop_last(), head) + projector_samples(projectors.last(), head)
            + entity_samples(projectors.last().name@, views(projectors.last().entities@))
    }
}

pub open spec fn all_effects(effects: Seq<EffectGauges>, head: u64, states: Seq<Seq<char>>) -> Seq<SampleView>
    decreases effects.len(),
{
    if effects.len() == 0 {
        Seq::empty()
    } else {
        all_effects(effects.drop_last(), head, states) + effect_samples(effects.last(), head, states)
    }
}

pub open spec fn process_samples(scrape: Scrape) -> Seq<SampleView> {
    seq![
        (BUILD_INFO@, seq![("version"@, scrape.version@)], Reading::Level(1)),
        (UPTIME@, Seq::<LabelView>::empty(), Reading::Level(scrape.uptime_seconds)),
        (LOG_HEAD@, Seq::<LabelView>::empty(), Reading::Level(scrape.log_head)),
    ]
}

pub open spec fn http_samples() -> Seq<SampleView> {
    seq![
        zero(EFFECT_HTTP@, seq![("outcome"@, "2xx"@)]),
        zero(EFFECT_HTTP@, seq![("outcome"@, "3xx"@)]),
        zero(EFFECT_HTTP@, seq![("outcome"@, "4xx"@)]),
        zero(EFFECT_HTTP@, seq![("outcome"@, "5xx"@)]),
        zero(EFFECT_HTTP@, seq![("outcome"@, "error"@)]),
    ]
}

/// What a scrape reports: every gauge as it is found, and every counter whose labels can
/// be listed from zero on, so that one that has never gone up reads zero rather than being
/// absent.
pub open spec fn scraped(scrape: Scrape) -> Seq<SampleView> {
    process_samples(scrape) + event_samples(views(scrape.events@)) + all_commands(scrape.commands@)
        + all_projectors(scrape.projectors@, scrape.log_head) + all_effects(
        scrape.effects@,
        scrape.log_head,
        views(scrape.effect_states@),
    ) + http_samples()
}

fn distance(head: u64, position: u64) -> (r: u64)
    ensures
        r == lag(head, position),
{
    if head >= position {
        head - position
    } else {
        0
    }
}

/// Puts the samples of one list behind those of another.
fn extend(out: &mut Vec<Sample>, more: Vec<Sample>)
    ensures
        sample_views(final(out)@) == sample_views(old(out)@) + sample_views(more@),
{
    let mut more = more;
    let ghost a = sample_views(out@);
    let ghost b = sample_views(more@);
    out.append(&mut more);
    assert(sample_views(out@) =~= a + b);
}

fn report_command(command: &Loaded) -> (r: Vec<Sample>)
    ensures
        sample_views(r@) == command_samples(*command),
{
    let name = command.name.as_str();
    let mut out: Vec<Sample> = Vec::new();
    out.push(
        labelled_thrice(
            MODULE_INFO,
            ("kind", "command"),
            ("name", name),
            ("hash", command.hash.as_str()),
            Reading::Level(1),
        ),
    );
    let mut i: usize = 0;
    while i < 7
        invariant
            i <= 7,
            name@ == command.name@,
            out.len() == i + 1,
            sample_view(out@[0]) == module_sample("command"@, name@, command.hash@),
            forall|k: int| 0 <= k <= i ==> sample_view(#[trigger] out@[k]) == command_samples(*command)[k],
        decreases 7 - i,
    {
        let sample = labelled_twice(
            COMMANDS,
            ("command", name),
            ("outcome", COMMAND_OUTCOMES[i]),
            Reading::Add(0),
        );
        assert(sample_view(sample) == command_samples(*command)[i + 1]);
        out.push(sample);
        i += 1;
    }
    out.push(labelled(COMMAND_CONFLICT_RETRIES, "command", name, Reading::Add(0)));
    assert(sample_views(out@) =~= command_samples(*command));
    out
}

fn report_reads(projector: &str, entity: &str) -> (r: Vec<Sample>)
    ensures
        sample_views(r@) == read_samples(projector@, entity@),
{
    let mut out: Vec<Sample> = Vec::new();
    let mut i: usize = 0;
    while i < 5
        invariant
            i <= 5,
            out.len() == i,
            forall|k: int|
                0 <= k < i ==> sample_view(#[trigger] out@[k]) == read_samples(projector@, entity@)[k],
        decreases 5 - i,
    {
        let sample = labelled_thrice(
            READS,
            ("projector", projector),
            ("entity", entity),
            ("outcome", READ_OUTCOMES[i]),
            Reading::Add(0),
        );
        assert(sample_view(sample) == read_samples(projector@, entity@)[i as int]);
        out.push(sample);
        i += 1;
    }
    assert(sample_views(out@) =~= read_samples(projector@, entity@));
    out
}

fn report_readiness(projector: &ProjectorGauges, state: Readiness) -> (r: Sample)
    ensures
        sample_view(r) == readiness_sample(*projector, state),
{
    labelled_twice(
        PROJECTOR_READINESS,
        ("name", projector.name.as_str()),
        ("state", state.label()),
        Reading::Level(bit(projector.readiness == state)),
    )
}

fn report_projector(projector: &ProjectorGauges, head: u64) -> (r: Vec<Sample>)
    ensures
        sample_views(r@) == projector_samples(*projector, head) + entity_samples(
            projector.name@,
            views(projector.entities@),
        ),
{
    let name = projector.name.as_str();
    let mut out: Vec<Sample> = Vec::new();
    out.push(
        labelled_thrice(
            MODULE_INFO,
            ("kind", "projector"),
            ("name", name),
            ("hash", projector.hash.as_str()),
            Reading::Level(1),
        ),
    );
    out.push(
        labelled(
            PROJECTOR_UP,
            "name",
            name,
            Reading::Level(bit(projector.running && !projector.failed)),
        ),
    );
    out.push(labelled(PROJECTOR_POSITION, "name", name, Reading::Level(projector.position)));
    out.push(
        labelled(PROJECTOR_LAG, "name", name, Reading::Level(distance(head, projector.position))),
    );
    out.push(report_readiness(projector, Readiness::Ready));
    out.push(report_readiness(projector, Readiness::Rebuilding));
    out.push(report_readiness(projector, Readiness::Stale));
    out.push(report_readiness(projector, Readiness::Failed));
    out.push(labelled(PROJECTOR_EVENTS, "name", name, Reading::Add(0)));
    out.push(
        labelled_twice(
            PROJECTOR_REBUILDS,
            ("name", name),
            ("outcome", REBUILD_OUTCOMES[0]),
            Reading::Add(0),
        ),
    );
    out.push(
        labelled_twice(
            PROJECTOR_REBUILDS,
            ("name", name),
            ("outcome", REBUILD_OUTCOMES[1]),
            Reading::Add(0),
        ),
    );
    out.push(
        labelled_twice(
            READ_WAITS,
            ("projector", name),
            ("outcome", WAIT_OUTCOMES[0]),
            Reading::Add(0),
        ),
    );
    out.push(
        labelled_twice(
            READ_WAITS,
            ("projector", name),
            ("outcome", WAIT_OUTCOMES[1]),
            Reading::Add(0),
        ),
    );
    let ghost first = projector_samples(*projector, head);
    assert(sample_views(out@) =~= first);
    let ghost entities = views(projector.entities@);
    let mut i: usize = 0;
    assert(entities.take(0) =~= Seq::empty());
    assert(first + entity_samples(name@, entities.take(0)) =~= first);
    while i < projector.entities.len()
        invariant
            i <= projector.entities.len(),
            name@ == projector.name@,
            entities == views(projector.entities@),
            sample_views(out@) == first + entity_samples(name@, entities.take(i as int)),
        decreases projector.entities.len() - i,
    {
        assert(entities.take(i as int + 1).drop_last() =~= entities.take(i as int));
        assert(entities.take(i as int + 1).last() == projector.entities@[i as int]@);
        let ghost part = entity_samples(name@, entities.take(i as int));
        let reads = report_reads(name, &projector.entities[i]);
        extend(&mut out, reads);
        assert(first + part + sample_views(reads@) =~= first + (part + sample_views(reads@)));
        i += 1;
    }
    assert(entities.take(i as int) =~= entities);
    out
}

fn report_effect(effect: &EffectGauges, head: u64, states: &Vec<String>) -> (r: Vec<Sample>)
    ensures
        sample_views(r@) == effect_samples(*effect, head, views(states@)),
{
    let name = effect.name.as_str();
    let mut out: Vec<Sample> = Vec::new();
    out.push(
        labelled_thrice(
            MODULE_INFO,
            ("kind", "effect"),
            ("name", name),
            ("hash", effect.hash.as_str()),
            Reading::Level(1),
        ),
    );
    out.push(labelled(EFFECT_UP, "name", name, Reading::Level(bit(effect.running))));
    out.push(labelled(EFFECT_POSITION, "name", name, Reading::Level(effect.position)));
    out.push(labelled(EFFECT_LAG, "name", name, Reading::Level(distance(head, effect.position))));
    let ghost first = effect_position_samples(*effect, head);
    assert(sample_views(out@) =~= first);
    let ghost wanted = state_samples(*effect, views(states@));
    let mut i: usize = 0;
    assert(first + wanted.take(0) =~= first);
    while i < states.len()
        invariant
            i <= states.len(),
            name@ == effect.name@,
            wanted == state_samples(*effect, views(states@)),
            sample_views(out@) == first + wanted.take(i as int),
        decreases states.len() - i,
    {
        let ghost had = sample_views(out@);
        let sample = labelled_twice(
            EFFECT_STATE,
            ("name", name),
            ("state", states[i].as_str()),
            Reading::Level(bit(same(&states[i], &effect.state))),
        );
        out.push(sample);
        assert(wanted[i as int] == sample_view(sample));
        assert(sample_views(out@) =~= had.push(sample_view(sample)));
        assert(had.push(sample_view(sample)) =~= first + wanted.take(i as int + 1));
        i += 1;
    }
    assert(wanted.take(i as int) =~= wanted);
    let ghost done = sample_views(out@);
    let mut tail: Vec<Sample> = Vec::new();
    tail.push(labelled(WEDGED_LANES, "name", name, Reading::Level(effect.wedged_lanes)));
    tail.push(labelled(EFFECT_FAILURES, "name", name, Reading::Level(effect.consecutive_failures)));
    let waiting: u64 = match effect.retry_in_ms {
        Some(ms) => ms,
        None => 0,
    };
    tail.push(labelled(EFFECT_BACKOFF, "name", name, Reading::LevelMillis(waiting)));
    tail.push(labelled(EFFECT_TERMINAL_SKIPS, "name", name, Reading::Raise(effect.terminal_skips)));
    tail.push(labelled(EFFECT_LIVE_SUPPRESSED, "name", name, Reading::Raise(effect.live_suppressed)));
    tail.push(labelled(EFFECT_COLLAPSED, "name", name, Reading::Raise(effect.latest_collapsed)));
    tail.push(labelled(EFFECT_RESTARTS, "name", name, Reading::Add(0)));
    let mut i: usize = 0;
    while i < 4
        invariant
            i <= 4,
            name@ == effect.name@,
            tail.len() == 7 + i,
            forall|k: int|
                0 <= k < 7 + i ==> sample_view(#[trigger] tail@[k]) == effect_count_samples(*effect)[k],
        decreases 4 - i,
    {
        let sample = labelled_twice(
            EFFECT_INVOCATIONS,
            ("name", name),
            ("outcome", EFFECT_OUTCOMES[i]),
            Reading::Add(0),
        );
        assert(sample_view(sample) == effect_count_samples(*effect)[7 + i]);
        tail.push(sample);
        i += 1;
    }
    assert(sample_views(tail@) =~= effect_count_samples(*effect));
    extend(&mut out, tail);
    out
}

/// What a scrape reports.
pub fn refresh(scrape: &Scrape) -> (r: Vec<Sample>)
    ensures
        sample_views(r@) == scraped(*scrape),
{
    let head: u64 = scrape.log_head;
    let mut out: Vec<Sample> = Vec::new();
    out.push(labelled(BUILD_INFO, "version", &scrape.version, Reading::Level(1)));
    out.push(bare(UPTIME, Reading::Level(scrape.uptime_seconds)));
    out.push(bare(LOG_HEAD, Reading::Level(head)));
    assert(sample_views(out@) =~= process_samples(*scrape));

    let mut part: Vec<Sample> = Vec::new();
    let mut i: usize = 0;
    while i < scrape.events.len()
        invariant
            i <= scrape.events.len(),
            part.len() == i,
            forall|k: int|
                0 <= k < i ==> sample_view(#[trigger] part@[k]) == event_samples(
                    views(scrape.events@),
                )[k],
        decreases scrape.events.len() - i,
    {
        part.push(labelled(EVENTS_APPENDED, "event", &scrape.events[i], Reading::Add(0)));
        i += 1;
    }
    assert(sample_views(part@) =~= event_samples(views(scrape.events@)));
    extend(&mut out, part);

    let mut part: Vec<Sample> = Vec::new();
    let mut i: usize = 0;
    assert(scrape.commands@.take(0) =~= Seq::empty());
    assert(sample_views(part@) =~= Seq::empty());
    while i < scrape.commands.len()
        invariant
            i <= scrape.commands.len(),
            sample_views(part@) == all_commands(scrape.commands@.take(i as int)),
        decreases scrape.commands.len() - i,
    {
        assert(scrape.commands@.take(i as int + 1).drop_last() =~= scrape.commands@.take(i as int));
        extend(&mut part, report_command(&scrape.commands[i]));
        i += 1;
    }
    assert(scrape.commands@.take(i as int) =~= scrape.commands@);
    extend(&mut out, part);

    let mut part: Vec<Sample> = Vec::new();
    let mut i: usize = 0;
    assert(scrape.projectors@.take(0) =~= Seq::empty());
    assert(sample_views(part@) =~= Seq::empty());
    while i < scrape.projectors.len()
        invariant
            i <= scrape.projectors.len(),
            sample_views(part@) == all_projectors(scrape.projectors@.take(i as int), head),
        decreases scrape.projectors.len() - i,
    {
        assert(scrape.projectors@.take(i as int + 1).drop_last() =~= scrape.projectors@.take(i as int));
        let ghost had = sample_views(part@);
        let one = report_projector(&scrape.projectors[i], head);
        extend(&mut part, one);
        proof {
            let projector = scrape.projectors@[i as int];
            let a = projector_samples(projector, head);
            let b = entity_samples(projector.name@, views(projector.entities@));
            assert(had + (a + b) =~= had + a + b);
        }
        i += 1;
    }
    assert(scrape.projectors@.take(i as int) =~= scrape.projectors@);
    extend(&mut out, part);

    let mut part: Vec<Sample> = Vec::new();
    let mut i: usize = 0;
    assert(scrape.effects@.take(0) =~= Seq::empty());
    assert(sample_views(part@) =~= Seq::empty());
    while i < scrape.effects.len()
        invariant
            i <= scrape.effects.len(),
            sample_views(part@) == all_effects(
                scrape.effects@.take(i as int),
                head,
                views(scrape.effect_states@),
            ),
        decreases scrape.effects.len() - i,
    {
        assert(scrape.effects@.take(i as int + 1).drop_last() =~= scrape.effects@.take(i as int));
        extend(&mut part, report_effect(&scrape.effects[i], head, &scrape.effect_states));
        i += 1;
    }
    assert(scrape.effects@.take(i as int) =~= scrape.effects@);
    extend(&mut out, part);

    let mut part: Vec<Sample> = Vec::new();
    let mut i: usize = 0;
    while i < 5
        invariant
            i <= 5,
            part.len() == i,
            forall|k: int| 0 <= k < i ==> sample_view(#[trigger] part@[k]) == http_samples()[k],
        decreases 5 - i,
    {
        let sample = labelled(EFFECT_HTTP, "outcome", HTTP_OUTCOMES[i], Reading::Add(0));
        assert(sample_view(sample) == http_samples()[i as int]);
        part.push(sample);
        i += 1;
    }
    assert(sample_views(part@) =~= http_samples());
    extend(&mut out, part);
    out
}


// ---------------------------------------------------------------------------
// What holds of every scrape
// ---------------------------------------------------------------------------

/// Whether a metric has a description.
pub open spec fn is_described(metric: Seq<char>) -> bool {
    exists|i: int| 0 <= i < described().len() && (#[trigger] described()[i]).0 == metric
}

/// Whether every sample of a list is of a metric that has a description.
pub open spec fn all_described(samples: Seq<SampleView>) -> bool {
    forall|i: int| 0 <= i < samples.len() ==> is_described((#[trigger] samples[i]).0)
}

proof fn lemma_described_concat(a: Seq<SampleView>, b: Seq<SampleView>)
    requires
        all_described(a),
        all_described(b),
    ensures
        all_described(a + b),
{
    assert forall|i: int| 0 <= i < (a + b).len() implies is_described((#[trigger] (a + b)[i]).0) by {
        if i < a.len() {
            assert((a + b)[i] == a[i]);
        } else {
            assert((a + b)[i] == b[i - a.len()]);
        }
    }
}

/// Every metric that there is a name for has a description.
proof fn lemma_names_described()
    ensures
        is_described(BUILD_INFO@),
        is_described(UPTIME@),
        is_described(LOG_HEAD@),
        is_described(EVENTS_APPENDED@),
        is_described(MODULE_INFO@),
        is_described(COMMANDS@),
        is_described(COMMAND_REFUSALS@),
        is_described(COMMAND_CONFLICT_RETRIES@),
        is_described(PROJECTOR_UP@),
        is_described(PROJECTOR_POSITION@),
        is_described(PROJECTOR_LAG@),
        is_described(PROJECTOR_READINESS@),
        is_described(PROJECTOR_EVENTS@),
        is_described(PROJECTOR_REBUILDS@),
        is_described(PROJECTOR_PROGRESS@),
        is_described(EFFECT_UP@),
        is_described(EFFECT_POSITION@),
        is_described(EFFECT_LAG@),
        is_described(EFFECT_STATE@),
        is_described(WEDGED_LANES@),
        is_described(EFFECT_FAILURES@),
        is_described(EFFECT_BACKOFF@),
        is_described(EFFECT_INVOCATIONS@),
        is_described(EFFECT_RESTARTS@),
        is_described(EFFECT_TERMINAL_SKIPS@),
        is_described(EFFECT_LIVE_SUPPRESSED@),
        is_described(EFFECT_COLLAPSED@),
        is_described(EFFECT_PROGRESS@),
        is_described(EFFECT_HTTP@),
        is_described(READS@),
        is_described(READ_WAITS@),
{
    assert(described()[0].0 == BUILD_INFO@);
    assert(described()[1].0 == UPTIME@);
    assert(described()[2].0 == LOG_HEAD@);
    assert(described()[3].0 == EVENTS_APPENDED@);
    assert(described()[4].0 == MODULE_INFO@);
    assert(described()[5].0 == COMMANDS@);
    assert(described()[6].0 == COMMAND_REFUSALS@);
    assert(described()[7].0 == COMMAND_CONFLICT_RETRIES@);
    assert(described()[8].0 == PROJECTOR_UP@);
    assert(described()[9].0 == PROJECTOR_POSITION@);
    assert(described()[10].0 == PROJECTOR_LAG@);
    assert(described()[11].0 == PROJECTOR_READINESS@);
    assert(described()[12].0 == PROJECTOR_EVENTS@);
    assert(described()[13].0 == PROJECTOR_REBUILDS@);
    assert(described()[14].0 == PROJECTOR_PROGRESS@);
    assert(described()[15].0 == EFFECT_UP@);
    assert(described()[16].0 == EFFECT_POSITION@);
    assert(described()[17].0 == EFFECT_LAG@);
    assert(described()[18].0 == EFFECT_STATE@);
    assert(described()[19].0 == WEDGED_LANES@);
    assert(described()[20].0 == EFFECT_FAILURES@);
    assert(described()[21].0 == EFFECT_BACKOFF@);
    assert(described()[22].0 == EFFECT_INVOCATIONS@);
    assert(described()[23].0 == EFFECT_RESTARTS@);
    assert(described()[24].0 == EFFECT_TERMINAL_SKIPS@);
    assert(described()[25].0 == EFFECT_LIVE_SUPPRESSED@);
    assert(described()[26].0 == EFFECT_COLLAPSED@);
    assert(described()[27].0 == EFFECT_PROGRESS@);
    assert(described()[28].0 == EFFECT_HTTP@);
    assert(described()[29].0 == READS@);
    assert(described()[30].0 == READ_WAITS@);
}

proof fn lemma_commands_described(commands: Seq<Loaded>)
    ensures
        all_described(all_commands(commands)),
    decreases commands.len(),
{
    if commands.len() > 0 {
        lemma_commands_described(commands.drop_last());
        lemma_names_described();
        assert(all_described(command_samples(commands.last())));
        lemma_described_concat(all_commands(commands.drop_last()), command_samples(commands.last()));
    }
}

proof fn lemma_entities_described(projector: Seq<char>, entities: Seq<Seq<char>>)
    ensures
        all_described(entity_samples(projector, entities)),
    decreases entities.len(),
{
    if entities.len() > 0 {
        lemma_entities_described(projector, entities.drop_last());
        lemma_names_described();
        assert(all_described(read_samples(projector, entities.last())));
        lemma_described_concat(
            entity_samples(projector, entities.drop_last()),
            read_samples(projector, entities.last()),
        );
    }
}

proof fn lemma_projectors_described(projectors: Seq<ProjectorGauges>, head: u64)
    ensures
        all_described(all_projectors(projectors, head)),
    decreases projectors.len(),
{
    if projectors.len() > 0 {
        let last = projectors.last();
        let rest = all_projectors(projectors.drop_last(), head);
        lemma_projectors_described(projectors.drop_last(), head);
        lemma_names_described();
        assert(all_described(projector_samples(last, head)));
        lemma_entities_described(last.name@, views(last.entities@));
        lemma_described_concat(rest, projector_samples(last, head));
        lemma_described_concat(
            rest + projector_samples(last, head),
            entity_samples(last.name@, views(last.entities@)),
        );
    }
}

proof fn lemma_effects_described(effects: Seq<EffectGauges>, head: u64, states: Seq<Seq<char>>)
    ensures
        all_described(all_effects(effects, head, states)),
    decreases effects.len(),
{
    if effects.len() > 0 {
        let last = effects.last();
        lemma_effects_described(effects.drop_last(), head, states);
        lemma_names_described();
        assert(all_described(effect_position_samples(last, head)));
        assert(all_described(state_samples(last, states)));
        assert(all_described(effect_count_samples(last)));
        lemma_described_concat(effect_position_samples(last, head), state_samples(last, states));
        lemma_described_concat(
            effect_position_samples(last, head) + state_samples(last, states),
            effect_count_samples(last),
        );
        lemma_described_concat(
            all_effects(effects.drop_last(), head, states),
            effect_samples(last, head, states),
        );
    }
}

/// Whatever a scrape reports carries a help text.
pub proof fn law_a_scrape_reports_described_metrics(scrape: Scrape)
    ensures
        all_described(scraped(scrape)),
{
    lemma_names_described();
    let states = views(scrape.effect_states@);
    let a = process_samples(scrape);
    let b = event_samples(views(scrape.events@));
    let c = all_commands(scrape.commands@);
    let d = all_projectors(scrape.projectors@, scrape.log_head);
    let e = all_effects(scrape.effects@, scrape.log_head, states);
    assert(all_described(a));
    assert(all_described(b));
    assert(all_described(http_samples()));
    lemma_commands_described(scrape.commands@);
    lemma_projectors_described(scrape.projectors@, scrape.log_head);
    lemma_effects_described(scrape.effects@, scrape.log_head, states);
    lemma_described_concat(a, b);
    lemma_described_concat(a + b, c);
    lemma_described_concat(a + b + c, d);
    lemma_described_concat(a + b + c + d, e);
    lemma_described_concat(a + b + c + d + e, http_samples());
}

/// Of a projector's states the one that it is in reads one, and every other reads zero.
pub proof fn law_a_projector_is_in_one_state(projector: ProjectorGauges, state: Readiness)
    ensures
        readiness_sample(projector, state).2 == Reading::Level(1) <==> state == projector.readiness,
        readiness_sample(projector, state).2 == Reading::Level(0) <==> state != projector.readiness,
{
}

} // verus!
