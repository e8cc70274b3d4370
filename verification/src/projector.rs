//! The projector runtime's decisions: whether a read model on disk has the shape that the
//! read API would serve it at, and what a projector's thread does next.

use vstd::prelude::*;

use crate::hash::{sha256_hex, text_hash};
use crate::schema::{EntityDef, FieldKind};
use crate::text::{
    debug_all, debug_items, decimal, join, joined, number, option_view, same, views,
};

verus! {

// ---------------------------------------------------------------------------
// Readiness
// ---------------------------------------------------------------------------

/// Whether a projector's read model on disk has the shape that the read API would serve
/// it at. The read API selects the columns of the current definition, while the file
/// holds whatever the last run left; until a rebuild swaps a fresh model in, the two
/// disagree.
#[derive(Debug, Clone, Copy, PartialEq, Eq, Structural)]
pub enum Readiness {
    /// The model on disk matches the current definition.
    Ready,
    /// The definition changed and a rebuild is under way; this resolves on its own.
    Rebuilding,
    /// The definition changed and automatic rebuilds are off, so only a replay that an
    /// operator asks for resolves it.
    Stale,
    /// A rebuild was tried and failed, leaving the model at the shape it had.
    Failed,
}

pub open spec fn readiness_of(raw: u8) -> Readiness {
    if raw == 1 {
        Readiness::Rebuilding
    } else if raw == 2 {
        Readiness::Stale
    } else if raw == 3 {
        Readiness::Failed
    } else {
        Readiness::Ready
    }
}

pub open spec fn readiness_code(readiness: Readiness) -> u8 {
    match readiness {
        Readiness::Ready => 0,
        Readiness::Rebuilding => 1,
        Readiness::Stale => 2,
        Readiness::Failed => 3,
    }
}

/// The word for a readiness on the wire.
pub open spec fn readiness_label(readiness: Readiness) -> Seq<char> {
    match readiness {
        Readiness::Ready => "ready"@,
        Readiness::Rebuilding => "rebuilding"@,
        Readiness::Stale => "stale"@,
        Readiness::Failed => "rebuild_failed"@,
    }
}

/// Whether a batch can be applied to a model of that readiness.
pub open spec fn takes_batches(readiness: Readiness) -> bool {
    readiness == Readiness::Ready || readiness == Readiness::Rebuilding
}

impl Readiness {
    pub fn from_u8(raw: u8) -> (r: Readiness)
        ensures
            r == readiness_of(raw),
    {
        match raw {
            1 => Readiness::Rebuilding,
            2 => Readiness::Stale,
            3 => Readiness::Failed,
            _ => Readiness::Ready,
        }
    }

    pub fn as_u8(self) -> (r: u8)
        ensures
            r == readiness_code(self),
    {
        match self {
            Readiness::Ready => 0,
            Readiness::Rebuilding => 1,
            Readiness::Stale => 2,
            Readiness::Failed => 3,
        }
    }

    /// The word on the wire, for the status report and the read API's error body.
    pub fn label(self) -> (r: &'static str)
        ensures
            r@ == readiness_label(self),
    {
        match self {
            Readiness::Ready => "ready",
            Readiness::Rebuilding => "rebuilding",
            Readiness::Stale => "stale",
            Readiness::Failed => "rebuild_failed",
        }
    }

    /// Whether a batch built from the current entity definitions can be applied to the
    /// model on disk.
    pub fn applies_batches(self) -> (r: bool)
        ensures
            r == takes_batches(self),
    {
        matches!(self, Readiness::Ready | Readiness::Rebuilding)
    }
}

/// A readiness survives being kept as a number.
pub proof fn law_readiness_round_trips(readiness: Readiness)
    ensures
        readiness_of(readiness_code(readiness)) == readiness,
{
}

// ---------------------------------------------------------------------------
// Reconciling
// ---------------------------------------------------------------------------

/// What reconciling a read model with the current definition requires.
#[derive(Debug, Clone, Copy, PartialEq, Eq, Structural)]
pub enum Reconcile {
    /// The recorded definition matches the current one.
    UpToDate,
    /// A fresh model: record the current definition as its baseline and build forward.
    Stamp,
    /// The model was built from another definition, and automatic rebuilds are on.
    Rebuild,
    /// The same mismatch with automatic rebuilds off.
    Stale,
}

pub open spec fn planned_readiness(plan: Reconcile) -> Readiness {
    match plan {
        Reconcile::UpToDate | Reconcile::Stamp => Readiness::Ready,
        Reconcile::Rebuild => Readiness::Rebuilding,
        Reconcile::Stale => Readiness::Stale,
    }
}

impl Reconcile {
    pub fn readiness(self) -> (r: Readiness)
        ensures
            r == planned_readiness(self),
    {
        match self {
            Reconcile::UpToDate | Reconcile::Stamp => Readiness::Ready,
            Reconcile::Rebuild => Readiness::Rebuilding,
            Reconcile::Stale => Readiness::Stale,
        }
    }
}

/// How a model must be reconciled. One without a recorded definition takes the current
/// one where it is empty; where it is populated its shape cannot be known.
pub open spec fn reconciled(
    previous: Option<Seq<char>>,
    checkpoint: u64,
    definition: Seq<char>,
    auto_rebuild: bool,
) -> Reconcile {
    let mismatch = if auto_rebuild {
        Reconcile::Rebuild
    } else {
        Reconcile::Stale
    };
    match previous {
        Some(recorded) => if recorded == definition {
            Reconcile::UpToDate
        } else {
            mismatch
        },
        None => if checkpoint == 0 {
            Reconcile::Stamp
        } else {
            mismatch
        },
    }
}

/// What a read model records of itself: the definition it was built under, and the
/// position up to which everything is applied.
pub struct ModelState {
    pub definition: Option<String>,
    pub checkpoint: u64,
}

/// Decides how a read model must be reconciled with `definition`. A model with no
/// recorded definition that has rows is treated as a mismatch rather than taken for
/// current.
pub fn reconcile_from(
    previous: &Option<String>,
    checkpoint: u64,
    definition: &str,
    auto_rebuild: bool,
) -> (r: Reconcile)
    ensures
        r == reconciled(option_view(*previous), checkpoint, definition@, auto_rebuild),
{
    let mismatch = if auto_rebuild {
        Reconcile::Rebuild
    } else {
        Reconcile::Stale
    };
    match previous {
        Some(recorded) => {
            if same(recorded, definition) {
                Reconcile::UpToDate
            } else {
                mismatch
            }
        },
        None => {
            if checkpoint == 0 {
                Reconcile::Stamp
            } else {
                mismatch
            }
        },
    }
}

/// Decides how a read model must be reconciled with `definition`.
pub fn reconcile_plan(model: &ModelState, definition: &str, auto_rebuild: bool) -> (r: Reconcile)
    ensures
        r == reconciled(option_view(model.definition), model.checkpoint, definition@, auto_rebuild),
{
    reconcile_from(&model.definition, model.checkpoint, definition, auto_rebuild)
}

/// Reconciling never ends in a failure: that is decided by a rebuild that ran.
pub proof fn law_a_plan_never_starts_failed(plan: Reconcile)
    ensures
        planned_readiness(plan) != Readiness::Failed,
{
}

/// A model with rows is taken for current only where it records the current definition.
pub proof fn law_an_unknown_shape_is_never_current(
    previous: Option<Seq<char>>,
    checkpoint: u64,
    definition: Seq<char>,
    auto_rebuild: bool,
)
    ensures
        planned_readiness(reconciled(previous, checkpoint, definition, auto_rebuild))
            == Readiness::Ready <==> previous == Some(definition) || (previous is None && checkpoint
            == 0),
{
}

// ---------------------------------------------------------------------------
// The state of a running projector
// ---------------------------------------------------------------------------

/// The observable state of a running projector.
pub struct ProjectorShared {
    pub name: String,
    pub db_path: String,
    pub entities: Vec<EntityDef>,
    pub position: u64,
    pub shutdown: bool,
    pub replay: bool,
    /// Cleared when the thread leaves, so that a replay is not accepted by a projector
    /// that is no longer there to act on it.
    pub running: bool,
    pub failed: bool,
    pub readiness: u8,
    pub last_error: Option<String>,
}

/// A projector that records a failure records what failed.
pub open spec fn consistent(shared: ProjectorShared) -> bool {
    shared.failed == (shared.last_error is Some)
}

/// Two states that differ at most in what a failure is recorded by.
pub open spec fn same_but_failure(a: ProjectorShared, b: ProjectorShared) -> bool {
    &&& a.name == b.name
    &&& a.db_path == b.db_path
    &&& a.entities == b.entities
    &&& a.position == b.position
    &&& a.shutdown == b.shutdown
    &&& a.replay == b.replay
    &&& a.running == b.running
    &&& a.readiness == b.readiness
}

impl ProjectorShared {
    /// The state that a projector starts in.
    pub fn new(name: &str, db_path: &str, entities: Vec<EntityDef>, start: u64, plan: Reconcile) -> (r: ProjectorShared)
        ensures
            r.name@ == name@,
            r.db_path@ == db_path@,
            r.entities == entities,
            r.position == start,
            !r.shutdown,
            !r.replay,
            r.running,
            readiness_of(r.readiness) == planned_readiness(plan),
            !r.failed,
            consistent(r),
    {
        ProjectorShared {
            name: name.to_owned(),
            db_path: db_path.to_owned(),
            entities,
            position: start,
            shutdown: false,
            replay: false,
            running: true,
            failed: false,
            readiness: plan.readiness().as_u8(),
            last_error: None,
        }
    }

    /// The last checkpoint position that was committed.
    pub fn position(&self) -> (r: u64)
        ensures
            r == self.position,
    {
        self.position
    }

    /// Whether the last operation failed.
    pub fn failed(&self) -> (r: bool)
        ensures
            r == self.failed,
    {
        self.failed
    }

    /// Whether the thread is still there. A stopped projector serves its frozen model but
    /// will never advance or act on a replay again.
    pub fn running(&self) -> (r: bool)
        ensures
            r == self.running,
    {
        self.running
    }

    /// Whether the model on disk can be served at the current definition.
    pub fn readiness(&self) -> (r: Readiness)
        ensures
            r == readiness_of(self.readiness),
    {
        Readiness::from_u8(self.readiness)
    }

    pub fn set_readiness(&mut self, readiness: Readiness)
        ensures
            *final(self) == (ProjectorShared { readiness: readiness_code(readiness), ..*old(self) }),
            readiness_of(final(self).readiness) == readiness,
    {
        self.readiness = readiness.as_u8();
    }

    /// The error that was recorded last, where the last operation failed.
    pub fn last_error(&self) -> (r: Option<String>)
        ensures
            r == self.last_error,
    {
        crate::text::copied_option(&self.last_error)
    }

    /// Asks the projector to rebuild its read model and swap it in. Picked up between
    /// batches.
    pub fn request_replay(&mut self)
        ensures
            *final(self) == (ProjectorShared { replay: true, ..*old(self) }),
    {
        self.replay = true;
    }

    /// Asks the projector to stop once it has caught up.
    pub fn stop(&mut self)
        ensures
            *final(self) == (ProjectorShared { shutdown: true, ..*old(self) }),
    {
        self.shutdown = true;
    }

    /// Records a failure.
    pub fn record_failure(&mut self, message: &str)
        ensures
            same_but_failure(*final(self), *old(self)),
            option_view(final(self).last_error) == Some(message@),
            final(self).failed,
            consistent(*final(self)),
    {
        self.last_error = Some(message.to_owned());
        self.failed = true;
    }

    /// Clears a recorded failure once the projector has recovered from it.
    pub fn clear_failure(&mut self)
        ensures
            same_but_failure(*final(self), *old(self)),
            final(self).last_error is None,
            !final(self).failed,
            consistent(*final(self)),
    {
        self.last_error = None;
        self.failed = false;
    }
}

// ---------------------------------------------------------------------------
// What the thread does
// ---------------------------------------------------------------------------

/// What a projector does before its first batch.
#[derive(Debug, Clone, Copy, PartialEq, Eq, Structural)]
pub enum Start {
    /// Nothing: its model is current.
    Resume,
    /// Record the current definition in its model.
    Stamp,
    /// Rebuild before any batch lands.
    Rebuild,
    /// Warn that only a replay will bring it up to date. The definition is not recorded:
    /// that would pass a model that was not rebuilt for a current one.
    Warn,
}

/// What a projector does before its first batch, for how its model was reconciled.
pub open spec fn started(plan: Reconcile) -> Start {
    match plan {
        Reconcile::UpToDate => Start::Resume,
        Reconcile::Stamp => Start::Stamp,
        Reconcile::Rebuild => Start::Rebuild,
        Reconcile::Stale => Start::Warn,
    }
}

/// What a projector does before its first batch, for how its model was reconciled.
pub fn start(plan: Reconcile) -> (r: Start)
    ensures
        r == match plan {
            Reconcile::UpToDate => Start::Resume,
            Reconcile::Stamp => Start::Stamp,
            Reconcile::Rebuild => Start::Rebuild,
            Reconcile::Stale => Start::Warn,
        },
        r == started(plan),
{
    match plan {
        Reconcile::UpToDate => Start::Resume,
        Reconcile::Stamp => Start::Stamp,
        Reconcile::Rebuild => Start::Rebuild,
        Reconcile::Stale => Start::Warn,
    }
}

/// What a projector's loop does next.
#[derive(Debug, Clone, Copy, PartialEq, Eq, Structural)]
pub enum Action {
    /// Rebuild the read model, swap it in and subscribe again.
    Rebuild,
    /// Wait, and look again.
    Idle,
    /// Fetch the next batch.
    Poll,
    /// Leave the loop.
    Stop,
}

/// What a projector's loop does next.
pub open spec fn action_of(shared: ProjectorShared) -> Action {
    if shared.replay {
        Action::Rebuild
    } else if takes_batches(readiness_of(shared.readiness)) {
        Action::Poll
    } else if shared.shutdown {
        Action::Stop
    } else {
        Action::Idle
    }
}

/// What a projector's loop does next. A replay that was asked for comes first, and is
/// taken note of by clearing the request. A model at the shape of a previous definition
/// takes no batch: the projector idles until a replay rebuilds it, or until it is asked
/// to stop.
pub fn next_action(shared: &mut ProjectorShared) -> (r: Action)
    ensures
        *final(shared) == (ProjectorShared { replay: false, ..*old(shared) }),
        r == if old(shared).replay {
            Action::Rebuild
        } else if takes_batches(readiness_of(old(shared).readiness)) {
            Action::Poll
        } else if old(shared).shutdown {
            Action::Stop
        } else {
            Action::Idle
        },
        r == action_of(*old(shared)),
{
    if shared.replay {
        shared.replay = false;
        return Action::Rebuild;
    }
    if !shared.readiness().applies_batches() {
        if shared.shutdown {
            return Action::Stop;
        }
        return Action::Idle;
    }
    Action::Poll
}

/// What follows a fetch.
#[derive(Debug, Clone, Copy, PartialEq, Eq, Structural)]
pub enum Fetched {
    /// Apply the batch, and publish the position behind it.
    Apply,
    /// Caught up. `advance` is a watermark to persist and publish first: no matching
    /// event is left, but the subscription may have gone past others. Then stop, or wait
    /// for more.
    CaughtUp { advance: Option<u64>, stop: bool },
}

/// What follows a fetch.
pub open spec fn fetched_of(shared: ProjectorShared, events: usize, watermark: u64) -> Fetched {
    if events > 0 {
        Fetched::Apply
    } else {
        Fetched::CaughtUp {
            advance: if watermark > shared.position {
                Some(watermark)
            } else {
                None
            },
            stop: shared.shutdown,
        }
    }
}

/// What follows a fetch. A projector stops only once it has caught up, so a request to
/// stop still drains the log.
pub fn after_fetch(shared: &ProjectorShared, events: usize, watermark: u64) -> (r: Fetched)
    ensures
        r == if events > 0 {
            Fetched::Apply
        } else {
            Fetched::CaughtUp {
                advance: if watermark > shared.position {
                    Some(watermark)
                } else {
                    None
                },
                stop: shared.shutdown,
            }
        },
        r == fetched_of(*shared, events, watermark),
{
    if events > 0 {
        Fetched::Apply
    } else {
        let advance: Option<u64> = if watermark > shared.position { Some(watermark) } else { None };
        Fetched::CaughtUp { advance, stop: shared.shutdown }
    }
}

/// Publishes a position once it is committed.
pub fn publish(shared: &mut ProjectorShared, position: u64)
    ensures
        *final(shared) == (ProjectorShared { position, ..*old(shared) }),
{
    shared.position = position;
}

/// Takes in a rebuild that was swapped in: nothing has failed any longer, the model is
/// current, and its checkpoint is the position.
pub fn rebuilt(shared: &mut ProjectorShared, checkpoint: u64)
    ensures
        readiness_of(final(shared).readiness) == Readiness::Ready,
        final(shared).position == checkpoint,
        !final(shared).failed,
        consistent(*final(shared)),
        final(shared).name == old(shared).name,
        final(shared).db_path == old(shared).db_path,
        final(shared).entities == old(shared).entities,
        final(shared).shutdown == old(shared).shutdown,
        final(shared).replay == old(shared).replay,
        final(shared).running == old(shared).running,
{
    shared.clear_failure();
    shared.set_readiness(Readiness::Ready);
    shared.position = checkpoint;
}

/// Whether a model can be served after a rebuild of it failed: by what is on disk.
pub open spec fn left_readiness(recorded: Option<Seq<char>>, checkpoint: u64, definition: Seq<char>) -> Readiness {
    if reconciled(recorded, checkpoint, definition, false) != Reconcile::Stale {
        Readiness::Ready
    } else {
        Readiness::Failed
    }
}

/// Takes in a rebuild that failed. The thread lives on, so that a replay can be asked for
/// again once the cause is gone. What is on disk decides whether the model can be served:
/// the swap is a rebuild's last step and may have landed after all.
pub fn degraded(shared: &mut ProjectorShared, message: &str, on_disk: &ModelState, definition: &str)
    ensures
        final(shared).failed,
        option_view(final(shared).last_error) == Some(message@),
        consistent(*final(shared)),
        final(shared).position == on_disk.checkpoint,
        readiness_of(final(shared).readiness) == if reconciled(
            option_view(on_disk.definition),
            on_disk.checkpoint,
            definition@,
            false,
        ) != Reconcile::Stale {
            Readiness::Ready
        } else {
            Readiness::Failed
        },
        readiness_of(final(shared).readiness) == left_readiness(
            option_view(on_disk.definition),
            on_disk.checkpoint,
            definition@,
        ),
        final(shared).name == old(shared).name,
        final(shared).db_path == old(shared).db_path,
        final(shared).entities == old(shared).entities,
        final(shared).shutdown == old(shared).shutdown,
        final(shared).replay == old(shared).replay,
        final(shared).running == old(shared).running,
{
    shared.record_failure(message);
    shared.set_readiness(Readiness::Failed);
    if reconcile_plan(on_disk, definition, false) != Reconcile::Stale {
        shared.set_readiness(Readiness::Ready);
    }
    shared.position = on_disk.checkpoint;
}

/// Takes in that the thread leaves: with the failure it stopped on, where there is one,
/// recorded before it is marked as gone.
pub fn left(shared: &mut ProjectorShared, failure: Option<&str>)
    ensures
        !final(shared).running,
        match failure {
            Some(message) => {
                &&& final(shared).failed
                &&& option_view(final(shared).last_error) == Some(message@)
            },
            None => {
                &&& final(shared).failed == old(shared).failed
                &&& final(shared).last_error == old(shared).last_error
            },
        },
        final(shared).name == old(shared).name,
        final(shared).db_path == old(shared).db_path,
        final(shared).entities == old(shared).entities,
        final(shared).position == old(shared).position,
        final(shared).shutdown == old(shared).shutdown,
        final(shared).replay == old(shared).replay,
        final(shared).readiness == old(shared).readiness,
{
    if let Some(message) = failure {
        shared.record_failure(message);
    }
    shared.running = false;
}

// ---------------------------------------------------------------------------
// Definitions
// ---------------------------------------------------------------------------

/// One clause of a subscription.
#[derive(Debug, Clone)]
pub enum EventSpec {
    /// Every event.
    All,
    /// The events of one type, where the named fields hold the given values.
    Filter { event_type: String, constraints: Vec<(String, String)> },
}

/// A kind spelled with all that it carries.
pub open spec fn kind_form(kind: FieldKind) -> Seq<char>
    decreases kind,
{
    match kind {
        FieldKind::Text { max_length: Some(n) } => "Text { max_length: Some("@ + decimal(n as nat)
            + ") }"@,
        FieldKind::Text { max_length: None } => "Text { max_length: None }"@,
        FieldKind::I64 => "I64"@,
        FieldKind::U64 => "U64"@,
        FieldKind::Bool => "Bool"@,
        FieldKind::Uuid => "Uuid"@,
        FieldKind::Timestamp => "Timestamp"@,
        FieldKind::Money { scale } => "Money { scale: "@ + decimal(scale as nat) + " }"@,
        FieldKind::Json => "Json"@,
        FieldKind::OneOf(values) => "OneOf(["@ + joined(debug_all(views(values@)), ", "@) + "])"@,
        FieldKind::Optional(inner) => "Optional("@ + kind_form(*inner) + ")"@,
    }
}

fn kind_text(kind: &FieldKind) -> (r: String)
    ensures
        r@ == kind_form(*kind),
    decreases *kind,
{
    match kind {
        FieldKind::Text { max_length: Some(n) } => {
            let mut out = "Text { max_length: Some(".to_owned();
            out.append(&number(*n as u64));
            out.append(") }");
            out
        },
        FieldKind::Text { max_length: None } => "Text { max_length: None }".to_owned(),
        FieldKind::I64 => "I64".to_owned(),
        FieldKind::U64 => "U64".to_owned(),
        FieldKind::Bool => "Bool".to_owned(),
        FieldKind::Uuid => "Uuid".to_owned(),
        FieldKind::Timestamp => "Timestamp".to_owned(),
        FieldKind::Money { scale } => {
            let mut out = "Money { scale: ".to_owned();
            out.append(&number(*scale as u64));
            out.append(" }");
            out
        },
        FieldKind::Json => "Json".to_owned(),
        FieldKind::OneOf(values) => {
            let mut out = "OneOf([".to_owned();
            out.append(&debug_items(values));
            out.append("])");
            out
        },
        FieldKind::Optional(inner) => {
            let mut out = "Optional(".to_owned();
            out.append(&kind_text(inner));
            out.append(")");
            out
        },
    }
}

/// The first constraints of a clause.
pub open spec fn constraints_form(constraints: Seq<(String, String)>) -> Seq<char>
    decreases constraints.len(),
{
    if constraints.len() == 0 {
        Seq::empty()
    } else {
        constraints_form(constraints.drop_last()) + constraints.last().0@ + "="@
            + constraints.last().1@ + ","@
    }
}

/// One clause of a subscription.
pub open spec fn spec_form(clause: EventSpec) -> Seq<char> {
    match clause {
        EventSpec::All => "all;"@,
        EventSpec::Filter { event_type, constraints } => event_type@ + "("@ + constraints_form(
            constraints@,
        ) + ");"@,
    }
}

/// The first clauses of a subscription.
pub open spec fn sources_form(sources: Seq<EventSpec>) -> Seq<char>
    decreases sources.len(),
{
    if sources.len() == 0 {
        Seq::empty()
    } else {
        sources_form(sources.drop_last()) + spec_form(sources.last())
    }
}

/// The first columns of an entity.
pub open spec fn columns_form(entity: EntityDef, upto: nat) -> Seq<char>
    decreases upto,
{
    if upto == 0 {
        Seq::empty()
    } else {
        let (name, meta) = entity.fields@[upto - 1];
        columns_form(entity, (upto - 1) as nat) + name@ + "="@ + kind_form(meta.kind) + (
        match meta.subject {
            Some(subject) => "@"@ + subject@,
            None => ""@,
        }) + ","@
    }
}

/// The first indexes of an entity.
pub open spec fn indexes_form(entity: EntityDef, upto: nat) -> Seq<char>
    decreases upto,
{
    if upto == 0 {
        Seq::empty()
    } else {
        let ix = entity.indexes@[upto - 1];
        indexes_form(entity, (upto - 1) as nat) + ix.name@ + "("@ + joined(views(ix.columns@), ","@)
            + ")"@
    }
}

/// One entity.
pub open spec fn entity_form(entity: EntityDef) -> Seq<char> {
    entity.name@ + ":"@ + entity.key@ + "{"@ + columns_form(entity, entity.fields.len() as nat)
        + "}"@ + indexes_form(entity, entity.indexes.len() as nat) + ";"@
}

/// The first entities of a projector.
pub open spec fn entities_form(entities: Seq<EntityDef>) -> Seq<char>
    decreases entities.len(),
{
    if entities.len() == 0 {
        Seq::empty()
    } else {
        entities_form(entities.drop_last()) + entity_form(entities.last())
    }
}

/// A projector's definition: its source set and its entity schema.
pub open spec fn definition_form(sources: Seq<EventSpec>, entities: Seq<EntityDef>) -> Seq<char> {
    sources_form(sources) + "|"@ + entities_form(entities)
}

fn spec_text(clause: &EventSpec) -> (r: String)
    ensures
        r@ == spec_form(*clause),
{
    match clause {
        EventSpec::All => "all;".to_owned(),
        EventSpec::Filter { event_type, constraints } => {
            let mut out = event_type.clone();
            out.append("(");
            let mut inner = String::new();
            let mut i: usize = 0;
            assert(constraints@.take(0) =~= Seq::empty());
            while i < constraints.len()
                invariant
                    i <= constraints.len(),
                    inner@ == constraints_form(constraints@.take(i as int)),
                decreases constraints.len() - i,
            {
                assert(constraints@.take(i as int + 1).drop_last() =~= constraints@.take(i as int));
                inner.append(&constraints[i].0);
                inner.append("=");
                inner.append(&constraints[i].1);
                inner.append(",");
                i += 1;
            }
            assert(constraints@.take(i as int) =~= constraints@);
            out.append(&inner);
            out.append(");");
            out
        },
    }
}

fn entity_text(entity: &EntityDef) -> (r: String)
    ensures
        r@ == entity_form(*entity),
{
    let mut columns = String::new();
    let mut i: usize = 0;
    while i < entity.fields.len()
        invariant
            i <= entity.fields.len(),
            columns@ == columns_form(*entity, i as nat),
        decreases entity.fields.len() - i,
    {
        columns.append(&entity.fields[i].0);
        columns.append("=");
        columns.append(&kind_text(&entity.fields[i].1.kind));
        match &entity.fields[i].1.subject {
            Some(subject) => {
                let mut scope = "@".to_owned();
                scope.append(subject);
                columns.append(&scope);
            },
            None => {
                columns.append("");
            },
        }
        columns.append(",");
        i += 1;
    }
    let mut indexes = String::new();
    let mut i: usize = 0;
    while i < entity.indexes.len()
        invariant
            i <= entity.indexes.len(),
            indexes@ == indexes_form(*entity, i as nat),
        decreases entity.indexes.len() - i,
    {
        indexes.append(&entity.indexes[i].name);
        indexes.append("(");
        indexes.append(&join(&entity.indexes[i].columns, ","));
        indexes.append(")");
        i += 1;
    }
    let mut out = entity.name.clone();
    out.append(":");
    out.append(&entity.key);
    out.append("{");
    out.append(&columns);
    out.append("}");
    out.append(&indexes);
    out.append(";");
    out
}

/// The canonical text of a projector's definition, its source set and its entity schema,
/// not its handler: a handler that was fixed is the author's call to replay.
pub fn definition_text(sources: &Vec<EventSpec>, entities: &Vec<EntityDef>) -> (r: String)
    ensures
        r@ == definition_form(sources@, entities@),
{
    let mut out = String::new();
    let mut i: usize = 0;
    assert(sources@.take(0) =~= Seq::empty());
    while i < sources.len()
        invariant
            i <= sources.len(),
            out@ == sources_form(sources@.take(i as int)),
        decreases sources.len() - i,
    {
        assert(sources@.take(i as int + 1).drop_last() =~= sources@.take(i as int));
        out.append(&spec_text(&sources[i]));
        i += 1;
    }
    assert(sources@.take(i as int) =~= sources@);
    out.append("|");
    let mut tail = String::new();
    let mut i: usize = 0;
    assert(entities@.take(0) =~= Seq::empty());
    while i < entities.len()
        invariant
            i <= entities.len(),
            tail@ == entities_form(entities@.take(i as int)),
        decreases entities.len() - i,
    {
        assert(entities@.take(i as int + 1).drop_last() =~= entities@.take(i as int));
        tail.append(&entity_text(&entities[i]));
        i += 1;
    }
    assert(entities@.take(i as int) =~= entities@);
    out.append(&tail);
    out
}

/// A stable hash of a projector's definition, so that a restart can tell when the event
/// set or the schema that a model was built from has changed.
pub fn definition_hash(sources: &Vec<EventSpec>, entities: &Vec<EntityDef>) -> (r: String)
    ensures
        r@ == text_hash(definition_form(sources@, entities@)),
{
    sha256_hex(&definition_text(sources, entities))
}

/// The name of a file that SQLite keeps beside a database.
pub fn sidecar(db_path: &str, suffix: &str) -> (r: String)
    ensures
        r@ == db_path@ + suffix@,
{
    let mut out = db_path.to_owned();
    out.append(suffix);
    out
}

/// The files that go with a database: its write-ahead log and its shared-memory index.
pub fn sidecars(db_path: &str) -> (r: (String, String))
    ensures
        r.0@ == db_path@ + "-wal"@,
        r.1@ == db_path@ + "-shm"@,
{
    (sidecar(db_path, "-wal"), sidecar(db_path, "-shm"))
}

} // verus!
