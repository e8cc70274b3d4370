//! The operational database: the effect journal and its cursors, effect invocations, what
//! is deployed, and the wrapped keys behind field-level erasure. These are the runtime's
//! books, not domain truth: none of it belongs in the event log.
//!
//! Each table is a list of rows, and each operation is what one short transaction does to
//! them.

use vstd::prelude::*;

use crate::list::{
    at_most, distinct, distinct_texts, lemma_picked, lemma_place, lemma_place_exists, lemma_place_is,
    picked, place_of,
};
use crate::order::{lemma_sorted_contains, lemma_sorted_map, sort, sorted, Ranked};
use crate::text::{
    copied_option, decimal, option_view, precedes, same, signed_decimal, signed_number, views,
};

verus! {

/// The schema version that this build writes and reads.
pub const SCHEMA_VERSION: i64 = 7;

/// How many rows one sweep deletes at most, so that a retention sweep never holds the
/// database across a long scan.
pub const SWEEP_CHUNK: usize = 1000;

/// The subject field that the secret behind uniqueness tags is filed under. It is not a
/// subject: it is in no inventory and cannot be erased.
pub const GLOBAL_SUBJECT_FIELD: &'static str = "@global";

// ---------------------------------------------------------------------------
// Rows
// ---------------------------------------------------------------------------

/// Whether a handler is to be run for a position that was just reserved.
#[derive(Debug, Clone, Copy, PartialEq, Eq, Structural)]
pub enum InvocationState {
    /// New, or left running by a crash: run the handler. Journaled calls replay.
    Running,
    /// A prior run reached its end: skip this position.
    AlreadyTerminal,
}

/// One effect invocation: an effect reacting to the event at one position.
pub struct Invocation {
    pub effect: String,
    pub row: InvocationRow,
}

/// One effect invocation, as a reader sees it. `status` is `running` or `terminal`, and
/// `skipped_at` is set where an operator skipped a wedged invocation rather than it
/// reaching an end of its own.
pub struct InvocationRow {
    pub position: u64,
    pub status: String,
    pub script_hash: String,
    pub created_at: String,
    pub completed_at: Option<String>,
    pub skipped_at: Option<String>,
}

/// One invocation found by position, with the effect it belongs to.
pub struct InvocationAt {
    pub effect: String,
    pub position: u64,
    pub status: String,
}

/// One journaled call, with the invocation that made it.
pub struct JournalEntry {
    pub effect: String,
    pub position: u64,
    pub row: JournalRow,
}

/// One journaled call, in the order it was made. The arguments are not stored, only
/// hashed. `kind` is absent for a row that was written before it was recorded.
pub struct JournalRow {
    pub call_hash: String,
    pub disambiguator: u64,
    pub kind: Option<String>,
    pub result: String,
    pub created_at: String,
}

/// One declaration, as recorded when it was loaded. A row is one version of a
/// declaration, so several may share a kind and a name, and at most one of those is
/// current.
pub struct DeclarationRow {
    pub kind: String,
    pub name: String,
    pub hash: String,
    pub signature_hash: Option<String>,
    pub form: String,
    pub signature: Option<String>,
    pub module: Option<String>,
    pub first_seen: String,
    pub last_seen: String,
    pub current: bool,
}

/// A durable effect quarantine.
pub struct QuarantineRow {
    pub position: u64,
    pub reason: String,
    pub at: String,
}

/// One effect's durable state: where it resumes from, and whether a check has quarantined
/// it. Both absent is an effect that has never run.
pub struct EffectState {
    pub watermark: Option<u64>,
    pub quarantine: Option<QuarantineRow>,
}

impl Default for EffectState {
    fn default() -> (r: EffectState)
        ensures
            r.watermark is None,
            r.quarantine is None,
    {
        EffectState { watermark: None, quarantine: None }
    }
}

/// One subject's key, wrapped under a master key.
pub struct SubjectKey {
    pub subject_field: String,
    pub subject_value: String,
    pub wrapped_key: Vec<u8>,
    pub master_key_id: String,
    pub created_at: String,
}

/// One live subject key, without any key material. A subject with no row has been erased
/// or never had a value encrypted: the two are the same state.
pub struct SubjectInfo {
    pub subject_field: String,
    pub subject_value: String,
    pub master_key_id: String,
    pub created_at: String,
}

/// One rewrap of a master rotation: the subject, its newly wrapped key and master, and
/// the master that the row is expected to be under.
pub struct RewrapUpdate {
    pub subject_field: String,
    pub subject_value: String,
    pub wrapped_key: Vec<u8>,
    pub master_key_id: String,
    pub expected_master_id: String,
}

/// The tables.
pub struct OpDb {
    pub invocations: Vec<Invocation>,
    pub journal: Vec<JournalEntry>,
    pub cursors: Vec<(String, u64)>,
    pub quarantines: Vec<(String, QuarantineRow)>,
    pub declarations: Vec<DeclarationRow>,
    pub subject_keys: Vec<SubjectKey>,
}

// ---------------------------------------------------------------------------
// What rows say
// ---------------------------------------------------------------------------

pub struct InvocationView {
    pub effect: Seq<char>,
    pub position: u64,
    pub status: Seq<char>,
    pub script_hash: Seq<char>,
    pub created_at: Seq<char>,
    pub completed_at: Option<Seq<char>>,
    pub skipped_at: Option<Seq<char>>,
}

pub open spec fn row_view(effect: Seq<char>, row: InvocationRow) -> InvocationView {
    InvocationView {
        effect,
        position: row.position,
        status: row.status@,
        script_hash: row.script_hash@,
        created_at: row.created_at@,
        completed_at: option_view(row.completed_at),
        skipped_at: option_view(row.skipped_at),
    }
}

pub open spec fn invocation_view(invocation: Invocation) -> InvocationView {
    row_view(invocation.effect@, invocation.row)
}

pub struct JournalView {
    pub effect: Seq<char>,
    pub position: u64,
    pub call_hash: Seq<char>,
    pub disambiguator: u64,
    pub kind: Option<Seq<char>>,
    pub result: Seq<char>,
    pub created_at: Seq<char>,
}

pub open spec fn call_view(effect: Seq<char>, position: u64, row: JournalRow) -> JournalView {
    JournalView {
        effect,
        position,
        call_hash: row.call_hash@,
        disambiguator: row.disambiguator,
        kind: option_view(row.kind),
        result: row.result@,
        created_at: row.created_at@,
    }
}

pub open spec fn entry_view(entry: JournalEntry) -> JournalView {
    call_view(entry.effect@, entry.position, entry.row)
}

pub struct DeclarationView {
    pub kind: Seq<char>,
    pub name: Seq<char>,
    pub hash: Seq<char>,
    pub signature_hash: Option<Seq<char>>,
    pub form: Seq<char>,
    pub signature: Option<Seq<char>>,
    pub module: Option<Seq<char>>,
    pub first_seen: Seq<char>,
    pub last_seen: Seq<char>,
    pub current: bool,
}

pub open spec fn declaration_view(row: DeclarationRow) -> DeclarationView {
    DeclarationView {
        kind: row.kind@,
        name: row.name@,
        hash: row.hash@,
        signature_hash: option_view(row.signature_hash),
        form: row.form@,
        signature: option_view(row.signature),
        module: option_view(row.module),
        first_seen: row.first_seen@,
        last_seen: row.last_seen@,
        current: row.current,
    }
}

pub struct KeyView {
    pub field: Seq<char>,
    pub value: Seq<char>,
    pub wrapped: Seq<u8>,
    pub master: Seq<char>,
    pub created_at: Seq<char>,
}

pub open spec fn key_view(key: SubjectKey) -> KeyView {
    KeyView {
        field: key.subject_field@,
        value: key.subject_value@,
        wrapped: key.wrapped_key@,
        master: key.master_key_id@,
        created_at: key.created_at@,
    }
}

/// A quarantine as its effect, position, reason and time.
pub type QuarantineView = (Seq<char>, u64, Seq<char>, Seq<char>);

pub open spec fn quarantine_view(row: (String, QuarantineRow)) -> QuarantineView {
    (row.0@, row.1.position, row.1.reason@, row.1.at@)
}

impl OpDb {
    /// The invocations.
    pub open spec fn runs(self) -> Seq<InvocationView> {
        self.invocations@.map_values(|i: Invocation| invocation_view(i))
    }

    /// The journaled calls, in the order they were made.
    pub open spec fn calls(self) -> Seq<JournalView> {
        self.journal@.map_values(|e: JournalEntry| entry_view(e))
    }

    /// How far each effect has come.
    pub open spec fn marks(self) -> Seq<(Seq<char>, u64)> {
        self.cursors@.map_values(|c: (String, u64)| (c.0@, c.1))
    }

    /// The quarantines.
    pub open spec fn holds(self) -> Seq<QuarantineView> {
        self.quarantines@.map_values(|q: (String, QuarantineRow)| quarantine_view(q))
    }

    /// Every recorded version of every declaration.
    pub open spec fn versions(self) -> Seq<DeclarationView> {
        self.declarations@.map_values(|d: DeclarationRow| declaration_view(d))
    }

    /// The subject keys.
    pub open spec fn keys(self) -> Seq<KeyView> {
        self.subject_keys@.map_values(|k: SubjectKey| key_view(k))
    }
}

// ---------------------------------------------------------------------------
// Finding a row
// ---------------------------------------------------------------------------

/// A row of one effect at one position.
pub open spec fn run_at(effect: Seq<char>, position: u64) -> spec_fn(InvocationView) -> bool {
    |v: InvocationView| v.effect == effect && v.position == position
}

/// A journaled call of one invocation.
pub open spec fn call_at(effect: Seq<char>, position: u64, hash: Seq<char>, disambiguator: u64) -> spec_fn(
    JournalView,
) -> bool {
    |v: JournalView|
        v.effect == effect && v.position == position && v.call_hash == hash && v.disambiguator
            == disambiguator
}

/// A cursor of one effect.
pub open spec fn mark_of(effect: Seq<char>) -> spec_fn((Seq<char>, u64)) -> bool {
    |v: (Seq<char>, u64)| v.0 == effect
}

/// A quarantine of one effect.
pub open spec fn hold_of(effect: Seq<char>) -> spec_fn(QuarantineView) -> bool {
    |v: QuarantineView| v.0 == effect
}

/// One version of a declaration.
pub open spec fn version_of(kind: Seq<char>, name: Seq<char>, hash: Seq<char>) -> spec_fn(
    DeclarationView,
) -> bool {
    |v: DeclarationView| v.kind == kind && v.name == name && v.hash == hash
}

/// The key of one subject.
pub open spec fn key_of(field: Seq<char>, value: Seq<char>) -> spec_fn(KeyView) -> bool {
    |v: KeyView| v.field == field && v.value == value
}

// ---------------------------------------------------------------------------
// What the operations come to
// ---------------------------------------------------------------------------

/// The row that something holds of, where there is one.
pub open spec fn found<V>(rows: Seq<V>, wanted: spec_fn(V) -> bool) -> Option<V> {
    match place_of(rows, wanted) {
        Some(at) => Some(rows[at]),
        None => None,
    }
}

/// The rows with one put in the place of the row that something holds of, or behind them all
/// where there is none.
pub open spec fn upserted<V>(rows: Seq<V>, wanted: spec_fn(V) -> bool, row: V) -> Seq<V> {
    match place_of(rows, wanted) {
        Some(at) => rows.update(at, row),
        None => rows.push(row),
    }
}

/// The invocations once one was begun.
pub open spec fn begun(
    runs: Seq<InvocationView>,
    effect: Seq<char>,
    position: u64,
    script_hash: Seq<char>,
    now: Seq<char>,
) -> Seq<InvocationView> {
    match found(runs, run_at(effect, position)) {
        Some(_) => runs,
        None => runs.push(new_run(effect, position, script_hash, now)),
    }
}

/// Whether the handler is to be run for a position that is begun.
pub open spec fn begun_state(runs: Seq<InvocationView>, effect: Seq<char>, position: u64) -> InvocationState {
    match found(runs, run_at(effect, position)) {
        Some(run) => state_of(run),
        None => InvocationState::Running,
    }
}

/// The invocations once one has reached its end.
pub open spec fn with_completed(
    runs: Seq<InvocationView>,
    effect: Seq<char>,
    position: u64,
    now: Seq<char>,
) -> Seq<InvocationView> {
    match place_of(runs, run_at(effect, position)) {
        Some(at) => runs.update(at, completed(runs[at], now)),
        None => runs,
    }
}

/// The invocations once one was skipped.
pub open spec fn with_skipped(
    runs: Seq<InvocationView>,
    effect: Seq<char>,
    position: u64,
    now: Seq<char>,
) -> Seq<InvocationView> {
    match place_of(runs, run_at(effect, position)) {
        Some(at) => runs.update(at, skipped(runs[at], now)),
        None => runs,
    }
}

/// Whether an invocation was skipped.
pub open spec fn was_skipped(runs: Seq<InvocationView>, effect: Seq<char>, position: u64) -> bool {
    found(runs, run_at(effect, position)) matches Some(run) && run.skipped_at is Some
}

/// The result that a call was journaled with.
pub open spec fn call_result(
    calls: Seq<JournalView>,
    effect: Seq<char>,
    position: u64,
    hash: Seq<char>,
    disambiguator: u64,
) -> Option<Seq<char>> {
    match found(calls, call_at(effect, position, hash, disambiguator)) {
        Some(call) => Some(call.result),
        None => None,
    }
}

/// The journal once a call was put there, or why it cannot be.
pub open spec fn with_call(
    calls: Seq<JournalView>,
    runs: Seq<InvocationView>,
    call: JournalView,
) -> Result<Seq<JournalView>, JournalError> {
    if found(
        calls,
        call_at(call.effect, call.position, call.call_hash, call.disambiguator),
    ) is Some {
        Err(JournalError::Duplicate)
    } else if found(runs, run_at(call.effect, call.position)) is None {
        Err(JournalError::NoInvocation)
    } else {
        Ok(calls.push(call))
    }
}

/// A part of a list, from a place on and so many at most.
pub open spec fn part_of<V>(all: Seq<V>, offset: int, limit: int) -> Seq<V> {
    let from = if offset < all.len() {
        offset
    } else {
        all.len() as int
    };
    let to = if limit < all.len() - from {
        from + limit
    } else {
        all.len() as int
    };
    all.subrange(from, to)
}

/// An effect's invocations that reached their end, the oldest first.
pub open spec fn ended_runs(runs: Seq<InvocationView>, effect: Seq<char>) -> Seq<InvocationView> {
    sorted(picked(runs, ended(effect)), oldest_first())
}

/// An effect's invocations that reached their end under a hash, up to a position: the newest, so
/// many at most.
pub open spec fn recent_runs(
    runs: Seq<InvocationView>,
    effect: Seq<char>,
    hash: Seq<char>,
    upto: u64,
    limit: usize,
) -> Seq<InvocationView> {
    at_most(sorted(picked(runs, ended_under(effect, hash, upto)), newest_first()), limit)
}

/// How many of an effect's invocations reached their end under a hash, up to a position.
pub open spec fn ended_count(runs: Seq<InvocationView>, effect: Seq<char>, hash: Seq<char>, upto: u64) -> nat {
    picked(runs, ended_under(effect, hash, upto)).len()
}

/// An effect's invocations that run under another hash than the current one, which was loaded
/// once: the oldest first.
pub open spec fn outdated_runs(
    runs: Seq<InvocationView>,
    versions: Seq<DeclarationView>,
    effect: Seq<char>,
    current: Seq<char>,
) -> Seq<InvocationView> {
    sorted(picked(runs, running_stale(effect, current, versions)), oldest_first())
}

/// An effect's invocations below a position: the newest, so many at most.
pub open spec fn runs_below(
    runs: Seq<InvocationView>,
    effect: Seq<char>,
    before: u64,
    limit: usize,
) -> Seq<InvocationView> {
    at_most(sorted(picked(runs, below(effect, before)), newest_first()), limit)
}

/// The position that an effect resumes behind.
pub open spec fn resume_after(marks: Seq<(Seq<char>, u64)>, effect: Seq<char>) -> u64 {
    match found(marks, mark_of(effect)) {
        Some(mark) => mark.1,
        None => 0,
    }
}

/// The versions that are current, by kind and name.
pub open spec fn current_versions(versions: Seq<DeclarationView>) -> Seq<DeclarationView> {
    sorted(picked(versions, |v: DeclarationView| v.current), declaration_order())
}

/// The invocations of some effects at some positions, by position.
pub open spec fn runs_among(
    runs: Seq<InvocationView>,
    effects: Seq<Seq<char>>,
    positions: Seq<u64>,
) -> Seq<InvocationView> {
    sorted(picked(runs, among(effects, positions)), trace_order())
}

/// The keys once a subject has one: the one it had, or the candidate.
pub open spec fn with_key(keys: Seq<KeyView>, candidate: KeyView) -> Seq<KeyView> {
    match found(keys, key_of(candidate.field, candidate.value)) {
        Some(_) => keys,
        None => keys.push(candidate),
    }
}

/// The keys once a subject was erased.
pub open spec fn without_key(keys: Seq<KeyView>, field: Seq<char>, value: Seq<char>) -> Seq<KeyView> {
    match place_of(keys, key_of(field, value)) {
        Some(at) => keys.remove(at),
        None => keys,
    }
}

/// Whether a subject has a key. The secret behind uniqueness tags is no subject's.
pub open spec fn has_key(keys: Seq<KeyView>, field: Seq<char>, value: Seq<char>) -> bool {
    field != GLOBAL_SUBJECT_FIELD@ && found(keys, key_of(field, value)) is Some
}

/// The keys of subjects behind one, in order, so many at most.
pub open spec fn keys_page(
    keys: Seq<KeyView>,
    after: Option<(Seq<char>, Seq<char>)>,
    limit: usize,
) -> Seq<KeyView> {
    at_most(sorted(picked(keys, listed_after(after)), key_order()), limit)
}

/// The subject fields that keys are filed under, in order.
pub open spec fn key_fields(keys: Seq<KeyView>) -> Seq<Seq<char>> {
    sorted(
        distinct(picked(keys, listed_after(None)).map_values(|k: KeyView| k.field)),
        crate::order::text_order(),
    )
}

/// How many subjects have a key under a field.
pub open spec fn key_count(keys: Seq<KeyView>, field: Seq<char>) -> nat {
    picked(picked(keys, listed_after(None)), |k: KeyView| k.field == field).len()
}

/// A position as a signed column holds it.
pub open spec fn clamped(value: u64) -> int {
    if value <= i64::MAX {
        value as int
    } else {
        i64::MAX as int
    }
}

/// Whether no two rows are told apart by nothing.
pub open spec fn unlike<V>(rows: Seq<V>, alike: spec_fn(V, V) -> bool) -> bool {
    forall|i: int, j: int|
        0 <= i < j < rows.len() ==> !alike(#[trigger] rows[i], #[trigger] rows[j])
}

/// What the tables keep: one invocation per effect and position, each journaled call once
/// and only within an invocation, one cursor and one quarantine per effect, each version
/// of a declaration once, one key per subject.
pub open spec fn well_formed(db: OpDb) -> bool {
    &&& unlike(
        db.runs(),
        |a: InvocationView, b: InvocationView| a.effect == b.effect && a.position == b.position,
    )
    &&& unlike(
        db.calls(),
        |a: JournalView, b: JournalView|
            a.effect == b.effect && a.position == b.position && a.call_hash == b.call_hash
                && a.disambiguator == b.disambiguator,
    )
    &&& forall|i: int|
        0 <= i < db.calls().len() ==> place_of(
            db.runs(),
            run_at((#[trigger] db.calls()[i]).effect, db.calls()[i].position),
        ) is Some
    &&& unlike(db.marks(), |a: (Seq<char>, u64), b: (Seq<char>, u64)| a.0 == b.0)
    &&& unlike(db.holds(), |a: QuarantineView, b: QuarantineView| a.0 == b.0)
    &&& unlike(
        db.versions(),
        |a: DeclarationView, b: DeclarationView|
            a.kind == b.kind && a.name == b.name && a.hash == b.hash,
    )
    &&& unlike(db.keys(), |a: KeyView, b: KeyView| a.field == b.field && a.value == b.value)
}

/// A row of a table that holds no two rows alike.
trait Row: Sized {
    spec fn is_alike(self, other: Self) -> bool;

    fn alike(&self, other: &Self) -> (r: bool)
        ensures
            r == self.is_alike(*other),
    ;
}

impl Row for Invocation {
    closed spec fn is_alike(self, other: Invocation) -> bool {
        self.effect@ == other.effect@ && self.row.position == other.row.position
    }

    fn alike(&self, other: &Invocation) -> (r: bool) {
        self.row.position == other.row.position && same(&self.effect, &other.effect)
    }
}

impl Row for JournalEntry {
    closed spec fn is_alike(self, other: JournalEntry) -> bool {
        self.effect@ == other.effect@ && self.position == other.position && self.row.call_hash@
            == other.row.call_hash@ && self.row.disambiguator == other.row.disambiguator
    }

    fn alike(&self, other: &JournalEntry) -> (r: bool) {
        self.position == other.position && self.row.disambiguator == other.row.disambiguator
            && same(&self.effect, &other.effect) && same(&self.row.call_hash, &other.row.call_hash)
    }
}

impl Row for (String, u64) {
    closed spec fn is_alike(self, other: (String, u64)) -> bool {
        self.0@ == other.0@
    }

    fn alike(&self, other: &(String, u64)) -> (r: bool) {
        same(&self.0, &other.0)
    }
}

impl Row for (String, QuarantineRow) {
    closed spec fn is_alike(self, other: (String, QuarantineRow)) -> bool {
        self.0@ == other.0@
    }

    fn alike(&self, other: &(String, QuarantineRow)) -> (r: bool) {
        same(&self.0, &other.0)
    }
}

impl Row for DeclarationRow {
    closed spec fn is_alike(self, other: DeclarationRow) -> bool {
        self.kind@ == other.kind@ && self.name@ == other.name@ && self.hash@ == other.hash@
    }

    fn alike(&self, other: &DeclarationRow) -> (r: bool) {
        same(&self.kind, &other.kind) && same(&self.name, &other.name) && same(
            &self.hash,
            &other.hash,
        )
    }
}

impl Row for SubjectKey {
    closed spec fn is_alike(self, other: SubjectKey) -> bool {
        self.subject_field@ == other.subject_field@ && self.subject_value@ == other.subject_value@
    }

    fn alike(&self, other: &SubjectKey) -> (r: bool) {
        same(&self.subject_field, &other.subject_field) && same(
            &self.subject_value,
            &other.subject_value,
        )
    }
}

fn all_unlike<T: Row>(rows: &Vec<T>) -> (r: bool)
    ensures
        r == forall|i: int, j: int|
            0 <= i < j < rows.len() ==> !(#[trigger] rows@[i]).is_alike(#[trigger] rows@[j]),
{
    let mut j: usize = 0;
    while j < rows.len()
        invariant
            j <= rows.len(),
            forall|a: int, b: int|
                0 <= a < b < j ==> !(#[trigger] rows@[a]).is_alike(#[trigger] rows@[b]),
        decreases rows.len() - j,
    {
        let mut i: usize = 0;
        while i < j
            invariant
                i <= j < rows.len(),
                forall|a: int| 0 <= a < i ==> !(#[trigger] rows@[a]).is_alike(rows@[j as int]),
            decreases j - i,
        {
            if rows[i].alike(&rows[j]) {
                return false;
            }
            i += 1;
        }
        j += 1;
    }
    true
}

impl OpDb {
    /// Whether every journaled call belongs to an invocation.
    fn is_rooted(&self) -> (r: bool)
        ensures
            r == forall|i: int|
                0 <= i < self.calls().len() ==> place_of(
                    self.runs(),
                    run_at((#[trigger] self.calls()[i]).effect, self.calls()[i].position),
                ) is Some,
    {
        let mut i: usize = 0;
        while i < self.journal.len()
            invariant
                i <= self.journal.len(),
                forall|k: int|
                    0 <= k < i ==> place_of(
                        self.runs(),
                        run_at((#[trigger] self.calls()[k]).effect, self.calls()[k].position),
                    ) is Some,
            decreases self.journal.len() - i,
        {
            assert(self.calls()[i as int] == entry_view(self.journal@[i as int]));
            if self.find_run(&self.journal[i].effect, self.journal[i].position).is_none() {
                return false;
            }
            i += 1;
        }
        true
    }

    /// Whether the tables, as they were read from where they are kept, are ones that these
    /// operations could have written.
    pub fn is_sound(&self) -> (r: bool)
        ensures
            r == well_formed(*self),
    {
        let runs = all_unlike(&self.invocations);
        let calls = all_unlike(&self.journal);
        let rooted = self.is_rooted();
        let marks = all_unlike(&self.cursors);
        let holds = all_unlike(&self.quarantines);
        let versions = all_unlike(&self.declarations);
        let keys = all_unlike(&self.subject_keys);
        proof {
            lemma_unlike_views(
                self.invocations@,
                |i: Invocation| invocation_view(i),
                |a: InvocationView, b: InvocationView|
                    a.effect == b.effect && a.position == b.position,
                runs,
            );
            lemma_unlike_views(
                self.journal@,
                |e: JournalEntry| entry_view(e),
                |a: JournalView, b: JournalView|
                    a.effect == b.effect && a.position == b.position && a.call_hash == b.call_hash
                        && a.disambiguator == b.disambiguator,
                calls,
            );
            lemma_unlike_views(
                self.cursors@,
                |c: (String, u64)| (c.0@, c.1),
                |a: (Seq<char>, u64), b: (Seq<char>, u64)| a.0 == b.0,
                marks,
            );
            lemma_unlike_views(
                self.quarantines@,
                |q: (String, QuarantineRow)| quarantine_view(q),
                |a: QuarantineView, b: QuarantineView| a.0 == b.0,
                holds,
            );
            lemma_unlike_views(
                self.declarations@,
                |d: DeclarationRow| declaration_view(d),
                |a: DeclarationView, b: DeclarationView|
                    a.kind == b.kind && a.name == b.name && a.hash == b.hash,
                versions,
            );
            lemma_unlike_views(
                self.subject_keys@,
                |k: SubjectKey| key_view(k),
                |a: KeyView, b: KeyView| a.field == b.field && a.value == b.value,
                keys,
            );
        }
        runs && calls && rooted && marks && holds && versions && keys
    }
}

proof fn lemma_unlike_views<T: Row, V>(
    rows: Seq<T>,
    view: spec_fn(T) -> V,
    alike: spec_fn(V, V) -> bool,
    found: bool,
)
    requires
        forall|a: T, b: T| #[trigger] a.is_alike(b) == alike(view(a), view(b)),
        found == forall|i: int, j: int|
            0 <= i < j < rows.len() ==> !(#[trigger] rows[i]).is_alike(#[trigger] rows[j]),
    ensures
        found == unlike(rows.map_values(view), alike),
{
    let views = rows.map_values(view);
    if found {
        assert forall|i: int, j: int| 0 <= i < j < views.len() implies !alike(
            #[trigger] views[i],
            #[trigger] views[j],
        ) by {
            assert(!rows[i].is_alike(rows[j]));
        }
    } else {
        let (i, j) = choose|i: int, j: int|
            0 <= i < j < rows.len() && (#[trigger] rows[i]).is_alike(#[trigger] rows[j]);
        assert(alike(views[i], views[j]));
    }
}

impl OpDb {
    /// Where the invocation of an effect at a position stands.
    fn find_run(&self, effect: &str, position: u64) -> (r: Option<usize>)
        ensures
            match r {
                Some(i) => i < self.invocations.len() && place_of(self.runs(), run_at(effect@, position))
                    == Some(i as int),
                None => place_of(self.runs(), run_at(effect@, position)) is None,
            },
    {
        let mut i: usize = self.invocations.len();
        while i > 0
            invariant
                i <= self.invocations.len(),
                forall|k: int|
                    i <= k < self.runs().len() ==> !run_at(effect@, position)(#[trigger] self.runs()[k]),
            decreases i,
        {
            i -= 1;
            if same(&self.invocations[i].effect, effect) && self.invocations[i].row.position == position {
                proof {
                    lemma_place_is(self.runs(), run_at(effect@, position), i as int);
                }
                return Some(i);
            }
        }
        proof {
            lemma_place_is(self.runs(), run_at(effect@, position), -1);
        }
        None
    }

    /// Where a journaled call stands.
    fn find_call(&self, effect: &str, position: u64, call_hash: &str, disambiguator: u64) -> (r: Option<usize>)
        ensures
            match r {
                Some(i) => i < self.journal.len() && place_of(
                    self.calls(),
                    call_at(effect@, position, call_hash@, disambiguator),
                ) == Some(i as int),
                None => place_of(self.calls(), call_at(effect@, position, call_hash@, disambiguator)) is None,
            },
    {
        let mut i: usize = self.journal.len();
        while i > 0
            invariant
                i <= self.journal.len(),
                forall|k: int|
                    i <= k < self.calls().len() ==> !call_at(effect@, position, call_hash@, disambiguator)(
                        #[trigger] self.calls()[k],
                    ),
            decreases i,
        {
            i -= 1;
            let entry = &self.journal[i];
            if same(&entry.effect, effect) && entry.position == position && same(
                &entry.row.call_hash,
                call_hash,
            ) && entry.row.disambiguator == disambiguator {
                proof {
                    lemma_place_is(
                        self.calls(),
                        call_at(effect@, position, call_hash@, disambiguator),
                        i as int,
                    );
                }
                return Some(i);
            }
        }
        proof {
            lemma_place_is(self.calls(), call_at(effect@, position, call_hash@, disambiguator), -1);
        }
        None
    }

    /// Where the cursor of an effect stands.
    fn find_mark(&self, effect: &str) -> (r: Option<usize>)
        ensures
            match r {
                Some(i) => i < self.cursors.len() && place_of(self.marks(), mark_of(effect@)) == Some(
                    i as int,
                ),
                None => place_of(self.marks(), mark_of(effect@)) is None,
            },
    {
        let mut i: usize = self.cursors.len();
        while i > 0
            invariant
                i <= self.cursors.len(),
                forall|k: int| i <= k < self.marks().len() ==> !mark_of(effect@)(#[trigger] self.marks()[k]),
            decreases i,
        {
            i -= 1;
            if same(&self.cursors[i].0, effect) {
                proof {
                    lemma_place_is(self.marks(), mark_of(effect@), i as int);
                }
                return Some(i);
            }
        }
        proof {
            lemma_place_is(self.marks(), mark_of(effect@), -1);
        }
        None
    }

    /// Where the quarantine of an effect stands.
    fn find_hold(&self, effect: &str) -> (r: Option<usize>)
        ensures
            match r {
                Some(i) => i < self.quarantines.len() && place_of(self.holds(), hold_of(effect@)) == Some(
                    i as int,
                ),
                None => place_of(self.holds(), hold_of(effect@)) is None,
            },
    {
        let mut i: usize = self.quarantines.len();
        while i > 0
            invariant
                i <= self.quarantines.len(),
                forall|k: int| i <= k < self.holds().len() ==> !hold_of(effect@)(#[trigger] self.holds()[k]),
            decreases i,
        {
            i -= 1;
            if same(&self.quarantines[i].0, effect) {
                proof {
                    lemma_place_is(self.holds(), hold_of(effect@), i as int);
                }
                return Some(i);
            }
        }
        proof {
            lemma_place_is(self.holds(), hold_of(effect@), -1);
        }
        None
    }

    /// Where a version of a declaration stands.
    fn find_version(&self, kind: &str, name: &str, hash: &str) -> (r: Option<usize>)
        ensures
            match r {
                Some(i) => i < self.declarations.len() && place_of(
                    self.versions(),
                    version_of(kind@, name@, hash@),
                ) == Some(i as int),
                None => place_of(self.versions(), version_of(kind@, name@, hash@)) is None,
            },
    {
        let mut i: usize = self.declarations.len();
        while i > 0
            invariant
                i <= self.declarations.len(),
                forall|k: int|
                    i <= k < self.versions().len() ==> !version_of(kind@, name@, hash@)(
                        #[trigger] self.versions()[k],
                    ),
            decreases i,
        {
            i -= 1;
            let row = &self.declarations[i];
            if same(&row.kind, kind) && same(&row.name, name) && same(&row.hash, hash) {
                proof {
                    lemma_place_is(self.versions(), version_of(kind@, name@, hash@), i as int);
                }
                return Some(i);
            }
        }
        proof {
            lemma_place_is(self.versions(), version_of(kind@, name@, hash@), -1);
        }
        None
    }

    /// Where the key of a subject stands.
    fn find_key(&self, field: &str, value: &str) -> (r: Option<usize>)
        ensures
            match r {
                Some(i) => i < self.subject_keys.len() && place_of(self.keys(), key_of(field@, value@))
                    == Some(i as int),
                None => place_of(self.keys(), key_of(field@, value@)) is None,
            },
    {
        let mut i: usize = self.subject_keys.len();
        while i > 0
            invariant
                i <= self.subject_keys.len(),
                forall|k: int|
                    i <= k < self.keys().len() ==> !key_of(field@, value@)(#[trigger] self.keys()[k]),
            decreases i,
        {
            i -= 1;
            if same(&self.subject_keys[i].subject_field, field) && same(
                &self.subject_keys[i].subject_value,
                value,
            ) {
                proof {
                    lemma_place_is(self.keys(), key_of(field@, value@), i as int);
                }
                return Some(i);
            }
        }
        proof {
            lemma_place_is(self.keys(), key_of(field@, value@), -1);
        }
        None
    }
}

/// Whether two databases agree but for their invocations and journal.
pub open spec fn same_books(a: OpDb, b: OpDb) -> bool {
    &&& a.cursors == b.cursors
    &&& a.quarantines == b.quarantines
    &&& a.declarations == b.declarations
    &&& a.subject_keys == b.subject_keys
}

impl OpDb {
    /// A database without rows.
    pub fn open_in_memory() -> (r: OpDb)
        ensures
            r.runs() == Seq::<InvocationView>::empty(),
            r.calls() == Seq::<JournalView>::empty(),
            r.marks() == Seq::<(Seq<char>, u64)>::empty(),
            r.holds() == Seq::<QuarantineView>::empty(),
            r.versions() == Seq::<DeclarationView>::empty(),
            r.keys() == Seq::<KeyView>::empty(),
            well_formed(r),
    {
        let db = OpDb {
            invocations: Vec::new(),
            journal: Vec::new(),
            cursors: Vec::new(),
            quarantines: Vec::new(),
            declarations: Vec::new(),
            subject_keys: Vec::new(),
        };
        assert(db.runs() =~= Seq::empty());
        assert(db.calls() =~= Seq::empty());
        assert(db.marks() =~= Seq::empty());
        assert(db.holds() =~= Seq::empty());
        assert(db.versions() =~= Seq::empty());
        assert(db.keys() =~= Seq::empty());
        db
    }
}


// ---------------------------------------------------------------------------
// Keeping rows apart
// ---------------------------------------------------------------------------

proof fn lemma_unlike_push<V>(rows: Seq<V>, row: V, alike: spec_fn(V, V) -> bool)
    requires
        unlike(rows, alike),
        forall|k: int| 0 <= k < rows.len() ==> !alike(#[trigger] rows[k], row),
    ensures
        unlike(rows.push(row), alike),
{
    let grown = rows.push(row);
    assert forall|i: int, j: int| 0 <= i < j < grown.len() implies !alike(
        #[trigger] grown[i],
        #[trigger] grown[j],
    ) by {
        assert(grown[i] == rows[i]);
        if j < rows.len() {
            assert(grown[j] == rows[j]);
        }
    }
}

proof fn lemma_unlike_update<V>(rows: Seq<V>, at: int, row: V, alike: spec_fn(V, V) -> bool)
    requires
        unlike(rows, alike),
        0 <= at < rows.len(),
        forall|v: V| #[trigger] alike(v, row) ==> alike(v, rows[at]),
        forall|v: V| #[trigger] alike(row, v) ==> alike(rows[at], v),
    ensures
        unlike(rows.update(at, row), alike),
{
    let now = rows.update(at, row);
    assert forall|i: int, j: int| 0 <= i < j < now.len() implies !alike(
        #[trigger] now[i],
        #[trigger] now[j],
    ) by {
        assert(!alike(rows[i], rows[j]));
    }
}

/// Every journaled call belongs to an invocation.
pub open spec fn rooted(calls: Seq<JournalView>, runs: Seq<InvocationView>) -> bool {
    forall|i: int|
        0 <= i < calls.len() ==> place_of(
            runs,
            run_at((#[trigger] calls[i]).effect, calls[i].position),
        ) is Some
}

proof fn lemma_rooted_push(calls: Seq<JournalView>, runs: Seq<InvocationView>, run: InvocationView)
    requires
        rooted(calls, runs),
    ensures
        rooted(calls, runs.push(run)),
{
    assert forall|i: int| 0 <= i < calls.len() implies place_of(
        runs.push(run),
        run_at((#[trigger] calls[i]).effect, calls[i].position),
    ) is Some by {
        let wanted = run_at(calls[i].effect, calls[i].position);
        assert(runs.push(run).drop_last() =~= runs);
        assert(place_of(runs, wanted) is Some);
    }
}

proof fn lemma_rooted_update(
    calls: Seq<JournalView>,
    runs: Seq<InvocationView>,
    at: int,
    run: InvocationView,
)
    requires
        rooted(calls, runs),
        0 <= at < runs.len(),
        run.effect == runs[at].effect,
        run.position == runs[at].position,
    ensures
        rooted(calls, runs.update(at, run)),
{
    let now = runs.update(at, run);
    assert forall|i: int| 0 <= i < calls.len() implies place_of(
        now,
        run_at((#[trigger] calls[i]).effect, calls[i].position),
    ) is Some by {
        let wanted = run_at(calls[i].effect, calls[i].position);
        lemma_place(runs, wanted);
        let k = place_of(runs, wanted)->0;
        assert(wanted(now[k]));
        lemma_place_exists(now, wanted, k);
    }
}

pub open spec fn runs_alike() -> spec_fn(InvocationView, InvocationView) -> bool {
    |a: InvocationView, b: InvocationView| a.effect == b.effect && a.position == b.position
}

// ---------------------------------------------------------------------------
// Invocations
// ---------------------------------------------------------------------------

/// A new invocation.
pub open spec fn new_run(effect: Seq<char>, position: u64, script_hash: Seq<char>, now: Seq<char>) -> InvocationView {
    InvocationView {
        effect,
        position,
        status: "running"@,
        script_hash,
        created_at: now,
        completed_at: None,
        skipped_at: None,
    }
}

/// An invocation that reached its end.
pub open spec fn completed(run: InvocationView, now: Seq<char>) -> InvocationView {
    InvocationView { status: "terminal"@, completed_at: Some(now), ..run }
}

/// An invocation that an operator skipped.
pub open spec fn skipped(run: InvocationView, now: Seq<char>) -> InvocationView {
    InvocationView {
        status: "terminal"@,
        completed_at: Some(now),
        skipped_at: Some(now),
        ..run
    }
}

/// What reserving an invocation reports.
pub open spec fn state_of(run: InvocationView) -> InvocationState {
    if run.status == "terminal"@ {
        InvocationState::AlreadyTerminal
    } else {
        InvocationState::Running
    }
}

impl OpDb {
    /// Reserves an effect invocation, then reports whether to run it. The running row is
    /// inserted once and left in place across replays; a crash leaves it running, so that
    /// the next boot runs the handler again.
    pub fn begin_invocation(&mut self, effect: &str, position: u64, script_hash: &str, now: &str) -> (r: InvocationState)
        requires
            well_formed(*old(self)),
        ensures
            well_formed(*final(self)),
            same_books(*final(self), *old(self)),
            final(self).journal == old(self).journal,
            match place_of(old(self).runs(), run_at(effect@, position)) {
                Some(at) => final(self).runs() == old(self).runs() && r == state_of(
                    old(self).runs()[at],
                ),
                None => final(self).runs() == old(self).runs().push(
                    new_run(effect@, position, script_hash@, now@),
                ) && r == InvocationState::Running,
            },
            final(self).runs() == begun(old(self).runs(), effect@, position, script_hash@, now@),
            r == begun_state(old(self).runs(), effect@, position),
    {
        match self.find_run(effect, position) {
            Some(i) => {
                if same(&self.invocations[i].row.status, "terminal") {
                    InvocationState::AlreadyTerminal
                } else {
                    InvocationState::Running
                }
            },
            None => {
                let ghost was = self.runs();
                let run = Invocation {
                    effect: effect.to_owned(),
                    row: InvocationRow {
                        position,
                        status: "running".to_owned(),
                        script_hash: script_hash.to_owned(),
                        created_at: now.to_owned(),
                        completed_at: None,
                        skipped_at: None,
                    },
                };
                self.invocations.push(run);
                proof {
                    let new = new_run(effect@, position, script_hash@, now@);
                    assert(self.runs() =~= was.push(new));
                    lemma_place(was, run_at(effect@, position));
                    lemma_unlike_push(was, new, runs_alike());
                    lemma_rooted_push(self.calls(), was, new);
                }
                InvocationState::Running
            },
        }
    }

    fn set_run(&mut self, at: usize, row: InvocationRow)
        requires
            well_formed(*old(self)),
            at < old(self).invocations.len(),
            row.position == old(self).invocations@[at as int].row.position,
        ensures
            well_formed(*final(self)),
            same_books(*final(self), *old(self)),
            final(self).journal == old(self).journal,
            final(self).runs() == old(self).runs().update(
                at as int,
                row_view(old(self).invocations@[at as int].effect@, row),
            ),
    {
        let ghost was = self.runs();
        let effect = self.invocations[at].effect.clone();
        self.invocations.set(at, Invocation { effect, row });
        proof {
            let now = row_view(effect@, row);
            assert(self.runs() =~= was.update(at as int, now));
            lemma_unlike_update(was, at as int, now, runs_alike());
            lemma_rooted_update(self.calls(), was, at as int, now);
        }
    }

    /// Marks an invocation as having reached its end. Nothing where there is none.
    pub fn complete_invocation(&mut self, effect: &str, position: u64, now: &str)
        requires
            well_formed(*old(self)),
        ensures
            well_formed(*final(self)),
            same_books(*final(self), *old(self)),
            final(self).journal == old(self).journal,
            match place_of(old(self).runs(), run_at(effect@, position)) {
                Some(at) => final(self).runs() == old(self).runs().update(
                    at,
                    completed(old(self).runs()[at], now@),
                ),
                None => final(self).runs() == old(self).runs(),
            },
            final(self).runs() == with_completed(old(self).runs(), effect@, position, now@),
    {
        if let Some(i) = self.find_run(effect, position) {
            let row = &self.invocations[i].row;
            let done = InvocationRow {
                position: row.position,
                status: "terminal".to_owned(),
                script_hash: row.script_hash.clone(),
                created_at: row.created_at.clone(),
                completed_at: Some(now.to_owned()),
                skipped_at: copied_option(&row.skipped_at),
            };
            self.set_run(i, done);
        }
    }

    /// Marks an invocation as ended, and records that an operator skipped it. Unlike a
    /// completion this is a position that nothing ran to a conclusion for.
    pub fn skip_invocation(&mut self, effect: &str, position: u64, now: &str)
        requires
            well_formed(*old(self)),
        ensures
            well_formed(*final(self)),
            same_books(*final(self), *old(self)),
            final(self).journal == old(self).journal,
            match place_of(old(self).runs(), run_at(effect@, position)) {
                Some(at) => final(self).runs() == old(self).runs().update(
                    at,
                    skipped(old(self).runs()[at], now@),
                ),
                None => final(self).runs() == old(self).runs(),
            },
            final(self).runs() == with_skipped(old(self).runs(), effect@, position, now@),
    {
        if let Some(i) = self.find_run(effect, position) {
            let row = &self.invocations[i].row;
            let done = InvocationRow {
                position: row.position,
                status: "terminal".to_owned(),
                script_hash: row.script_hash.clone(),
                created_at: row.created_at.clone(),
                completed_at: Some(now.to_owned()),
                skipped_at: Some(now.to_owned()),
            };
            self.set_run(i, done);
        }
    }

    /// Whether an operator skipped this invocation rather than it reaching an end.
    pub fn invocation_skipped(&self, effect: &str, position: u64) -> (r: bool)
        ensures
            r == match place_of(self.runs(), run_at(effect@, position)) {
                Some(at) => self.runs()[at].skipped_at is Some,
                None => false,
            },
            r == was_skipped(self.runs(), effect@, position),
    {
        match self.find_run(effect, position) {
            Some(i) => self.invocations[i].row.skipped_at.is_some(),
            None => false,
        }
    }

    /// One invocation by position.
    pub fn invocation(&self, effect: &str, position: u64) -> (r: Option<InvocationRow>)
        ensures
            match place_of(self.runs(), run_at(effect@, position)) {
                Some(at) => r is Some && row_view(effect@, r->0) == self.runs()[at],
                None => r is None,
            },
            found(self.runs(), run_at(effect@, position)) == match r {
                Some(row) => Some(row_view(effect@, row)),
                None => None,
            },
    {
        match self.find_run(effect, position) {
            Some(i) => {
                proof {
                    lemma_place(self.runs(), run_at(effect@, position));
                }
                Some(copy_row(&self.invocations[i].row))
            },
            None => None,
        }
    }
}

fn copy_row(row: &InvocationRow) -> (r: InvocationRow)
    ensures
        forall|effect: Seq<char>| #[trigger] row_view(effect, r) == row_view(effect, *row),
        r.position == row.position,
{
    InvocationRow {
        position: row.position,
        status: row.status.clone(),
        script_hash: row.script_hash.clone(),
        created_at: row.created_at.clone(),
        completed_at: copied_option(&row.completed_at),
        skipped_at: copied_option(&row.skipped_at),
    }
}

/// Reserving a position twice before it has ended runs it twice: a crash replays. Once it
/// has ended it is never run again.
pub proof fn law_an_ended_position_is_not_run_again(run: InvocationView, now: Seq<char>)
    ensures
        state_of(new_run(run.effect, run.position, run.script_hash, now)) == InvocationState::Running,
        state_of(completed(run, now)) == InvocationState::AlreadyTerminal,
        state_of(skipped(run, now)) == InvocationState::AlreadyTerminal,
{
    reveal_strlit("running");
    reveal_strlit("terminal");
    assert("running"@.len() == 7 && "terminal"@.len() == 8);
}

// ---------------------------------------------------------------------------
// The journal
// ---------------------------------------------------------------------------

/// Why a call cannot be journaled.
#[derive(Debug, Clone, Copy, PartialEq, Eq, Structural)]
pub enum JournalError {
    /// The call is journaled already.
    Duplicate,
    /// There is no invocation to journal it for.
    NoInvocation,
}

pub open spec fn calls_alike() -> spec_fn(JournalView, JournalView) -> bool {
    |a: JournalView, b: JournalView|
        a.effect == b.effect && a.position == b.position && a.call_hash == b.call_hash
            && a.disambiguator == b.disambiguator
}

impl OpDb {
    /// The recorded result of a journaled call, or nothing where there is none. A hit
    /// lets a replay return the original result instead of performing the side effect.
    pub fn journal_get(&self, effect: &str, position: u64, call_hash: &str, disambiguator: u64) -> (r: Option<
        String,
    >)
        ensures
            option_view(r) == match place_of(
                self.calls(),
                call_at(effect@, position, call_hash@, disambiguator),
            ) {
                Some(at) => Some(self.calls()[at].result),
                None => None,
            },
            option_view(r) == call_result(self.calls(), effect@, position, call_hash@, disambiguator),
    {
        match self.find_call(effect, position, call_hash, disambiguator) {
            Some(i) => Some(self.journal[i].row.result.clone()),
            None => None,
        }
    }

    /// Records a journaled call's result, behind all that were journaled before. A call
    /// is journaled once, and only for an invocation that there is.
    pub fn journal_put(
        &mut self,
        effect: &str,
        position: u64,
        call_hash: &str,
        disambiguator: u64,
        kind: &str,
        result: &str,
        now: &str,
    ) -> (r: Result<(), JournalError>)
        requires
            well_formed(*old(self)),
        ensures
            well_formed(*final(self)),
            same_books(*final(self), *old(self)),
            final(self).invocations == old(self).invocations,
            ({
                let held = place_of(
                    old(self).calls(),
                    call_at(effect@, position, call_hash@, disambiguator),
                ) is Some;
                let owned = place_of(old(self).runs(), run_at(effect@, position)) is Some;
                match r {
                    Ok(()) => {
                        &&& !held
                        &&& owned
                        &&& final(self).calls() == old(self).calls().push(
                            JournalView {
                                effect: effect@,
                                position,
                                call_hash: call_hash@,
                                disambiguator,
                                kind: Some(kind@),
                                result: result@,
                                created_at: now@,
                            },
                        )
                    },
                    Err(JournalError::Duplicate) => held && *final(self) == *old(self),
                    Err(JournalError::NoInvocation) => !held && !owned && *final(self) == *old(self),
                }
            }),
            with_call(
                old(self).calls(),
                old(self).runs(),
                JournalView {
                    effect: effect@,
                    position,
                    call_hash: call_hash@,
                    disambiguator,
                    kind: Some(kind@),
                    result: result@,
                    created_at: now@,
                },
            ) == match r {
                Ok(()) => Ok(final(self).calls()),
                Err(err) => Err(err),
            },
    {
        if self.find_call(effect, position, call_hash, disambiguator).is_some() {
            return Err(JournalError::Duplicate);
        }
        if self.find_run(effect, position).is_none() {
            return Err(JournalError::NoInvocation);
        }
        let ghost was = self.calls();
        let entry = JournalEntry {
            effect: effect.to_owned(),
            position,
            row: JournalRow {
                call_hash: call_hash.to_owned(),
                disambiguator,
                kind: Some(kind.to_owned()),
                result: result.to_owned(),
                created_at: now.to_owned(),
            },
        };
        self.journal.push(entry);
        proof {
            assert(self.calls() =~= was.push(entry_view(entry)));
            lemma_place(was, call_at(effect@, position, call_hash@, disambiguator));
            lemma_unlike_push(was, entry_view(entry), calls_alike());
            assert forall|i: int| 0 <= i < self.calls().len() implies place_of(
                self.runs(),
                run_at((#[trigger] self.calls()[i]).effect, self.calls()[i].position),
            ) is Some by {
                if i < was.len() {
                    assert(self.calls()[i] == was[i]);
                }
            }
        }
        Ok(())
    }
}

/// The calls of one invocation, in the order they were made.
pub open spec fn calls_of_run(calls: Seq<JournalView>, effect: Seq<char>, position: u64) -> Seq<JournalView>
    decreases calls.len(),
{
    if calls.len() == 0 {
        Seq::empty()
    } else if calls.last().effect == effect && calls.last().position == position {
        calls_of_run(calls.drop_last(), effect, position).push(calls.last())
    } else {
        calls_of_run(calls.drop_last(), effect, position)
    }
}

impl OpDb {
    /// Every call that one invocation journaled, in the order it was made, by hash and
    /// disambiguator.
    pub fn journal_keys(&self, effect: &str, position: u64) -> (r: Vec<(String, u64)>)
        ensures
            r.len() == calls_of_run(self.calls(), effect@, position).len(),
            forall|i: int|
                0 <= i < r.len() ==> ((#[trigger] r@[i]).0@, r@[i].1) == (
                    calls_of_run(self.calls(), effect@, position)[i].call_hash,
                    calls_of_run(self.calls(), effect@, position)[i].disambiguator,
                ),
    {
        let rows = self.run_calls(effect, position);
        let mut out: Vec<(String, u64)> = Vec::new();
        let mut i: usize = 0;
        while i < rows.len()
            invariant
                i <= rows.len(),
                out.len() == i,
                rows.len() == calls_of_run(self.calls(), effect@, position).len(),
                forall|k: int|
                    0 <= k < rows.len() ==> call_view(effect@, position, #[trigger] rows@[k])
                        == calls_of_run(self.calls(), effect@, position)[k],
                forall|k: int|
                    0 <= k < i ==> ((#[trigger] out@[k]).0@, out@[k].1) == (
                        calls_of_run(self.calls(), effect@, position)[k].call_hash,
                        calls_of_run(self.calls(), effect@, position)[k].disambiguator,
                    ),
            decreases rows.len() - i,
        {
            assert(call_view(effect@, position, rows@[i as int]) == calls_of_run(self.calls(), effect@, position)[i as int]);
            out.push((rows[i].call_hash.clone(), rows[i].disambiguator));
            i += 1;
        }
        out
    }

    /// Every call that one invocation journaled, in the order it was made.
    fn run_calls(&self, effect: &str, position: u64) -> (r: Vec<JournalRow>)
        ensures
            r.len() == calls_of_run(self.calls(), effect@, position).len(),
            forall|i: int|
                0 <= i < r.len() ==> call_view(effect@, position, #[trigger] r@[i]) == calls_of_run(
                    self.calls(),
                    effect@,
                    position,
                )[i],
    {
        let mut out: Vec<JournalRow> = Vec::new();
        let ghost all = self.calls();
        let mut i: usize = 0;
        assert(all.take(0) =~= Seq::empty());
        while i < self.journal.len()
            invariant
                i <= self.journal.len(),
                all == self.calls(),
                out.len() == calls_of_run(all.take(i as int), effect@, position).len(),
                forall|k: int|
                    0 <= k < out.len() ==> call_view(effect@, position, #[trigger] out@[k])
                        == calls_of_run(all.take(i as int), effect@, position)[k],
            decreases self.journal.len() - i,
        {
            let entry = &self.journal[i];
            let ghost had = calls_of_run(all.take(i as int), effect@, position);
            assert(all.take(i as int + 1).drop_last() =~= all.take(i as int));
            assert(all.take(i as int + 1).last() == entry_view(*entry));
            if same(&entry.effect, effect) && entry.position == position {
                let row = JournalRow {
                    call_hash: entry.row.call_hash.clone(),
                    disambiguator: entry.row.disambiguator,
                    kind: copied_option(&entry.row.kind),
                    result: entry.row.result.clone(),
                    created_at: entry.row.created_at.clone(),
                };
                let ghost before = out@;
                out.push(row);
                assert forall|k: int| 0 <= k < out.len() implies call_view(
                    effect@,
                    position,
                    #[trigger] out@[k],
                ) == had.push(entry_view(*entry))[k] by {
                    if k < before.len() {
                        assert(out@[k] == before[k]);
                    }
                }
            }
            i += 1;
        }
        assert(all.take(i as int) =~= all);
        out
    }

    /// The calls of one invocation, in the order they were made, with their results: at
    /// most `limit` of them from the one at `offset` on. Paging by number is sound here:
    /// one invocation's calls are only appended, and are deleted all at once.
    pub fn journal_entries(&self, effect: &str, position: u64, offset: usize, limit: usize) -> (r: Vec<JournalRow>)
        ensures
            ({
                let all = calls_of_run(self.calls(), effect@, position);
                let from = if offset < all.len() { offset as int } else { all.len() as int };
                let to = if limit < all.len() - from { from + limit } else { all.len() as int };
                &&& r.len() == to - from
                &&& forall|i: int|
                    0 <= i < r.len() ==> call_view(effect@, position, #[trigger] r@[i]) == all[from + i]
            }),
            r@.map_values(|row: JournalRow| call_view(effect@, position, row)) == part_of(
                calls_of_run(self.calls(), effect@, position),
                offset as int,
                limit as int,
            ),
    {
        let mut rows = self.run_calls(effect, position);
        let n: usize = rows.len();
        let from: usize = if offset < n { offset } else { n };
        let mut out = rows.split_off(from);
        if limit < out.len() {
            out.truncate(limit);
        }
        out
    }
}

/// What a journal gives back of a call is what was put there: later calls of other hashes
/// do not touch it.
pub proof fn law_the_journal_gives_back_what_was_put(
    calls: Seq<JournalView>,
    put: JournalView,
    later: JournalView,
)
    requires
        unlike(calls.push(put).push(later), calls_alike()),
    ensures
        ({
            let wanted = call_at(put.effect, put.position, put.call_hash, put.disambiguator);
            &&& place_of(calls.push(put), wanted) == Some(calls.len() as int)
            &&& place_of(calls.push(put).push(later), wanted) == Some(calls.len() as int)
        }),
{
    let wanted = call_at(put.effect, put.position, put.call_hash, put.disambiguator);
    let all = calls.push(put).push(later);
    assert(!calls_alike()(all[calls.len() as int], all[calls.len() as int + 1]));
    assert(all.drop_last() =~= calls.push(put));
    assert(!wanted(all.last()));
}


// ---------------------------------------------------------------------------
// Reading invocations
// ---------------------------------------------------------------------------

/// By position, the lowest first.
pub open spec fn oldest_first() -> spec_fn(InvocationView, InvocationView) -> bool {
    |a: InvocationView, b: InvocationView| a.position < b.position
}

/// By position, the highest first.
pub open spec fn newest_first() -> spec_fn(InvocationView, InvocationView) -> bool {
    |a: InvocationView, b: InvocationView| a.position > b.position
}

/// An invocation in the order of positions, the highest first.
pub struct Newest {
    pub run: Invocation,
}

impl Ranked for Newest {
    open spec fn ranks_before(self, other: Newest) -> bool {
        self.run.row.position > other.run.row.position
    }

    fn is_before(&self, other: &Newest) -> (r: bool) {
        self.run.row.position > other.run.row.position
    }
}

impl Ranked for Invocation {
    open spec fn ranks_before(self, other: Invocation) -> bool {
        self.row.position < other.row.position
    }

    fn is_before(&self, other: &Invocation) -> (r: bool) {
        self.row.position < other.row.position
    }
}

fn copy_invocation(run: &Invocation) -> (r: Invocation)
    ensures
        invocation_view(r) == invocation_view(*run),
{
    Invocation { effect: run.effect.clone(), row: copy_row(&run.row) }
}

/// An invocation of an effect that reached its end.
pub open spec fn ended(effect: Seq<char>) -> spec_fn(InvocationView) -> bool {
    |v: InvocationView| v.effect == effect && v.status == "terminal"@
}

/// One that was recorded under a version of the effect, at or below a position.
pub open spec fn ended_under(effect: Seq<char>, hash: Seq<char>, upto: u64) -> spec_fn(InvocationView) -> bool {
    |v: InvocationView|
        v.effect == effect && v.status == "terminal"@ && v.script_hash == hash && v.position <= upto
}

/// An invocation of an effect below a position.
pub open spec fn below(effect: Seq<char>, before: u64) -> spec_fn(InvocationView) -> bool {
    |v: InvocationView| v.effect == effect && v.position < before
}

/// An invocation that is still running, recorded under a known other version of the
/// effect.
pub open spec fn running_stale(
    effect: Seq<char>,
    current: Seq<char>,
    versions: Seq<DeclarationView>,
) -> spec_fn(InvocationView) -> bool {
    |v: InvocationView|
        v.effect == effect && v.status == "running"@ && v.script_hash != current && place_of(
            versions,
            version_of("effect"@, effect, v.script_hash),
        ) is Some
}

pub open spec fn run_views(runs: Seq<Invocation>) -> Seq<InvocationView> {
    runs.map_values(|i: Invocation| invocation_view(i))
}

/// The positions of a list of invocations.
pub open spec fn positions_of(runs: Seq<InvocationView>) -> Seq<u64> {
    runs.map_values(|v: InvocationView| v.position)
}

fn sort_oldest(runs: Vec<Invocation>) -> (r: Vec<Invocation>)
    ensures
        run_views(r@) == sorted(run_views(runs@), oldest_first()),
{
    proof {
        lemma_sorted_map(
            runs@,
            |i: Invocation| invocation_view(i),
            |a: Invocation, b: Invocation| a.ranks_before(b),
            oldest_first(),
        );
    }
    sort(runs)
}

/// Sorts invocations by position, the highest first.
fn sort_newest(runs: Vec<Newest>) -> (r: Vec<Newest>)
    ensures
        newest_views(r@) == sorted(newest_views(runs@), newest_first()),
{
    proof {
        lemma_sorted_map(
            runs@,
            |n: Newest| invocation_view(n.run),
            |a: Newest, b: Newest| a.ranks_before(b),
            newest_first(),
        );
    }
    sort(runs)
}

pub open spec fn newest_views(runs: Seq<Newest>) -> Seq<InvocationView> {
    runs.map_values(|n: Newest| invocation_view(n.run))
}

impl OpDb {
    /// Every invocation of an effect that reached its end, by position, with the hash of
    /// the version it ran under.
    pub fn terminal_invocations(&self, effect: &str) -> (r: Vec<(u64, String)>)
        ensures
            ({
                let found = sorted(picked(self.runs(), ended(effect@)), oldest_first());
                &&& r.len() == found.len()
                &&& forall|i: int|
                    0 <= i < r.len() ==> ((#[trigger] r@[i]).0, r@[i].1@) == (
                        found[i].position,
                        found[i].script_hash,
                    )
            }),
            r@.map_values(|row: (u64, String)| (row.0, row.1@)) == ended_runs(
                self.runs(),
                effect@,
            ).map_values(|v: InvocationView| (v.position, v.script_hash)),
    {
        let mut rows: Vec<Invocation> = Vec::new();
        let ghost all = self.runs();
        let mut i: usize = 0;
        assert(all.take(0) =~= Seq::empty());
        assert(run_views(rows@) =~= Seq::empty());
        while i < self.invocations.len()
            invariant
                i <= self.invocations.len(),
                all == self.runs(),
                run_views(rows@) == picked(all.take(i as int), ended(effect@)),
            decreases self.invocations.len() - i,
        {
            let run = &self.invocations[i];
            assert(all.take(i as int + 1).drop_last() =~= all.take(i as int));
            assert(all.take(i as int + 1).last() == invocation_view(*run));
            if same(&run.effect, effect) && same(&run.row.status, "terminal") {
                let ghost had = run_views(rows@);
                let copy = copy_invocation(run);
                rows.push(copy);
                assert(run_views(rows@) =~= had.push(invocation_view(copy)));
            }
            i += 1;
        }
        assert(all.take(i as int) =~= all);
        let found = sort_oldest(rows);
        let mut out: Vec<(u64, String)> = Vec::new();
        let mut i: usize = 0;
        while i < found.len()
            invariant
                i <= found.len(),
                out.len() == i,
                forall|k: int|
                    0 <= k < i ==> ((#[trigger] out@[k]).0, out@[k].1@) == (
                        run_views(found@)[k].position,
                        run_views(found@)[k].script_hash,
                    ),
            decreases found.len() - i,
        {
            out.push((found[i].row.position, found[i].row.script_hash.clone()));
            i += 1;
        }
        out
    }

    /// The invocations of an effect that ended under one version of it, at or below a
    /// position.
    fn ended_rows(&self, effect: &str, script_hash: &str, upto: u64) -> (r: Vec<Newest>)
        ensures
            newest_views(r@) == picked(self.runs(), ended_under(effect@, script_hash@, upto)),
    {
        let mut rows: Vec<Newest> = Vec::new();
        let ghost all = self.runs();
        let ghost wanted = ended_under(effect@, script_hash@, upto);
        let mut i: usize = 0;
        assert(all.take(0) =~= Seq::empty());
        assert(newest_views(rows@) =~= Seq::empty());
        while i < self.invocations.len()
            invariant
                i <= self.invocations.len(),
                all == self.runs(),
                wanted == ended_under(effect@, script_hash@, upto),
                newest_views(rows@) == picked(all.take(i as int), wanted),
            decreases self.invocations.len() - i,
        {
            let run = &self.invocations[i];
            assert(all.take(i as int + 1).drop_last() =~= all.take(i as int));
            assert(all.take(i as int + 1).last() == invocation_view(*run));
            if same(&run.effect, effect) && same(&run.row.status, "terminal") && same(
                &run.row.script_hash,
                script_hash,
            ) && run.row.position <= upto {
                let ghost had = newest_views(rows@);
                let copy = Newest { run: copy_invocation(run) };
                rows.push(copy);
                assert(newest_views(rows@) =~= had.push(invocation_view(copy.run)));
            }
            i += 1;
        }
        assert(all.take(i as int) =~= all);
        rows
    }

    /// The most recent invocations of an effect that one version of it recorded, at or
    /// below `upto`, newest first, at most `limit` of them.
    ///
    /// `upto` is the tip that a reader pinned: what a live server records past it has no
    /// event that the reader can see. The hash is the deployed one: rows that versions
    /// already replaced wrote are no baseline for a deploy.
    pub fn recent_terminal_invocations(&self, effect: &str, script_hash: &str, upto: u64, limit: usize) -> (r: Vec<
        u64,
    >)
        ensures
            r@ == at_most(
                positions_of(
                    sorted(
                        picked(self.runs(), ended_under(effect@, script_hash@, upto)),
                        newest_first(),
                    ),
                ),
                limit,
            ),
            r@ == positions_of(recent_runs(self.runs(), effect@, script_hash@, upto, limit)),
    {
        let found = sort_newest(self.ended_rows(effect, script_hash, upto));
        let ghost list = newest_views(found@);
        let n: usize = if limit < found.len() { limit } else { found.len() };
        let mut out: Vec<u64> = Vec::new();
        let mut i: usize = 0;
        while i < n
            invariant
                i <= n <= found.len(),
                list == newest_views(found@),
                out@ == positions_of(list).take(i as int),
            decreases n - i,
        {
            out.push(found[i].run.row.position);
            assert(positions_of(list)[i as int] == found@[i as int].run.row.position);
            assert(positions_of(list).take(i as int + 1) =~= positions_of(list).take(i as int).push(
                positions_of(list)[i as int],
            ));
            i += 1;
        }
        assert(positions_of(list).take(list.len() as int) =~= positions_of(list));
        out
    }

    /// How many invocations [`OpDb::recent_terminal_invocations`] would choose from.
    pub fn count_terminal_invocations(&self, effect: &str, script_hash: &str, upto: u64) -> (r: usize)
        ensures
            r == picked(self.runs(), ended_under(effect@, script_hash@, upto)).len(),
            r == ended_count(self.runs(), effect@, script_hash@, upto),
    {
        self.ended_rows(effect, script_hash, upto).len()
    }

    /// The positions of an effect's invocations that are still running and were recorded
    /// under a known other version of it. A hash that was never recorded is not among
    /// them: it is another measurement, and says nothing about the code.
    pub fn running_with_hash_mismatch(&self, effect: &str, current_hash: &str) -> (r: Vec<u64>)
        ensures
            r@ == positions_of(
                sorted(
                    picked(self.runs(), running_stale(effect@, current_hash@, self.versions())),
                    oldest_first(),
                ),
            ),
            r@ == positions_of(
                outdated_runs(self.runs(), self.versions(), effect@, current_hash@),
            ),
    {
        let mut rows: Vec<Invocation> = Vec::new();
        let ghost all = self.runs();
        let ghost wanted = running_stale(effect@, current_hash@, self.versions());
        let mut i: usize = 0;
        assert(all.take(0) =~= Seq::empty());
        assert(run_views(rows@) =~= Seq::empty());
        while i < self.invocations.len()
            invariant
                i <= self.invocations.len(),
                all == self.runs(),
                wanted == running_stale(effect@, current_hash@, self.versions()),
                run_views(rows@) == picked(all.take(i as int), wanted),
            decreases self.invocations.len() - i,
        {
            let run = &self.invocations[i];
            assert(all.take(i as int + 1).drop_last() =~= all.take(i as int));
            assert(all.take(i as int + 1).last() == invocation_view(*run));
            if same(&run.effect, effect) && same(&run.row.status, "running") && !same(
                &run.row.script_hash,
                current_hash,
            ) && self.find_version("effect", effect, &run.row.script_hash).is_some() {
                let ghost had = run_views(rows@);
                let copy = copy_invocation(run);
                rows.push(copy);
                assert(run_views(rows@) =~= had.push(invocation_view(copy)));
            }
            i += 1;
        }
        assert(all.take(i as int) =~= all);
        let found = sort_oldest(rows);
        let ghost list = run_views(found@);
        let mut out: Vec<u64> = Vec::new();
        let mut i: usize = 0;
        while i < found.len()
            invariant
                i <= found.len(),
                list == run_views(found@),
                out@ == positions_of(list).take(i as int),
            decreases found.len() - i,
        {
            out.push(found[i].row.position);
            assert(positions_of(list)[i as int] == found@[i as int].row.position);
            assert(positions_of(list).take(i as int + 1) =~= positions_of(list).take(i as int).push(
                positions_of(list)[i as int],
            ));
            i += 1;
        }
        assert(positions_of(list).take(list.len() as int) =~= positions_of(list));
        out
    }

    /// One page of an effect's invocations, newest first, strictly below `before`.
    pub fn invocations(&self, effect: &str, before: u64, limit: usize) -> (r: Vec<InvocationRow>)
        ensures
            ({
                let found = at_most(
                    sorted(picked(self.runs(), below(effect@, before)), newest_first()),
                    limit,
                );
                &&& r.len() == found.len()
                &&& forall|i: int| 0 <= i < r.len() ==> row_view(found[i].effect, #[trigger] r@[i]) == found[i]
            }),
            r@.map_values(|row: InvocationRow| row_view(effect@, row)) == runs_below(
                self.runs(),
                effect@,
                before,
                limit,
            ),
    {
        let mut rows: Vec<Newest> = Vec::new();
        let ghost all = self.runs();
        let ghost wanted = below(effect@, before);
        let mut i: usize = 0;
        assert(all.take(0) =~= Seq::empty());
        assert(newest_views(rows@) =~= Seq::empty());
        while i < self.invocations.len()
            invariant
                i <= self.invocations.len(),
                all == self.runs(),
                wanted == below(effect@, before),
                newest_views(rows@) == picked(all.take(i as int), wanted),
            decreases self.invocations.len() - i,
        {
            let run = &self.invocations[i];
            assert(all.take(i as int + 1).drop_last() =~= all.take(i as int));
            assert(all.take(i as int + 1).last() == invocation_view(*run));
            if same(&run.effect, effect) && run.row.position < before {
                let ghost had = newest_views(rows@);
                let copy = Newest { run: copy_invocation(run) };
                rows.push(copy);
                assert(newest_views(rows@) =~= had.push(invocation_view(copy.run)));
            }
            i += 1;
        }
        assert(all.take(i as int) =~= all);
        let found = sort_newest(rows);
        let ghost list = newest_views(found@);
        let n: usize = if limit < found.len() { limit } else { found.len() };
        let mut out: Vec<InvocationRow> = Vec::new();
        let mut i: usize = 0;
        while i < n
            invariant
                i <= n <= found.len(),
                out.len() == i,
                list == newest_views(found@),
                forall|k: int| 0 <= k < i ==> row_view(list[k].effect, #[trigger] out@[k]) == list[k],
            decreases n - i,
        {
            assert(list[i as int] == invocation_view(found@[i as int].run));
            let copy = copy_row(&found[i].run.row);
            assert(row_view(found@[i as int].run.effect@, copy) == list[i as int]);
            out.push(copy);
            i += 1;
        }
        proof {
            let page = runs_below(self.runs(), effect@, before, limit);
            lemma_picked(all, wanted);
            assert forall|k: int| 0 <= k < out.len() implies row_view(effect@, #[trigger] out@[k]) == page[k] by {
                assert(list.contains(list[k]));
                lemma_sorted_contains(picked(all, wanted), newest_first(), list[k]);
                let j = choose|j: int| 0 <= j < picked(all, wanted).len() && picked(all, wanted)[j] == list[k];
                assert(wanted(picked(all, wanted)[j]));
            }
            assert(out@.map_values(|row: InvocationRow| row_view(effect@, row)) =~= page);
        }
        out
    }
}

// ---------------------------------------------------------------------------
// Cursors and quarantines
// ---------------------------------------------------------------------------

pub open spec fn marks_alike() -> spec_fn((Seq<char>, u64), (Seq<char>, u64)) -> bool {
    |a: (Seq<char>, u64), b: (Seq<char>, u64)| a.0 == b.0
}

pub open spec fn holds_alike() -> spec_fn(QuarantineView, QuarantineView) -> bool {
    |a: QuarantineView, b: QuarantineView| a.0 == b.0
}

impl OpDb {
    /// The position up to which an effect has processed every matching event. Zero where
    /// it has never run.
    pub fn effect_resume_after(&self, effect: &str) -> (r: u64)
        ensures
            r == match place_of(self.marks(), mark_of(effect@)) {
                Some(at) => self.marks()[at].1,
                None => 0,
            },
            r == resume_after(self.marks(), effect@),
    {
        match self.find_mark(effect) {
            Some(i) => self.cursors[i].1,
            None => 0,
        }
    }

    /// Sets how far an effect has come. Only right once every matching position up to it
    /// has ended, which a driver that goes in order sees to.
    pub fn set_effect_watermark(&mut self, effect: &str, watermark: u64)
        requires
            well_formed(*old(self)),
        ensures
            well_formed(*final(self)),
            final(self).invocations == old(self).invocations,
            final(self).journal == old(self).journal,
            final(self).quarantines == old(self).quarantines,
            final(self).declarations == old(self).declarations,
            final(self).subject_keys == old(self).subject_keys,
            match place_of(old(self).marks(), mark_of(effect@)) {
                Some(at) => final(self).marks() == old(self).marks().update(at, (effect@, watermark)),
                None => final(self).marks() == old(self).marks().push((effect@, watermark)),
            },
            final(self).marks() == upserted(old(self).marks(), mark_of(effect@), (effect@, watermark)),
    {
        let ghost was = self.marks();
        proof {
            lemma_place(was, mark_of(effect@));
        }
        match self.find_mark(effect) {
            Some(i) => {
                self.cursors.set(i, (effect.to_owned(), watermark));
                proof {
                    assert(self.marks() =~= was.update(i as int, (effect@, watermark)));
                    lemma_unlike_update(was, i as int, (effect@, watermark), marks_alike());
                }
            },
            None => {
                self.cursors.push((effect.to_owned(), watermark));
                proof {
                    assert(self.marks() =~= was.push((effect@, watermark)));
                    lemma_unlike_push(was, (effect@, watermark), marks_alike());
                }
            },
        }
    }

    /// Records a quarantine, in place of one that there may be, so that a restart honours
    /// it.
    pub fn quarantine_effect(&mut self, effect: &str, position: u64, reason: &str, at: &str)
        requires
            well_formed(*old(self)),
        ensures
            well_formed(*final(self)),
            final(self).invocations == old(self).invocations,
            final(self).journal == old(self).journal,
            final(self).cursors == old(self).cursors,
            final(self).declarations == old(self).declarations,
            final(self).subject_keys == old(self).subject_keys,
            match place_of(old(self).holds(), hold_of(effect@)) {
                Some(i) => final(self).holds() == old(self).holds().update(
                    i,
                    (effect@, position, reason@, at@),
                ),
                None => final(self).holds() == old(self).holds().push(
                    (effect@, position, reason@, at@),
                ),
            },
            final(self).holds() == upserted(
                old(self).holds(),
                hold_of(effect@),
                (effect@, position, reason@, at@),
            ),
    {
        let ghost was = self.holds();
        let ghost new = (effect@, position, reason@, at@);
        proof {
            lemma_place(was, hold_of(effect@));
        }
        let row = QuarantineRow { position, reason: reason.to_owned(), at: at.to_owned() };
        match self.find_hold(effect) {
            Some(i) => {
                self.quarantines.set(i, (effect.to_owned(), row));
                proof {
                    assert(self.holds() =~= was.update(i as int, new));
                    lemma_unlike_update(was, i as int, new, holds_alike());
                }
            },
            None => {
                self.quarantines.push((effect.to_owned(), row));
                proof {
                    assert(self.holds() =~= was.push(new));
                    lemma_unlike_push(was, new, holds_alike());
                }
            },
        }
    }

    /// The recorded quarantine of an effect, if it has one.
    pub fn effect_quarantine(&self, effect: &str) -> (r: Option<(u64, String)>)
        ensures
            match place_of(self.holds(), hold_of(effect@)) {
                Some(at) => r matches Some(found) && (found.0, found.1@) == (
                    self.holds()[at].1,
                    self.holds()[at].2,
                ),
                None => r is None,
            },
            match found(self.holds(), hold_of(effect@)) {
                Some(hold) => r matches Some(row) && row.0 == hold.1 && row.1@ == hold.2,
                None => r is None,
            },
    {
        match self.find_hold(effect) {
            Some(i) => Some((self.quarantines[i].1.position, self.quarantines[i].1.reason.clone())),
            None => None,
        }
    }
}

/// An effect's durable state as its watermark and its quarantine.
pub type StateView = (Seq<char>, Option<u64>, Option<(u64, Seq<char>, Seq<char>)>);

pub open spec fn state_view(effect: Seq<char>, state: EffectState) -> StateView {
    (
        effect,
        state.watermark,
        match state.quarantine {
            Some(row) => Some((row.position, row.reason@, row.at@)),
            None => None,
        },
    )
}

/// What is known of an effect.
pub open spec fn known_state(db: OpDb, effect: Seq<char>) -> StateView {
    (
        effect,
        match place_of(db.marks(), mark_of(effect)) {
            Some(at) => Some(db.marks()[at].1),
            None => None,
        },
        match place_of(db.holds(), hold_of(effect)) {
            Some(at) => Some((db.holds()[at].1, db.holds()[at].2, db.holds()[at].3)),
            None => None,
        },
    )
}

/// The effects that some table knows: those with a cursor, then those with a quarantine
/// alone.
pub open spec fn known_effects(db: OpDb) -> Seq<Seq<char>> {
    db.marks().map_values(|m: (Seq<char>, u64)| m.0) + picked(
        db.holds(),
        |h: QuarantineView| place_of(db.marks(), mark_of(h.0)) is None,
    ).map_values(|h: QuarantineView| h.0)
}

impl OpDb {
    /// What is known of one effect.
    pub fn effect_state(&self, effect: &str) -> (r: EffectState)
        ensures
            state_view(effect@, r) == known_state(*self, effect@),
    {
        let watermark: Option<u64> = match self.find_mark(effect) {
            Some(i) => Some(self.cursors[i].1),
            None => None,
        };
        let quarantine = match self.find_hold(effect) {
            Some(i) => {
                let row = &self.quarantines[i].1;
                Some(
                    QuarantineRow {
                        position: row.position,
                        reason: row.reason.clone(),
                        at: row.at.clone(),
                    },
                )
            },
            None => None,
        };
        EffectState { watermark, quarantine }
    }

    /// Every effect's durable state at once. An effect appears if either table knows it.
    pub fn effect_states(&self) -> (r: Vec<(String, EffectState)>)
        ensures
            r.len() == known_effects(*self).len(),
            forall|i: int|
                0 <= i < r.len() ==> state_view((#[trigger] r@[i]).0@, r@[i].1) == known_state(
                    *self,
                    known_effects(*self)[i],
                ),
    {
        let mut names: Vec<String> = Vec::new();
        let ghost marked = self.marks().map_values(|m: (Seq<char>, u64)| m.0);
        let mut i: usize = 0;
        while i < self.cursors.len()
            invariant
                i <= self.cursors.len(),
                marked == self.marks().map_values(|m: (Seq<char>, u64)| m.0),
                views(names@) == marked.take(i as int),
            decreases self.cursors.len() - i,
        {
            let ghost had = views(names@);
            names.push(self.cursors[i].0.clone());
            assert(marked[i as int] == self.cursors@[i as int].0@);
            assert(views(names@) =~= had.push(marked[i as int]));
            assert(had.push(marked[i as int]) =~= marked.take(i as int + 1));
            i += 1;
        }
        assert(marked.take(i as int) =~= marked);
        let ghost all = self.holds();
        let ghost wanted = |h: QuarantineView| place_of(self.marks(), mark_of(h.0)) is None;
        let ghost named = |h: QuarantineView| h.0;
        let mut i: usize = 0;
        assert(all.take(0) =~= Seq::empty());
        assert(views(names@) =~= marked + picked(all.take(0), wanted).map_values(named));
        while i < self.quarantines.len()
            invariant
                i <= self.quarantines.len(),
                all == self.holds(),
                wanted == (|h: QuarantineView| place_of(self.marks(), mark_of(h.0)) is None),
                named == (|h: QuarantineView| h.0),
                views(names@) == marked + picked(all.take(i as int), wanted).map_values(named),
            decreases self.quarantines.len() - i,
        {
            assert(all.take(i as int + 1).drop_last() =~= all.take(i as int));
            assert(all.take(i as int + 1).last() == quarantine_view(self.quarantines@[i as int]));
            if self.find_mark(&self.quarantines[i].0).is_none() {
                let ghost had = views(names@);
                let ghost before = picked(all.take(i as int), wanted);
                names.push(self.quarantines[i].0.clone());
                assert(views(names@) =~= had.push(self.quarantines@[i as int].0@));
                assert(before.push(all[i as int]).map_values(named) =~= before.map_values(named).push(all[i as int].0));
                assert(had.push(all[i as int].0) =~= marked + before.map_values(named).push(all[i as int].0));
            }
            i += 1;
        }
        assert(all.take(i as int) =~= all);
        assert(views(names@) == known_effects(*self));
        let mut out: Vec<(String, EffectState)> = Vec::new();
        let mut i: usize = 0;
        while i < names.len()
            invariant
                i <= names.len(),
                out.len() == i,
                views(names@) == known_effects(*self),
                forall|k: int|
                    0 <= k < i ==> state_view((#[trigger] out@[k]).0@, out@[k].1) == known_state(
                        *self,
                        known_effects(*self)[k],
                    ),
            decreases names.len() - i,
        {
            assert(known_effects(*self)[i as int] == names@[i as int]@);
            let state = self.effect_state(&names[i]);
            out.push((names[i].clone(), state));
            i += 1;
        }
        out
    }
}

/// An effect that was never run and one that has run to zero are told apart.
pub proof fn law_never_run_is_not_run_to_zero(db: OpDb, effect: Seq<char>)
    ensures
        known_state(db, effect).1 is None <==> place_of(db.marks(), mark_of(effect)) is None,
{
}


// ---------------------------------------------------------------------------
// Declarations
// ---------------------------------------------------------------------------

pub open spec fn versions_alike() -> spec_fn(DeclarationView, DeclarationView) -> bool {
    |a: DeclarationView, b: DeclarationView|
        a.kind == b.kind && a.name == b.name && a.hash == b.hash
}

/// Every version with none of them current.
pub open spec fn none_current(versions: Seq<DeclarationView>) -> Seq<DeclarationView> {
    versions.map_values(|v: DeclarationView| DeclarationView { current: false, ..v })
}

/// A version that is loaded: one that is on record is seen again, another is recorded.
pub open spec fn with_loaded(versions: Seq<DeclarationView>, row: DeclarationView, now: Seq<char>) -> Seq<
    DeclarationView,
> {
    match place_of(versions, version_of(row.kind, row.name, row.hash)) {
        Some(at) => versions.update(
            at,
            DeclarationView { last_seen: now, current: true, module: row.module, ..versions[at] },
        ),
        None => versions.push(
            DeclarationView { first_seen: now, last_seen: now, current: true, ..row },
        ),
    }
}

/// The versions after the first of a list are loaded.
pub open spec fn loaded(
    versions: Seq<DeclarationView>,
    rows: Seq<DeclarationView>,
    upto: nat,
    now: Seq<char>,
) -> Seq<DeclarationView>
    decreases upto,
{
    if upto == 0 {
        none_current(versions)
    } else {
        with_loaded(loaded(versions, rows, (upto - 1) as nat, now), rows[upto - 1], now)
    }
}

pub open spec fn declaration_views(rows: Seq<DeclarationRow>) -> Seq<DeclarationView> {
    rows.map_values(|d: DeclarationRow| declaration_view(d))
}

fn copy_declaration(row: &DeclarationRow) -> (r: DeclarationRow)
    ensures
        declaration_view(r) == declaration_view(*row),
{
    DeclarationRow {
        kind: row.kind.clone(),
        name: row.name.clone(),
        hash: row.hash.clone(),
        signature_hash: copied_option(&row.signature_hash),
        form: row.form.clone(),
        signature: copied_option(&row.signature),
        module: copied_option(&row.module),
        first_seen: row.first_seen.clone(),
        last_seen: row.last_seen.clone(),
        current: row.current,
    }
}

impl OpDb {
    /// Records what was loaded: nothing else is current any longer, a version that is on
    /// record is seen again, and another is recorded. The table grows with edits, not
    /// with boots, and keeps every version there ever was.
    pub fn set_current_declarations(&mut self, declarations: &Vec<DeclarationRow>, now: &str)
        requires
            well_formed(*old(self)),
        ensures
            well_formed(*final(self)),
            final(self).invocations == old(self).invocations,
            final(self).journal == old(self).journal,
            final(self).cursors == old(self).cursors,
            final(self).quarantines == old(self).quarantines,
            final(self).subject_keys == old(self).subject_keys,
            final(self).versions() == loaded(
                old(self).versions(),
                declaration_views(declarations@),
                declarations.len() as nat,
                now@,
            ),
    {
        let ghost before = self.versions();
        let ghost rows = declaration_views(declarations@);
        let mut i: usize = 0;
        while i < self.declarations.len()
            invariant
                i <= self.declarations.len(),
                before == old(self).versions(),
                self.invocations == old(self).invocations,
                self.journal == old(self).journal,
                self.cursors == old(self).cursors,
                self.quarantines == old(self).quarantines,
                self.subject_keys == old(self).subject_keys,
                self.declarations.len() == before.len(),
                forall|k: int| 0 <= k < i ==> #[trigger] self.versions()[k] == none_current(before)[k],
                forall|k: int| i <= k < before.len() ==> #[trigger] self.versions()[k] == before[k],
            decreases self.declarations.len() - i,
        {
            let ghost was = self.versions();
            let mut row = copy_declaration(&self.declarations[i]);
            row.current = false;
            self.declarations.set(i, row);
            assert(self.versions() =~= was.update(i as int, declaration_view(row)));
            assert(was[i as int] == before[i as int]);
            i += 1;
        }
        assert(self.versions() =~= none_current(before));
        proof {
            assert forall|a: int, b: int| 0 <= a < b < self.versions().len() implies !versions_alike()(
                #[trigger] self.versions()[a],
                #[trigger] self.versions()[b],
            ) by {
                assert(!versions_alike()(before[a], before[b]));
            }
        }
        let mut i: usize = 0;
        while i < declarations.len()
            invariant
                i <= declarations.len(),
                rows == declaration_views(declarations@),
                before == old(self).versions(),
                self.invocations == old(self).invocations,
                self.journal == old(self).journal,
                self.cursors == old(self).cursors,
                self.quarantines == old(self).quarantines,
                self.subject_keys == old(self).subject_keys,
                unlike(self.versions(), versions_alike()),
                self.versions() == loaded(before, rows, i as nat, now@),
            decreases declarations.len() - i,
        {
            let given = &declarations[i];
            let ghost was = self.versions();
            assert(rows[i as int] == declaration_view(*given));
            proof {
                lemma_place(was, version_of(given.kind@, given.name@, given.hash@));
            }
            match self.find_version(&given.kind, &given.name, &given.hash) {
                Some(at) => {
                    let mut row = copy_declaration(&self.declarations[at]);
                    row.last_seen = now.to_owned();
                    row.current = true;
                    row.module = copied_option(&given.module);
                    self.declarations.set(at, row);
                    proof {
                        assert(self.versions() =~= was.update(at as int, declaration_view(row)));
                        lemma_unlike_update(was, at as int, declaration_view(row), versions_alike());
                    }
                },
                None => {
                    let mut row = copy_declaration(given);
                    row.first_seen = now.to_owned();
                    row.last_seen = now.to_owned();
                    row.current = true;
                    self.declarations.push(row);
                    proof {
                        assert(self.versions() =~= was.push(declaration_view(row)));
                        lemma_unlike_push(was, declaration_view(row), versions_alike());
                    }
                },
            }
            i += 1;
        }
    }

    /// One recorded version of a declaration. Nothing says that the hash was never
    /// recorded, which is another thing than that a different version is current.
    pub fn declaration_by_hash(&self, kind: &str, name: &str, hash: &str) -> (r: Option<DeclarationRow>)
        ensures
            match place_of(self.versions(), version_of(kind@, name@, hash@)) {
                Some(at) => r is Some && declaration_view(r->0) == self.versions()[at],
                None => r is None,
            },
            found(self.versions(), version_of(kind@, name@, hash@)) == match r {
                Some(row) => Some(declaration_view(row)),
                None => None,
            },
    {
        match self.find_version(kind, name, hash) {
            Some(i) => Some(copy_declaration(&self.declarations[i])),
            None => None,
        }
    }

    /// What is deployed, by kind and name.
    pub fn current_declarations(&self) -> (r: Vec<DeclarationRow>)
        ensures
            declaration_views(r@) == sorted(
                picked(self.versions(), |v: DeclarationView| v.current),
                declaration_order(),
            ),
            declaration_views(r@) == current_versions(self.versions()),
    {
        let mut rows: Vec<DeclarationRow> = Vec::new();
        let ghost all = self.versions();
        let ghost wanted = |v: DeclarationView| v.current;
        let mut i: usize = 0;
        assert(all.take(0) =~= Seq::empty());
        assert(declaration_views(rows@) =~= Seq::empty());
        while i < self.declarations.len()
            invariant
                i <= self.declarations.len(),
                all == self.versions(),
                wanted == (|v: DeclarationView| v.current),
                declaration_views(rows@) == picked(all.take(i as int), wanted),
            decreases self.declarations.len() - i,
        {
            let row = &self.declarations[i];
            assert(all.take(i as int + 1).drop_last() =~= all.take(i as int));
            assert(all.take(i as int + 1).last() == declaration_view(*row));
            if row.current {
                let ghost had = declaration_views(rows@);
                let copy = copy_declaration(row);
                rows.push(copy);
                assert(declaration_views(rows@) =~= had.push(declaration_view(copy)));
            }
            i += 1;
        }
        assert(all.take(i as int) =~= all);
        proof {
            lemma_sorted_map(
                rows@,
                |d: DeclarationRow| declaration_view(d),
                |a: DeclarationRow, b: DeclarationRow| a.ranks_before(b),
                declaration_order(),
            );
        }
        sort(rows)
    }
}

/// By kind, then by name.
pub open spec fn declaration_order() -> spec_fn(DeclarationView, DeclarationView) -> bool {
    |a: DeclarationView, b: DeclarationView|
        if a.kind == b.kind {
            precedes(a.name, b.name)
        } else {
            precedes(a.kind, b.kind)
        }
}

impl Ranked for DeclarationRow {
    open spec fn ranks_before(self, other: DeclarationRow) -> bool {
        declaration_order()(declaration_view(self), declaration_view(other))
    }

    fn is_before(&self, other: &DeclarationRow) -> (r: bool) {
        if same(&self.kind, &other.kind) {
            crate::text::is_before(&self.name, &other.name)
        } else {
            crate::text::is_before(&self.kind, &other.kind)
        }
    }
}

/// A version that was recorded stays on record whatever is loaded next, with the time it
/// was first seen.
pub proof fn law_a_recorded_version_is_kept(
    versions: Seq<DeclarationView>,
    rows: Seq<DeclarationView>,
    upto: nat,
    now: Seq<char>,
    at: int,
)
    requires
        0 <= at < versions.len(),
        upto <= rows.len(),
    ensures
        loaded(versions, rows, upto, now).len() >= versions.len(),
        ({
            let kept = loaded(versions, rows, upto, now)[at];
            &&& kept.kind == versions[at].kind
            &&& kept.name == versions[at].name
            &&& kept.hash == versions[at].hash
            &&& kept.form == versions[at].form
            &&& kept.first_seen == versions[at].first_seen
        }),
    decreases upto,
{
    if upto > 0 {
        law_a_recorded_version_is_kept(versions, rows, (upto - 1) as nat, now, at);
        let before = loaded(versions, rows, (upto - 1) as nat, now);
        let row = rows[upto - 1];
        lemma_place(before, version_of(row.kind, row.name, row.hash));
    }
}

/// Loading what is on record adds nothing: a restart costs no row.
pub proof fn law_loading_the_same_adds_no_row(versions: Seq<DeclarationView>, row: DeclarationView, now: Seq<char>)
    requires
        place_of(versions, version_of(row.kind, row.name, row.hash)) is Some,
    ensures
        with_loaded(versions, row, now).len() == versions.len(),
{
    lemma_place(versions, version_of(row.kind, row.name, row.hash));
}

// ---------------------------------------------------------------------------
// Retention
// ---------------------------------------------------------------------------

/// Whether retention may take an invocation: it reached its end before the cutoff, and
/// the effect's cursor has passed it. One that the cursor has not passed is what the next
/// boot replays.
pub open spec fn sweepable(run: InvocationView, marks: Seq<(Seq<char>, u64)>, cutoff: Seq<char>) -> bool {
    &&& run.status == "terminal"@
    &&& run.completed_at matches Some(at) && precedes(at, cutoff)
    &&& match place_of(marks, mark_of(run.effect)) {
        Some(at) => run.position <= marks[at].1,
        None => false,
    }
}

/// What a sweep keeps and what it takes of the first invocations: the first that it may
/// take, at most `limit` of them.
pub open spec fn swept(
    runs: Seq<InvocationView>,
    upto: nat,
    marks: Seq<(Seq<char>, u64)>,
    cutoff: Seq<char>,
    limit: usize,
) -> (Seq<InvocationView>, Seq<InvocationView>)
    decreases upto,
{
    if upto == 0 {
        (Seq::empty(), Seq::empty())
    } else {
        let (kept, taken) = swept(runs, (upto - 1) as nat, marks, cutoff, limit);
        let run = runs[upto - 1];
        if sweepable(run, marks, cutoff) && taken.len() < limit {
            (kept, taken.push(run))
        } else {
            (kept.push(run), taken)
        }
    }
}

/// A call whose invocation was not taken.
pub open spec fn not_taken(taken: Seq<InvocationView>) -> spec_fn(JournalView) -> bool {
    |c: JournalView| place_of(taken, run_at(c.effect, c.position)) is None
}

proof fn lemma_swept(
    runs: Seq<InvocationView>,
    upto: nat,
    marks: Seq<(Seq<char>, u64)>,
    cutoff: Seq<char>,
    limit: usize,
)
    requires
        upto <= runs.len(),
    ensures
        ({
            let (kept, taken) = swept(runs, upto, marks, cutoff, limit);
            &&& kept.len() + taken.len() == upto
            &&& taken.len() <= limit
            &&& forall|k: int|
                0 <= k < kept.len() ==> exists|i: int| 0 <= i < upto && runs[i] == #[trigger] kept[k]
            &&& forall|k: int| 0 <= k < taken.len() ==> sweepable(#[trigger] taken[k], marks, cutoff)
            &&& forall|i: int|
                0 <= i < upto ==> kept.contains(#[trigger] runs[i]) || taken.contains(runs[i])
            &&& forall|i: int|
                0 <= i < upto && !sweepable(#[trigger] runs[i], marks, cutoff) ==> kept.contains(runs[i])
        }),
    decreases upto,
{
    if upto > 0 {
        lemma_swept(runs, (upto - 1) as nat, marks, cutoff, limit);
        let (kept, taken) = swept(runs, (upto - 1) as nat, marks, cutoff, limit);
        let run = runs[upto - 1];
        let (now_kept, now_taken) = swept(runs, upto, marks, cutoff, limit);
        if sweepable(run, marks, cutoff) && taken.len() < limit {
            assert(now_taken[taken.len() as int] == run);
            assert forall|i: int| 0 <= i < upto implies now_kept.contains(#[trigger] runs[i]) || now_taken.contains(
                runs[i],
            ) by {
                if i < upto - 1 && taken.contains(runs[i]) {
                    let k = choose|k: int| 0 <= k < taken.len() && taken[k] == runs[i];
                    assert(now_taken[k] == runs[i]);
                }
            }
            assert forall|k: int| 0 <= k < now_kept.len() implies exists|i: int|
                0 <= i < upto && runs[i] == #[trigger] now_kept[k] by {
                let i = choose|i: int| 0 <= i < upto - 1 && runs[i] == kept[k];
                assert(runs[i] == now_kept[k]);
            }
        } else {
            assert(now_kept[kept.len() as int] == run);
            assert forall|i: int| 0 <= i < upto implies now_kept.contains(#[trigger] runs[i]) || now_taken.contains(
                runs[i],
            ) by {
                if i < upto - 1 && kept.contains(runs[i]) {
                    let k = choose|k: int| 0 <= k < kept.len() && kept[k] == runs[i];
                    assert(now_kept[k] == runs[i]);
                }
            }
            assert forall|i: int| 0 <= i < upto && !sweepable(#[trigger] runs[i], marks, cutoff) implies now_kept.contains(
                runs[i],
            ) by {
                if i < upto - 1 {
                    let k = choose|k: int| 0 <= k < kept.len() && kept[k] == runs[i];
                    assert(now_kept[k] == runs[i]);
                }
            }
            assert forall|k: int| 0 <= k < now_kept.len() implies exists|i: int|
                0 <= i < upto && runs[i] == #[trigger] now_kept[k] by {
                if k < kept.len() {
                    let i = choose|i: int| 0 <= i < upto - 1 && runs[i] == kept[k];
                    assert(runs[i] == now_kept[k]);
                } else {
                    assert(runs[upto - 1] == now_kept[k]);
                }
            }
        }
    }
}

proof fn lemma_swept_unlike(
    runs: Seq<InvocationView>,
    upto: nat,
    marks: Seq<(Seq<char>, u64)>,
    cutoff: Seq<char>,
    limit: usize,
)
    requires
        upto <= runs.len(),
        unlike(runs, runs_alike()),
    ensures
        unlike(swept(runs, upto, marks, cutoff, limit).0, runs_alike()),
    decreases upto,
{
    if upto > 0 {
        let before = (upto - 1) as nat;
        lemma_swept_unlike(runs, before, marks, cutoff, limit);
        lemma_swept(runs, before, marks, cutoff, limit);
        let (kept, taken) = swept(runs, before, marks, cutoff, limit);
        let run = runs[upto - 1];
        assert forall|k: int| 0 <= k < kept.len() implies !runs_alike()(#[trigger] kept[k], run) by {
            let i = choose|i: int| 0 <= i < before && runs[i] == kept[k];
            assert(!runs_alike()(runs[i], runs[upto - 1]));
        }
        lemma_unlike_push(kept, run, runs_alike());
    }
}

proof fn lemma_picked_unlike<V>(rows: Seq<V>, wanted: spec_fn(V) -> bool, alike: spec_fn(V, V) -> bool)
    requires
        unlike(rows, alike),
    ensures
        unlike(picked(rows, wanted), alike),
    decreases rows.len(),
{
    if rows.len() > 0 {
        let rest = rows.drop_last();
        assert forall|i: int, j: int| 0 <= i < j < rest.len() implies !alike(
            #[trigger] rest[i],
            #[trigger] rest[j],
        ) by {
            assert(!alike(rows[i], rows[j]));
        }
        lemma_picked_unlike(rest, wanted, alike);
        lemma_picked(rest, wanted);
        let kept = picked(rest, wanted);
        assert forall|k: int| 0 <= k < kept.len() implies !alike(#[trigger] kept[k], rows.last()) by {
            assert(rest.contains(kept[k]));
            let i = choose|i: int| 0 <= i < rest.len() && rest[i] == kept[k];
            assert(!alike(rows[i], rows[rows.len() - 1]));
        }
        lemma_unlike_push(kept, rows.last(), alike);
    }
}

proof fn lemma_sweep_keeps_roots(
    calls: Seq<JournalView>,
    runs: Seq<InvocationView>,
    marks: Seq<(Seq<char>, u64)>,
    cutoff: Seq<char>,
    limit: usize,
)
    requires
        rooted(calls, runs),
    ensures
        ({
            let (kept, taken) = swept(runs, runs.len(), marks, cutoff, limit);
            rooted(picked(calls, not_taken(taken)), kept)
        }),
{
    let (kept, taken) = swept(runs, runs.len(), marks, cutoff, limit);
    let left = picked(calls, not_taken(taken));
    lemma_swept(runs, runs.len(), marks, cutoff, limit);
    lemma_picked(calls, not_taken(taken));
    assert forall|i: int| 0 <= i < left.len() implies place_of(
        kept,
        run_at((#[trigger] left[i]).effect, left[i].position),
    ) is Some by {
        let wanted = run_at(left[i].effect, left[i].position);
        assert(calls.contains(left[i]));
        let c = choose|c: int| 0 <= c < calls.len() && calls[c] == left[i];
        assert(place_of(runs, run_at(calls[c].effect, calls[c].position)) is Some);
        lemma_place(runs, wanted);
        let at = place_of(runs, wanted)->0;
        assert(not_taken(taken)(left[i]));
        lemma_place(taken, wanted);
        assert(!taken.contains(runs[at])) by {
            if taken.contains(runs[at]) {
                let k = choose|k: int| 0 <= k < taken.len() && taken[k] == runs[at];
                assert(wanted(taken[k]));
            }
        }
        assert(kept.contains(runs[at]));
        let k = choose|k: int| 0 <= k < kept.len() && kept[k] == runs[at];
        lemma_place_exists(kept, wanted, k);
    }
}

impl OpDb {
    fn may_sweep(&self, run: &Invocation, cutoff: &str) -> (r: bool)
        ensures
            r == sweepable(invocation_view(*run), self.marks(), cutoff@),
    {
        if !same(&run.row.status, "terminal") {
            return false;
        }
        match &run.row.completed_at {
            Some(at) => {
                if !crate::text::is_before(at, cutoff) {
                    return false;
                }
            },
            None => return false,
        }
        match self.find_mark(&run.effect) {
            Some(i) => run.row.position <= self.cursors[i].1,
            None => false,
        }
    }

    /// Deletes up to `limit` invocations that ended before `cutoff`, with their journal,
    /// and says how many. A position is only taken once the effect's cursor has passed
    /// it: a driver ends invocations one by one and persists its cursor per batch, so
    /// ended ones above it are exactly what the next boot replays, and without their
    /// journal every recorded side effect would fire a second time.
    pub fn sweep_effect_journal(&mut self, cutoff: &str, limit: usize) -> (r: usize)
        requires
            well_formed(*old(self)),
        ensures
            well_formed(*final(self)),
            same_books(*final(self), *old(self)),
            ({
                let (kept, taken) = swept(
                    old(self).runs(),
                    old(self).runs().len(),
                    old(self).marks(),
                    cutoff@,
                    limit,
                );
                &&& r == taken.len()
                &&& final(self).runs() == kept
                &&& final(self).calls() == picked(old(self).calls(), not_taken(taken))
            }),
    {
        let ghost runs = self.runs();
        let ghost calls = self.calls();
        let ghost marks = self.marks();
        let mut kept: Vec<Invocation> = Vec::new();
        let mut taken: Vec<Invocation> = Vec::new();
        let mut i: usize = 0;
        assert(run_views(kept@) =~= Seq::empty());
        assert(run_views(taken@) =~= Seq::empty());
        while i < self.invocations.len()
            invariant
                i <= self.invocations.len(),
                *self == *old(self),
                runs == self.runs(),
                marks == self.marks(),
                (run_views(kept@), run_views(taken@)) == swept(runs, i as nat, marks, cutoff@, limit),
                taken.len() <= i,
            decreases self.invocations.len() - i,
        {
            let run = copy_invocation(&self.invocations[i]);
            assert(runs[i as int] == invocation_view(run));
            if taken.len() < limit && self.may_sweep(&self.invocations[i], cutoff) {
                let ghost had = run_views(taken@);
                taken.push(run);
                assert(run_views(taken@) =~= had.push(invocation_view(run)));
            } else {
                let ghost had = run_views(kept@);
                kept.push(run);
                assert(run_views(kept@) =~= had.push(invocation_view(run)));
            }
            i += 1;
        }
        let ghost gone = run_views(taken@);
        let mut left: Vec<JournalEntry> = Vec::new();
        let mut i: usize = 0;
        assert(calls.take(0) =~= Seq::empty());
        assert(entry_views(left@) =~= Seq::empty());
        while i < self.journal.len()
            invariant
                i <= self.journal.len(),
                *self == *old(self),
                calls == self.calls(),
                gone == run_views(taken@),
                entry_views(left@) == picked(calls.take(i as int), not_taken(gone)),
            decreases self.journal.len() - i,
        {
            let entry = &self.journal[i];
            assert(calls.take(i as int + 1).drop_last() =~= calls.take(i as int));
            assert(calls.take(i as int + 1).last() == entry_view(*entry));
            let mut held = true;
            let mut j: usize = taken.len();
            while j > 0
                invariant
                    j <= taken.len(),
                    gone == run_views(taken@),
                    held ==> forall|k: int|
                        j <= k < gone.len() ==> !run_at(entry.effect@, entry.position)(#[trigger] gone[k]),
                    !held ==> exists|k: int|
                        0 <= k < gone.len() && run_at(entry.effect@, entry.position)(#[trigger] gone[k]),
                decreases j,
            {
                j -= 1;
                assert(gone[j as int] == invocation_view(taken@[j as int]));
                if same(&taken[j].effect, &entry.effect) && taken[j].row.position == entry.position {
                    held = false;
                }
            }
            proof {
                lemma_place(gone, run_at(entry.effect@, entry.position));
            }
            if held {
                let ghost had = entry_views(left@);
                let copy = JournalEntry {
                    effect: entry.effect.clone(),
                    position: entry.position,
                    row: JournalRow {
                        call_hash: entry.row.call_hash.clone(),
                        disambiguator: entry.row.disambiguator,
                        kind: copied_option(&entry.row.kind),
                        result: entry.row.result.clone(),
                        created_at: entry.row.created_at.clone(),
                    },
                };
                left.push(copy);
                assert(entry_views(left@) =~= had.push(entry_view(copy)));
            }
            i += 1;
        }
        assert(calls.take(i as int) =~= calls);
        let n: usize = taken.len();
        self.invocations = kept;
        self.journal = left;
        proof {
            lemma_swept_unlike(runs, runs.len(), marks, cutoff@, limit);
            lemma_picked_unlike(calls, not_taken(gone), calls_alike());
            lemma_sweep_keeps_roots(calls, runs, marks, cutoff@, limit);
            assert(self.runs() == run_views(kept@));
            assert(self.calls() == entry_views(left@));
        }
        n
    }
}

pub open spec fn entry_views(entries: Seq<JournalEntry>) -> Seq<JournalView> {
    entries.map_values(|e: JournalEntry| entry_view(e))
}

/// A sweep keeps every invocation that a restart may run again: one that has not ended,
/// one above its effect's cursor, and one of an effect without a cursor.
pub proof fn law_a_sweep_keeps_what_may_run_again(
    runs: Seq<InvocationView>,
    marks: Seq<(Seq<char>, u64)>,
    cutoff: Seq<char>,
    limit: usize,
    at: int,
)
    requires
        0 <= at < runs.len(),
        runs[at].status != "terminal"@ || (match place_of(marks, mark_of(runs[at].effect)) {
            Some(i) => runs[at].position > marks[i].1,
            None => true,
        }),
    ensures
        swept(runs, runs.len(), marks, cutoff, limit).0.contains(runs[at]),
{
    lemma_swept(runs, runs.len(), marks, cutoff, limit);
    assert(!sweepable(runs[at], marks, cutoff));
}

/// A sweep takes at most as many as it is told to, and stops short only where nothing is
/// left that it may take.
pub proof fn law_a_short_sweep_is_the_last(
    runs: Seq<InvocationView>,
    marks: Seq<(Seq<char>, u64)>,
    cutoff: Seq<char>,
    limit: usize,
    at: int,
)
    requires
        swept(runs, runs.len(), marks, cutoff, limit).1.len() < limit,
        0 <= at < swept(runs, runs.len(), marks, cutoff, limit).0.len(),
    ensures
        !sweepable(swept(runs, runs.len(), marks, cutoff, limit).0[at], marks, cutoff),
{
    lemma_short_sweep(runs, runs.len(), marks, cutoff, limit, at);
}

proof fn lemma_short_sweep(
    runs: Seq<InvocationView>,
    upto: nat,
    marks: Seq<(Seq<char>, u64)>,
    cutoff: Seq<char>,
    limit: usize,
    at: int,
)
    requires
        upto <= runs.len(),
        swept(runs, upto, marks, cutoff, limit).1.len() < limit,
        0 <= at < swept(runs, upto, marks, cutoff, limit).0.len(),
    ensures
        !sweepable(swept(runs, upto, marks, cutoff, limit).0[at], marks, cutoff),
    decreases upto,
{
    if upto > 0 {
        let (kept, taken) = swept(runs, (upto - 1) as nat, marks, cutoff, limit);
        if at < kept.len() {
            lemma_short_sweep(runs, (upto - 1) as nat, marks, cutoff, limit, at);
        }
    }
}


// ---------------------------------------------------------------------------
// Invocations by position
// ---------------------------------------------------------------------------

/// By position, then by effect.
pub open spec fn trace_order() -> spec_fn(InvocationView, InvocationView) -> bool {
    |a: InvocationView, b: InvocationView|
        if a.position == b.position {
            precedes(a.effect, b.effect)
        } else {
            a.position < b.position
        }
}

/// An invocation of one of the effects at one of the positions.
pub open spec fn among(effects: Seq<Seq<char>>, positions: Seq<u64>) -> spec_fn(InvocationView) -> bool {
    |v: InvocationView| effects.contains(v.effect) && positions.contains(v.position)
}

/// An invocation in the order of a trace.
pub struct Traced {
    pub run: Invocation,
}

impl Ranked for Traced {
    open spec fn ranks_before(self, other: Traced) -> bool {
        trace_order()(invocation_view(self.run), invocation_view(other.run))
    }

    fn is_before(&self, other: &Traced) -> (r: bool) {
        if self.run.row.position == other.run.row.position {
            crate::text::is_before(&self.run.effect, &other.run.effect)
        } else {
            self.run.row.position < other.run.row.position
        }
    }
}

pub open spec fn traced_views(runs: Seq<Traced>) -> Seq<InvocationView> {
    runs.map_values(|t: Traced| invocation_view(t.run))
}

fn has_position(positions: &Vec<u64>, position: u64) -> (r: bool)
    ensures
        r == positions@.contains(position),
{
    let mut i: usize = 0;
    while i < positions.len()
        invariant
            i <= positions.len(),
            forall|k: int| 0 <= k < i ==> positions@[k] != position,
        decreases positions.len() - i,
    {
        if positions[i] == position {
            return true;
        }
        i += 1;
    }
    false
}

impl OpDb {
    /// Which of `effects` ran at which of `positions`, by position and then by effect,
    /// whatever order they are asked for in.
    pub fn invocations_at(&self, effects: &Vec<String>, positions: &Vec<u64>) -> (r: Vec<InvocationAt>)
        ensures
            ({
                let found = sorted(
                    picked(self.runs(), among(views(effects@), positions@)),
                    trace_order(),
                );
                &&& r.len() == found.len()
                &&& forall|i: int|
                    0 <= i < r.len() ==> ((#[trigger] r@[i]).effect@, r@[i].position, r@[i].status@)
                        == (found[i].effect, found[i].position, found[i].status)
            }),
            r@.map_values(|row: InvocationAt| (row.effect@, row.position, row.status@)) == runs_among(
                self.runs(),
                views(effects@),
                positions@,
            ).map_values(|v: InvocationView| (v.effect, v.position, v.status)),
    {
        let mut rows: Vec<Traced> = Vec::new();
        let ghost all = self.runs();
        let ghost wanted = among(views(effects@), positions@);
        let mut i: usize = 0;
        assert(all.take(0) =~= Seq::empty());
        assert(traced_views(rows@) =~= Seq::empty());
        while i < self.invocations.len()
            invariant
                i <= self.invocations.len(),
                all == self.runs(),
                wanted == among(views(effects@), positions@),
                traced_views(rows@) == picked(all.take(i as int), wanted),
            decreases self.invocations.len() - i,
        {
            let run = &self.invocations[i];
            assert(all.take(i as int + 1).drop_last() =~= all.take(i as int));
            assert(all.take(i as int + 1).last() == invocation_view(*run));
            if crate::text::holds(effects, &run.effect) && has_position(positions, run.row.position) {
                let ghost had = traced_views(rows@);
                let copy = Traced { run: copy_invocation(run) };
                rows.push(copy);
                assert(traced_views(rows@) =~= had.push(invocation_view(copy.run)));
            }
            i += 1;
        }
        assert(all.take(i as int) =~= all);
        proof {
            lemma_sorted_map(
                rows@,
                |t: Traced| invocation_view(t.run),
                |a: Traced, b: Traced| a.ranks_before(b),
                trace_order(),
            );
        }
        let found = sort(rows);
        let ghost list = traced_views(found@);
        let mut out: Vec<InvocationAt> = Vec::new();
        let mut i: usize = 0;
        while i < found.len()
            invariant
                i <= found.len(),
                out.len() == i,
                list == traced_views(found@),
                forall|k: int|
                    0 <= k < i ==> ((#[trigger] out@[k]).effect@, out@[k].position, out@[k].status@)
                        == (list[k].effect, list[k].position, list[k].status),
            decreases found.len() - i,
        {
            let run = &found[i].run;
            assert(list[i as int] == invocation_view(*run));
            out.push(
                InvocationAt {
                    effect: run.effect.clone(),
                    position: run.row.position,
                    status: run.row.status.clone(),
                },
            );
            i += 1;
        }
        out
    }
}

// ---------------------------------------------------------------------------
// Subject keys
// ---------------------------------------------------------------------------

pub open spec fn keys_alike() -> spec_fn(KeyView, KeyView) -> bool {
    |a: KeyView, b: KeyView| a.field == b.field && a.value == b.value
}

/// Whether two databases agree but for their subject keys.
pub open spec fn same_but_keys(a: OpDb, b: OpDb) -> bool {
    &&& a.invocations == b.invocations
    &&& a.journal == b.journal
    &&& a.cursors == b.cursors
    &&& a.quarantines == b.quarantines
    &&& a.declarations == b.declarations
}

fn copy_bytes(bytes: &Vec<u8>) -> (r: Vec<u8>)
    ensures
        r@ == bytes@,
{
    let mut out: Vec<u8> = Vec::new();
    let mut i: usize = 0;
    while i < bytes.len()
        invariant
            i <= bytes.len(),
            out@ == bytes@.take(i as int),
        decreases bytes.len() - i,
    {
        out.push(bytes[i]);
        assert(bytes@.take(i as int + 1) =~= bytes@.take(i as int).push(bytes@[i as int]));
        i += 1;
    }
    assert(bytes@.take(i as int) =~= bytes@);
    out
}

fn copy_key(key: &SubjectKey) -> (r: SubjectKey)
    ensures
        key_view(r) == key_view(*key),
{
    SubjectKey {
        subject_field: key.subject_field.clone(),
        subject_value: key.subject_value.clone(),
        wrapped_key: copy_bytes(&key.wrapped_key),
        master_key_id: key.master_key_id.clone(),
        created_at: key.created_at.clone(),
    }
}

/// A master rotation's first updates applied, and how many rows they rewrapped. An update
/// applies only where the row is under the master that it expects: a subject that was
/// erased and created again in between keeps its new key.
pub open spec fn rewrapped(keys: Seq<KeyView>, updates: Seq<RewrapUpdate>, upto: nat) -> (Seq<KeyView>, nat)
    decreases upto,
{
    if upto == 0 {
        (keys, 0)
    } else {
        let (now, n) = rewrapped(keys, updates, (upto - 1) as nat);
        let update = updates[upto - 1];
        match place_of(now, key_of(update.subject_field@, update.subject_value@)) {
            Some(at) => if now[at].master == update.expected_master_id@ {
                (
                    now.update(
                        at,
                        KeyView {
                            wrapped: update.wrapped_key@,
                            master: update.master_key_id@,
                            ..now[at]
                        },
                    ),
                    n + 1,
                )
            } else {
                (now, n)
            },
            None => (now, n),
        }
    }
}

impl OpDb {
    /// The wrapped key of a subject and the master that wrapped it. Nothing where the
    /// subject has no key: it never had one, or was erased.
    pub fn get_subject_key(&self, subject_field: &str, subject_value: &str) -> (r: Option<(Vec<u8>, String)>)
        ensures
            match place_of(self.keys(), key_of(subject_field@, subject_value@)) {
                Some(at) => r matches Some(found) && (found.0@, found.1@) == (
                    self.keys()[at].wrapped,
                    self.keys()[at].master,
                ),
                None => r is None,
            },
            match found(self.keys(), key_of(subject_field@, subject_value@)) {
                Some(key) => r matches Some(held) && held.0@ == key.wrapped && held.1@ == key.master,
                None => r is None,
            },
    {
        match self.find_key(subject_field, subject_value) {
            Some(i) => Some(
                (
                    copy_bytes(&self.subject_keys[i].wrapped_key),
                    self.subject_keys[i].master_key_id.clone(),
                ),
            ),
            None => None,
        }
    }

    /// A subject's wrapped key: the one it has, or the candidate, which is then stored.
    /// The first to write wins, and all encrypt under the winner.
    pub fn get_or_insert_subject_key(
        &mut self,
        subject_field: &str,
        subject_value: &str,
        candidate_wrapped: &Vec<u8>,
        master_key_id: &str,
        now: &str,
    ) -> (r: (Vec<u8>, String))
        requires
            well_formed(*old(self)),
        ensures
            well_formed(*final(self)),
            same_but_keys(*final(self), *old(self)),
            match place_of(old(self).keys(), key_of(subject_field@, subject_value@)) {
                Some(at) => {
                    &&& final(self).keys() == old(self).keys()
                    &&& (r.0@, r.1@) == (old(self).keys()[at].wrapped, old(self).keys()[at].master)
                },
                None => {
                    &&& final(self).keys() == old(self).keys().push(
                        KeyView {
                            field: subject_field@,
                            value: subject_value@,
                            wrapped: candidate_wrapped@,
                            master: master_key_id@,
                            created_at: now@,
                        },
                    )
                    &&& (r.0@, r.1@) == (candidate_wrapped@, master_key_id@)
                },
            },
            final(self).keys() == with_key(
                old(self).keys(),
                KeyView {
                    field: subject_field@,
                    value: subject_value@,
                    wrapped: candidate_wrapped@,
                    master: master_key_id@,
                    created_at: now@,
                },
            ),
            found(final(self).keys(), key_of(subject_field@, subject_value@)) matches Some(key)
                && key.wrapped == r.0@ && key.master == r.1@,
    {
        if let Some(held) = self.get_subject_key(subject_field, subject_value) {
            return held;
        }
        let ghost was = self.keys();
        let key = SubjectKey {
            subject_field: subject_field.to_owned(),
            subject_value: subject_value.to_owned(),
            wrapped_key: copy_bytes(candidate_wrapped),
            master_key_id: master_key_id.to_owned(),
            created_at: now.to_owned(),
        };
        self.subject_keys.push(key);
        proof {
            assert(self.keys() =~= was.push(key_view(key)));
            lemma_place(was, key_of(subject_field@, subject_value@));
            lemma_unlike_push(was, key_view(key), keys_alike());
        }
        (copy_bytes(candidate_wrapped), master_key_id.to_owned())
    }

    /// Deletes a subject's key, which shreds every value encrypted under it, and says
    /// whether there was one.
    pub fn delete_subject_key(&mut self, subject_field: &str, subject_value: &str) -> (r: bool)
        requires
            well_formed(*old(self)),
        ensures
            well_formed(*final(self)),
            same_but_keys(*final(self), *old(self)),
            match place_of(old(self).keys(), key_of(subject_field@, subject_value@)) {
                Some(at) => r && final(self).keys() == old(self).keys().remove(at),
                None => !r && final(self).keys() == old(self).keys(),
            },
            final(self).keys() == without_key(old(self).keys(), subject_field@, subject_value@),
            r == (found(old(self).keys(), key_of(subject_field@, subject_value@)) is Some),
            place_of(final(self).keys(), key_of(subject_field@, subject_value@)) is None,
    {
        let ghost was = self.keys();
        let ghost wanted = key_of(subject_field@, subject_value@);
        proof {
            lemma_place(was, wanted);
        }
        match self.find_key(subject_field, subject_value) {
            Some(i) => {
                self.subject_keys.remove(i);
                proof {
                    let now = self.keys();
                    assert(now =~= was.remove(i as int));
                    assert forall|a: int, b: int| 0 <= a < b < now.len() implies !keys_alike()(
                        #[trigger] now[a],
                        #[trigger] now[b],
                    ) by {
                        let x = if a < i { a } else { a + 1 };
                        let y = if b < i { b } else { b + 1 };
                        assert(!keys_alike()(was[x], was[y]));
                    }
                    assert forall|k: int| -1 < k < now.len() implies !wanted(#[trigger] now[k]) by {
                        if k < i {
                            assert(!keys_alike()(was[k], was[i as int]));
                        } else {
                            assert(!keys_alike()(was[i as int], was[k + 1]));
                        }
                    }
                    lemma_place_is(now, wanted, -1);
                }
                true
            },
            None => false,
        }
    }

    /// Every subject key, for a master rotation.
    pub fn all_subject_keys(&self) -> (r: Vec<SubjectKey>)
        ensures
            r@.map_values(|k: SubjectKey| key_view(k)) == self.keys(),
    {
        let mut out: Vec<SubjectKey> = Vec::new();
        let mut i: usize = 0;
        while i < self.subject_keys.len()
            invariant
                i <= self.subject_keys.len(),
                out.len() == i,
                forall|k: int| 0 <= k < i ==> key_view(#[trigger] out@[k]) == key_view(self.subject_keys@[k]),
            decreases self.subject_keys.len() - i,
        {
            out.push(copy_key(&self.subject_keys[i]));
            i += 1;
        }
        assert(out@.map_values(|k: SubjectKey| key_view(k)) =~= self.keys());
        out
    }

    /// Replaces many subjects' wrapped keys and masters, and says how many rows were
    /// rewrapped. Each is a compare-and-set on the master that the row is expected to be
    /// under.
    pub fn rewrap_subject_keys(&mut self, updates: &Vec<RewrapUpdate>) -> (r: usize)
        requires
            well_formed(*old(self)),
        ensures
            well_formed(*final(self)),
            same_but_keys(*final(self), *old(self)),
            (final(self).keys(), r as nat) == rewrapped(
                old(self).keys(),
                updates@,
                updates.len() as nat,
            ),
    {
        let ghost before = self.keys();
        let mut n: usize = 0;
        let mut i: usize = 0;
        while i < updates.len()
            invariant
                i <= updates.len(),
                n <= i,
                before == old(self).keys(),
                same_but_keys(*self, *old(self)),
                unlike(self.keys(), keys_alike()),
                (self.keys(), n as nat) == rewrapped(before, updates@, i as nat),
            decreases updates.len() - i,
        {
            let update = &updates[i];
            let ghost was = self.keys();
            proof {
                lemma_place(was, key_of(update.subject_field@, update.subject_value@));
            }
            if let Some(at) = self.find_key(&update.subject_field, &update.subject_value) {
                if same(&self.subject_keys[at].master_key_id, &update.expected_master_id) {
                    let mut key = copy_key(&self.subject_keys[at]);
                    key.wrapped_key = copy_bytes(&update.wrapped_key);
                    key.master_key_id = update.master_key_id.clone();
                    self.subject_keys.set(at, key);
                    proof {
                        assert(self.keys() =~= was.update(at as int, key_view(key)));
                        lemma_unlike_update(was, at as int, key_view(key), keys_alike());
                    }
                    n += 1;
                }
            }
            i += 1;
        }
        n
    }

    /// Whether a subject still has a key. The reserved secret is not a subject.
    pub fn subject_key_exists(&self, field: &str, value: &str) -> (r: bool)
        ensures
            r == (field@ != GLOBAL_SUBJECT_FIELD@ && place_of(self.keys(), key_of(field@, value@)) is Some),
            r == has_key(self.keys(), field@, value@),
    {
        if same(field, GLOBAL_SUBJECT_FIELD) {
            return false;
        }
        self.find_key(field, value).is_some()
    }
}

/// By field, then by value.
pub open spec fn key_order() -> spec_fn(KeyView, KeyView) -> bool {
    |a: KeyView, b: KeyView|
        if a.field == b.field {
            precedes(a.value, b.value)
        } else {
            precedes(a.field, b.field)
        }
}

impl Ranked for SubjectKey {
    open spec fn ranks_before(self, other: SubjectKey) -> bool {
        key_order()(key_view(self), key_view(other))
    }

    fn is_before(&self, other: &SubjectKey) -> (r: bool) {
        if same(&self.subject_field, &other.subject_field) {
            crate::text::is_before(&self.subject_value, &other.subject_value)
        } else {
            crate::text::is_before(&self.subject_field, &other.subject_field)
        }
    }
}

/// A subject's key behind a place in the inventory.
pub open spec fn listed_after(after: Option<(Seq<char>, Seq<char>)>) -> spec_fn(KeyView) -> bool {
    |k: KeyView|
        k.field != GLOBAL_SUBJECT_FIELD@ && match after {
            Some(last) => precedes(last.0, k.field) || (k.field == last.0 && precedes(last.1, k.value)),
            None => true,
        }
}

pub open spec fn pair_view(pair: Option<(&str, &str)>) -> Option<(Seq<char>, Seq<char>)> {
    match pair {
        Some(inner) => Some((inner.0@, inner.1@)),
        None => None,
    }
}

pub open spec fn key_views(keys: Seq<SubjectKey>) -> Seq<KeyView> {
    keys.map_values(|k: SubjectKey| key_view(k))
}

impl OpDb {
    /// Every master that some key is wrapped under, each once.
    pub fn distinct_master_key_ids(&self) -> (r: Vec<String>)
        ensures
            views(r@) == distinct(self.keys().map_values(|k: KeyView| k.master)),
    {
        let mut all: Vec<String> = Vec::new();
        let mut i: usize = 0;
        while i < self.subject_keys.len()
            invariant
                i <= self.subject_keys.len(),
                all.len() == i,
                forall|k: int| 0 <= k < i ==> (#[trigger] all@[k])@ == self.subject_keys@[k].master_key_id@,
            decreases self.subject_keys.len() - i,
        {
            all.push(self.subject_keys[i].master_key_id.clone());
            i += 1;
        }
        assert(views(all@) =~= self.keys().map_values(|k: KeyView| k.master));
        distinct_texts(&all)
    }

    /// How many live keys each subject field has, by field. The reserved secret is not
    /// counted.
    pub fn subject_key_counts(&self) -> (r: Vec<(String, u64)>)
        ensures
            ({
                let subjects = picked(self.keys(), listed_after(None));
                let fields = sorted(
                    distinct(subjects.map_values(|k: KeyView| k.field)),
                    crate::order::text_order(),
                );
                &&& r.len() == fields.len()
                &&& forall|i: int|
                    0 <= i < r.len() ==> (#[trigger] r@[i]).0@ == fields[i] && r@[i].1 == picked(
                        subjects,
                        |k: KeyView| k.field == fields[i],
                    ).len()
            }),
            r@.map_values(|row: (String, u64)| row.0@) == key_fields(self.keys()),
            forall|i: int| 0 <= i < r.len() ==> (#[trigger] r@[i]).1 == key_count(self.keys(), r@[i].0@),
    {
        let subjects = self.subjects_after(None);
        let ghost list = key_views(subjects@);
        let mut names: Vec<String> = Vec::new();
        let mut i: usize = 0;
        while i < subjects.len()
            invariant
                i <= subjects.len(),
                names.len() == i,
                forall|k: int| 0 <= k < i ==> (#[trigger] names@[k])@ == subjects@[k].subject_field@,
            decreases subjects.len() - i,
        {
            names.push(subjects[i].subject_field.clone());
            i += 1;
        }
        assert(views(names@) =~= list.map_values(|k: KeyView| k.field));
        let fields = crate::order::sort_texts(distinct_texts(&names));
        let ghost wanted = sorted(
            distinct(list.map_values(|k: KeyView| k.field)),
            crate::order::text_order(),
        );
        let mut out: Vec<(String, u64)> = Vec::new();
        let mut i: usize = 0;
        while i < fields.len()
            invariant
                i <= fields.len(),
                out.len() == i,
                list == key_views(subjects@),
                views(fields@) == wanted,
                forall|k: int|
                    0 <= k < i ==> (#[trigger] out@[k]).0@ == wanted[k] && out@[k].1 == picked(
                        list,
                        |v: KeyView| v.field == wanted[k],
                    ).len(),
            decreases fields.len() - i,
        {
            let field = &fields[i];
            assert(wanted[i as int] == field@);
            let ghost own = |v: KeyView| v.field == wanted[i as int];
            let mut n: u64 = 0;
            let mut j: usize = 0;
            assert(list.take(0) =~= Seq::empty());
            while j < subjects.len()
                invariant
                    j <= subjects.len(),
                    n <= j,
                    list == key_views(subjects@),
                    own == (|v: KeyView| v.field == wanted[i as int]),
                    wanted[i as int] == field@,
                    n == picked(list.take(j as int), own).len(),
                decreases subjects.len() - j,
            {
                assert(list.take(j as int + 1).drop_last() =~= list.take(j as int));
                assert(list.take(j as int + 1).last() == key_view(subjects@[j as int]));
                if same(&subjects[j].subject_field, field) {
                    n += 1;
                }
                j += 1;
            }
            assert(list.take(j as int) =~= list);
            out.push((field.clone(), n));
            i += 1;
        }
        out
    }

    /// The keys behind a place in the inventory, as they stand in the table.
    fn subjects_after(&self, after: Option<(&str, &str)>) -> (r: Vec<SubjectKey>)
        ensures
            key_views(r@) == picked(self.keys(), listed_after(pair_view(after))),
    {
        let mut rows: Vec<SubjectKey> = Vec::new();
        let ghost all = self.keys();
        let ghost wanted = listed_after(pair_view(after));
        let mut i: usize = 0;
        assert(all.take(0) =~= Seq::empty());
        assert(key_views(rows@) =~= Seq::empty());
        while i < self.subject_keys.len()
            invariant
                i <= self.subject_keys.len(),
                all == self.keys(),
                wanted == listed_after(pair_view(after)),
                key_views(rows@) == picked(all.take(i as int), wanted),
            decreases self.subject_keys.len() - i,
        {
            let key = &self.subject_keys[i];
            assert(all.take(i as int + 1).drop_last() =~= all.take(i as int));
            assert(all.take(i as int + 1).last() == key_view(*key));
            let behind = match after {
                Some(last) => crate::text::is_before(last.0, &key.subject_field) || (same(
                    &key.subject_field,
                    last.0,
                ) && crate::text::is_before(last.1, &key.subject_value)),
                None => true,
            };
            if behind && !same(&key.subject_field, GLOBAL_SUBJECT_FIELD) {
                let ghost had = key_views(rows@);
                let copy = copy_key(key);
                rows.push(copy);
                assert(key_views(rows@) =~= had.push(key_view(copy)));
            }
            i += 1;
        }
        assert(all.take(i as int) =~= all);
        rows
    }

    /// One page of live subject keys by field and value, never the key material. `after`
    /// is the last pair of the page before.
    pub fn subject_keys_page(&self, after: Option<(&str, &str)>, limit: usize) -> (r: Vec<SubjectInfo>)
        ensures
            ({
                let found = at_most(
                    sorted(picked(self.keys(), listed_after(pair_view(after))), key_order()),
                    limit,
                );
                &&& r.len() == found.len()
                &&& forall|i: int|
                    0 <= i < r.len() ==> {
                        &&& (#[trigger] r@[i]).subject_field@ == found[i].field
                        &&& r@[i].subject_value@ == found[i].value
                        &&& r@[i].master_key_id@ == found[i].master
                        &&& r@[i].created_at@ == found[i].created_at
                    }
            }),
            r@.map_values(
                |row: SubjectInfo|
                    (row.subject_field@, row.subject_value@, row.master_key_id@, row.created_at@),
            ) == keys_page(self.keys(), pair_view(after), limit).map_values(
                |k: KeyView| (k.field, k.value, k.master, k.created_at),
            ),
    {
        let rows = self.subjects_after(after);
        proof {
            lemma_sorted_map(
                rows@,
                |k: SubjectKey| key_view(k),
                |a: SubjectKey, b: SubjectKey| a.ranks_before(b),
                key_order(),
            );
        }
        let found = sort(rows);
        let ghost list = key_views(found@);
        let n: usize = if limit < found.len() { limit } else { found.len() };
        let mut out: Vec<SubjectInfo> = Vec::new();
        let mut i: usize = 0;
        while i < n
            invariant
                i <= n <= found.len(),
                out.len() == i,
                list == key_views(found@),
                forall|k: int|
                    0 <= k < i ==> {
                        &&& (#[trigger] out@[k]).subject_field@ == list[k].field
                        &&& out@[k].subject_value@ == list[k].value
                        &&& out@[k].master_key_id@ == list[k].master
                        &&& out@[k].created_at@ == list[k].created_at
                    },
            decreases n - i,
        {
            let key = &found[i];
            assert(list[i as int] == key_view(*key));
            out.push(
                SubjectInfo {
                    subject_field: key.subject_field.clone(),
                    subject_value: key.subject_value.clone(),
                    master_key_id: key.master_key_id.clone(),
                    created_at: key.created_at.clone(),
                },
            );
            i += 1;
        }
        out
    }
}

/// An erased subject is the same as one that never had a key, and rewrapping does not
/// bring it back.
pub proof fn law_rewrapping_creates_no_key(keys: Seq<KeyView>, updates: Seq<RewrapUpdate>, upto: nat)
    requires
        upto <= updates.len(),
    ensures
        rewrapped(keys, updates, upto).0.len() == keys.len(),
        rewrapped(keys, updates, upto).1 <= upto,
        forall|i: int|
            0 <= i < keys.len() ==> (#[trigger] rewrapped(keys, updates, upto).0[i]).field == keys[i].field
                && rewrapped(keys, updates, upto).0[i].value == keys[i].value,
    decreases upto,
{
    if upto > 0 {
        law_rewrapping_creates_no_key(keys, updates, (upto - 1) as nat);
        let now = rewrapped(keys, updates, (upto - 1) as nat).0;
        let update = updates[upto - 1];
        lemma_place(now, key_of(update.subject_field@, update.subject_value@));
    }
}

/// A key that is not under the master that a rewrap expects keeps its secret.
pub proof fn law_a_stale_rewrap_is_skipped(keys: Seq<KeyView>, update: RewrapUpdate)
    requires
        place_of(keys, key_of(update.subject_field@, update.subject_value@)) matches Some(at)
            ==> keys[at].master != update.expected_master_id@,
    ensures
        rewrapped(keys, seq![update], 1) == (keys, 0nat),
{
    reveal_with_fuel(rewrapped, 2);
}

// ---------------------------------------------------------------------------
// Statements and migrations
// ---------------------------------------------------------------------------

/// A position as a signed column holds it: one that does not fit saturates, which is the
/// bound that was meant.
pub fn clamp_i64(value: u64) -> (r: i64)
    ensures
        r == if value <= i64::MAX {
            value as int
        } else {
            i64::MAX as int
        },
        r == clamped(value),
{
    if value <= 0x7fff_ffff_ffff_ffff {
        value as i64
    } else {
        i64::MAX
    }
}

/// Numbered parameters from `from` on, as many as `n`.
pub open spec fn numbered(from: nat, n: nat) -> Seq<Seq<char>> {
    Seq::new(n, |i: int| "?"@ + decimal((from + i) as nat))
}

/// The statement that joins effects with positions.
pub open spec fn join_sql(effects: nat, positions: nat) -> Seq<char> {
    "SELECT effect, position, status FROM effect_invocation WHERE effect IN ("@
        + crate::text::joined(numbered(1, effects), ", "@) + ") AND position IN ("@
        + crate::text::joined(numbered((1 + effects) as nat, positions), ", "@) + ") LIMIT "@
        + crate::text::joined(numbered((1 + effects + positions) as nat, 1), ", "@)
}

fn placeholders(from: usize, n: usize) -> (r: String)
    requires
        from + n <= usize::MAX,
    ensures
        r@ == crate::text::joined(numbered(from as nat, n as nat), ", "@),
{
    let mut list: Vec<String> = Vec::new();
    let mut i: usize = 0;
    while i < n
        invariant
            i <= n,
            from + n <= usize::MAX,
            list.len() == i,
            forall|k: int| 0 <= k < i ==> (#[trigger] list@[k])@ == "?"@ + decimal((from + k) as nat),
        decreases n - i,
    {
        let mut one = "?".to_owned();
        one.append(&crate::text::count(from + i));
        list.push(one);
        i += 1;
    }
    assert(views(list@) =~= numbered(from as nat, n as nat));
    crate::text::join(&list, ", ")
}

/// The statement that joins as many effects with as many positions. Both columns are
/// constrained, so that it reads the table by its key rather than walking it.
pub fn invocations_at_sql(effects: usize, positions: usize) -> (r: String)
    requires
        effects + positions + 2 <= usize::MAX,
    ensures
        r@ == join_sql(effects as nat, positions as nat),
{
    let mut out =
        "SELECT effect, position, status FROM effect_invocation WHERE effect IN (".to_owned();
    out.append(&placeholders(1, effects));
    out.append(") AND position IN (");
    out.append(&placeholders(1 + effects, positions));
    out.append(") LIMIT ");
    out.append(&placeholders(1 + effects + positions, 1));
    out
}

/// The first schema: effect invocations, the journal of their calls, and what is deployed.
pub const SCHEMA_V1: &'static str = "
-- One effect invocation: an effect reacting to a single event position. The
-- recorded script hash lets a restart warn when in-flight code changed under it.
CREATE TABLE effect_invocation (
    effect       TEXT    NOT NULL,
    position     INTEGER NOT NULL,  -- tephra position of the triggering event
    script_hash  TEXT    NOT NULL,
    status       TEXT    NOT NULL,  -- 'running' | 'terminal'
    created_at   TEXT    NOT NULL,
    completed_at TEXT,              -- set once terminal, drives the sweeper
    PRIMARY KEY (effect, position)
);

-- The journal of side-effect calls within an invocation, keyed by the content
-- hash of the call plus a disambiguator for legitimately-identical repeats, so
-- editing or reordering the script does not corrupt replay.
CREATE TABLE effect_journal (
    effect        TEXT    NOT NULL,
    position      INTEGER NOT NULL,
    call_hash     TEXT    NOT NULL,
    disambiguator INTEGER NOT NULL DEFAULT 0,
    result        TEXT    NOT NULL,  -- JSON of the recorded call result
    created_at    TEXT    NOT NULL,
    PRIMARY KEY (effect, position, call_hash, disambiguator),
    FOREIGN KEY (effect, position) REFERENCES effect_invocation (effect, position)
);

-- What is deployed: one row per loaded module, its source hash and kind. Lets a
-- restart detect changed modules and anchors future version pinning.
CREATE TABLE module_metadata (
    name        TEXT NOT NULL,
    kind        TEXT NOT NULL,
    source_hash TEXT NOT NULL,
    loaded_at   TEXT NOT NULL,
    PRIMARY KEY (name, kind)
);
";

/// Adds each effect's durable cursor, and lets the journal go with its invocation.
pub const SCHEMA_V2: &'static str = "
-- The effect's durable resume point: the watermark position it has processed
-- every matching event up to. Advanced only once a batch is fully terminal, so a
-- crash resumes by re-scanning from the last completed batch, never skipping.
CREATE TABLE effect_cursor (
    effect    TEXT    NOT NULL PRIMARY KEY,
    watermark INTEGER NOT NULL
);

DROP TABLE effect_journal;
CREATE TABLE effect_journal (
    effect        TEXT    NOT NULL,
    position      INTEGER NOT NULL,
    call_hash     TEXT    NOT NULL,
    disambiguator INTEGER NOT NULL DEFAULT 0,
    result        TEXT    NOT NULL,  -- JSON of the recorded call result
    created_at    TEXT    NOT NULL,
    PRIMARY KEY (effect, position, call_hash, disambiguator),
    FOREIGN KEY (effect, position) REFERENCES effect_invocation (effect, position)
        ON DELETE CASCADE
);
";

/// Adds the per-subject keys behind field-level erasure.
pub const SCHEMA_V3: &'static str = "
CREATE TABLE subject_key (
    subject_field TEXT NOT NULL,
    subject_value TEXT NOT NULL,
    wrapped_key   BLOB NOT NULL,  -- AEAD-wrapped subject secret (nonce || ciphertext)
    master_key_id TEXT NOT NULL,  -- which master wrapped this row
    created_at    TEXT NOT NULL DEFAULT (strftime('%Y-%m-%dT%H:%M:%fZ', 'now')),
    PRIMARY KEY (subject_field, subject_value)
);
-- The boot-time master check and a rotation both group by master_key_id, which the
-- primary key does not cover; this keeps those from full-scanning subject_key.
CREATE INDEX subject_key_by_master ON subject_key (master_key_id);
";

/// Adds durable quarantines.
pub const SCHEMA_V4: &'static str = "
-- A verify-mode quarantine. Durable because the whole point is that it does not
-- clear on its own: an in-memory flag would be wiped by the restart that a wedged
-- effect invites, and the effect would resume as if nothing had been found.
CREATE TABLE effect_quarantine (
    effect   TEXT    NOT NULL PRIMARY KEY,
    position INTEGER NOT NULL,  -- where the invariant broke
    reason   TEXT    NOT NULL,
    at       TEXT    NOT NULL DEFAULT (strftime('%Y-%m-%dT%H:%M:%fZ', 'now'))
);
";

/// Records which builtin a journaled call came from. Rows written before read NULL.
pub const SCHEMA_V5: &'static str = "
ALTER TABLE effect_journal ADD COLUMN kind TEXT;
";

/// Replaces what is deployed by one row per version of a declaration.
pub const SCHEMA_V6: &'static str = "
DROP TABLE module_metadata;

CREATE TABLE declaration (
    kind           TEXT    NOT NULL,  -- event|enum|record|function|command|projector|effect
    name           TEXT    NOT NULL,  -- heklang's entry name, verbatim (an event keeps its `@`)
    hash           TEXT    NOT NULL,  -- what this declaration does
    signature_hash TEXT,              -- what of it is visible outside; NULL for a `fn`
    form           TEXT    NOT NULL,  -- the packed digest line, which reads back
    signature      TEXT,
    -- The file it was declared in. Outside the digest's identity on purpose: heklang
    -- treats a module as a label, so moving a declaration updates this and moves no hash.
    module         TEXT,
    first_seen     TEXT    NOT NULL,
    last_seen      TEXT    NOT NULL,
    -- Whether this is the version the running process loaded. Exactly one row per
    -- (kind, name) carries it, and `WHERE current = 1` is the deployed inventory.
    current        INTEGER NOT NULL DEFAULT 0,
    PRIMARY KEY (kind, name, hash)
);
CREATE INDEX declaration_current ON declaration (current, kind, name);
";

/// Records that an operator skipped an invocation. Rows written before read NULL.
pub const SCHEMA_V7: &'static str = "
ALTER TABLE effect_invocation ADD COLUMN skipped_at TEXT;
";

/// Why a database cannot be brought to this build's schema.
pub open spec fn migration_error(version: i64) -> Option<Seq<char>> {
    if version > SCHEMA_VERSION {
        Some(
            "operational database is at schema version "@ + signed_decimal(version as int)
                + ", newer than this build ("@ + signed_decimal(SCHEMA_VERSION as int) + ")"@,
        )
    } else if version < 0 {
        Some("no migration from schema version "@ + signed_decimal(version as int))
    } else {
        None
    }
}

/// The statements that take a database from one version to the next.
pub open spec fn migration_of(version: i64) -> Option<&'static str> {
    if version == 0 {
        Some(SCHEMA_V1)
    } else if version == 1 {
        Some(SCHEMA_V2)
    } else if version == 2 {
        Some(SCHEMA_V3)
    } else if version == 3 {
        Some(SCHEMA_V4)
    } else if version == 4 {
        Some(SCHEMA_V5)
    } else if version == 5 {
        Some(SCHEMA_V6)
    } else if version == 6 {
        Some(SCHEMA_V7)
    } else {
        None
    }
}

/// The statements that take a database from its version to the next one, which is run in
/// a transaction of its own together with recording that version. Nothing where it is at
/// this build's version. A database of a newer build is not touched.
pub fn migrate(version: i64) -> (r: Result<Option<&'static str>, String>)
    ensures
        match r {
            Ok(step) => migration_error(version) is None && step == migration_of(version) && (
            step is None <==> version == SCHEMA_VERSION),
            Err(message) => migration_error(version) == Some(message@),
        },
{
    if version > SCHEMA_VERSION {
        let mut message = "operational database is at schema version ".to_owned();
        message.append(&signed_number(version));
        message.append(", newer than this build (");
        message.append(&signed_number(SCHEMA_VERSION));
        message.append(")");
        return Err(message);
    }
    if version == 0 {
        Ok(Some(SCHEMA_V1))
    } else if version == 1 {
        Ok(Some(SCHEMA_V2))
    } else if version == 2 {
        Ok(Some(SCHEMA_V3))
    } else if version == 3 {
        Ok(Some(SCHEMA_V4))
    } else if version == 4 {
        Ok(Some(SCHEMA_V5))
    } else if version == 5 {
        Ok(Some(SCHEMA_V6))
    } else if version == 6 {
        Ok(Some(SCHEMA_V7))
    } else if version == SCHEMA_VERSION {
        Ok(None)
    } else {
        let mut message = "no migration from schema version ".to_owned();
        message.append(&signed_number(version));
        Err(message)
    }
}

} // verus!
