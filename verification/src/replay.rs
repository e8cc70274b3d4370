//! Re-running recorded effect invocations against a candidate: which effects are looked
//! at, what is asked of the record next, and how much of it the answer speaks for.

use vstd::prelude::*;

use crate::digest::{kind_of, reveals, uses, Entry, Kind};
use crate::opdb::DeclarationRow;
use crate::order::{lemma_sorted_keeps, sort, sorted, Ranked};
use crate::text::{option_view, precedes, same, views};

verus! {

/// How many recorded invocations of one effect a replay covers unless told otherwise.
pub const DEFAULT_REPLAY_LIMIT: u32 = 1000;

/// Whether to re-run recorded effect invocations.
#[derive(Debug, Clone, Copy, PartialEq, Eq, Structural)]
pub enum Replay {
    /// Declaration diff and rebuild forecast only.
    Off,
    On {
        /// The most recent invocations of each effect to replay.
        limit: usize,
    },
}

/// Why nothing can be concluded about an invocation.
#[derive(Debug, Clone, Copy, PartialEq, Eq, Structural)]
pub enum Uncovered {
    /// It journaled no call, and the candidate reaches one.
    NoJournal,
    /// An operator skipped it.
    OperatorSkipped,
    /// Its record could not be read.
    Unreadable,
    /// Its subject's key has been erased.
    SubjectErased,
    /// Retention took its record while the replay ran.
    Reclaimed,
}

/// What came of replaying one invocation.
pub struct Replayed {
    /// The word for the outcome.
    pub label: String,
    /// The outcome in a sentence.
    pub detail: String,
    /// Whether the candidate does what was recorded.
    pub reproduces: bool,
    /// Why nothing can be concluded, where nothing can.
    pub uncovered: Option<Uncovered>,
}

/// One recorded invocation that the candidate would not reproduce.
pub struct Divergence {
    pub effect: String,
    /// The log position of the event that triggered the recorded run.
    pub position: u64,
    pub outcome: Replayed,
}

/// The order of divergences: by effect, then by position.
pub open spec fn divergence_before(a: Divergence, b: Divergence) -> bool {
    if a.effect@ == b.effect@ {
        a.position < b.position
    } else {
        precedes(a.effect@, b.effect@)
    }
}

impl Ranked for Divergence {
    open spec fn ranks_before(self, other: Divergence) -> bool {
        divergence_before(self, other)
    }

    fn is_before(&self, other: &Divergence) -> (r: bool) {
        if same(&self.effect, &other.effect) {
            self.position < other.position
        } else {
            crate::text::is_before(&self.effect, &other.effect)
        }
    }
}

/// How much of the recorded history a replay spoke for, so that a reader can tell that
/// nothing would change from that nothing was looked at.
pub struct Coverage {
    /// Effects whose behaviour the candidate could have moved.
    pub effects_affected: usize,
    /// Invocations that the replay reached a conclusion about.
    pub replayed: usize,
    /// Of those, the ones that the candidate reproduces exactly.
    pub reproduced: usize,
    /// Invocations whose subject key has been erased.
    pub subject_erased: usize,
    /// Invocations that journaled no call, where the candidate reaches one, recorded
    /// before a row could say whether an operator skipped it.
    pub no_journal: usize,
    /// Invocations that an operator skipped.
    pub operator_skipped: usize,
    /// Invocations whose record could not be read.
    pub unreadable: usize,
    /// Effects whose recorded history could not be listed at all.
    pub unreadable_history: Vec<String>,
    /// Why the replay could not be started, where it could not.
    pub unavailable: Option<String>,
    /// Invocations that retention reclaimed while the replay ran.
    pub reclaimed: usize,
    /// Invocations of an effect that reveals, where no usable master key is configured.
    pub no_master_key: usize,
    /// Why the configured master key could not be used, where one was configured.
    pub unusable_master_key: Option<String>,
    /// Effects whose history is longer than `limit`.
    pub truncated: Vec<String>,
    /// The cap on the invocations of one effect.
    pub limit: usize,
    /// For how many days the candidate project keeps journals.
    pub horizon_days: u32,
}

impl Coverage {
    /// The coverage of a replay that has looked at nothing yet.
    pub fn none(horizon_days: u32, limit: usize) -> (r: Coverage)
        ensures
            is_untouched(r, horizon_days, limit),
    {
        let empty: Vec<String> = Vec::new();
        let none: Vec<String> = Vec::new();
        assert(views(empty@) =~= Seq::empty());
        assert(views(none@) =~= Seq::empty());
        Coverage {
            effects_affected: 0,
            replayed: 0,
            reproduced: 0,
            subject_erased: 0,
            no_journal: 0,
            operator_skipped: 0,
            unreadable: 0,
            unreadable_history: empty,
            unavailable: None,
            reclaimed: 0,
            no_master_key: 0,
            unusable_master_key: None,
            truncated: none,
            limit,
            horizon_days,
        }
    }

    /// Whether the replay concluded nothing at all.
    pub fn is_blind(&self) -> (r: bool)
        ensures
            r == (self.replayed == 0),
    {
        self.replayed == 0
    }
}

/// Whether a coverage counts nothing.
pub open spec fn is_untouched(coverage: Coverage, horizon_days: u32, limit: usize) -> bool {
    &&& coverage.effects_affected == 0
    &&& coverage.replayed == 0
    &&& coverage.reproduced == 0
    &&& coverage.subject_erased == 0
    &&& coverage.no_journal == 0
    &&& coverage.operator_skipped == 0
    &&& coverage.unreadable == 0
    &&& views(coverage.unreadable_history@) == Seq::<Seq<char>>::empty()
    &&& coverage.unavailable is None
    &&& coverage.reclaimed == 0
    &&& coverage.no_master_key == 0
    &&& coverage.unusable_master_key is None
    &&& views(coverage.truncated@) == Seq::<Seq<char>>::empty()
    &&& coverage.limit == limit
    &&& coverage.horizon_days == horizon_days
}

// ---------------------------------------------------------------------------
// Which effects have a history to replay
// ---------------------------------------------------------------------------

/// An effect whose history is replayed: its name, the hash it is running under, and
/// whether it reveals.
pub struct Affected {
    pub name: String,
    pub script_hash: String,
    pub reveals: bool,
}

pub open spec fn affected_view(effect: Affected) -> (Seq<char>, Seq<char>, bool) {
    (effect.name@, effect.script_hash@, effect.reveals)
}

pub open spec fn affected_views(effects: Seq<Affected>) -> Seq<(Seq<char>, Seq<char>, bool)> {
    effects.map_values(|e: Affected| affected_view(e))
}

/// The hash an effect is running under: that of the last recorded row of its name.
pub open spec fn running_hash(recorded: Seq<DeclarationRow>, name: Seq<char>) -> Option<Seq<char>>
    decreases recorded.len(),
{
    if recorded.len() == 0 {
        None
    } else if kind_of(recorded.last().kind@) == Some(Kind::Effect) && recorded.last().name@ == name {
        Some(recorded.last().hash@)
    } else {
        running_hash(recorded.drop_last(), name)
    }
}

/// The hash an effect is running under, which is the only baseline that a replay may use.
pub fn deployed_hash(recorded: &Vec<DeclarationRow>, name: &str) -> (r: Option<String>)
    ensures
        option_view(r) == running_hash(recorded@, name@),
{
    let mut i: usize = recorded.len();
    assert(recorded@.take(i as int) =~= recorded@);
    while i > 0
        invariant
            i <= recorded.len(),
            running_hash(recorded@.take(i as int), name@) == running_hash(recorded@, name@),
        decreases i,
    {
        assert(recorded@.take(i as int).drop_last() =~= recorded@.take(i as int - 1));
        assert(recorded@.take(i as int).last() == recorded@[i as int - 1]);
        i -= 1;
        let is_effect = match Kind::lookup(&recorded[i].kind) {
            Some(kind) => kind == Kind::Effect,
            None => false,
        };
        if is_effect && same(&recorded[i].name, name) {
            return Some(recorded[i].hash.clone());
        }
    }
    None
}

/// The affected effects that are deployed. One that this deploy adds has no history.
pub open spec fn with_history(
    entries: Seq<Entry>,
    effects: Seq<Seq<char>>,
    affected: Seq<(usize, usize)>,
    recorded: Seq<DeclarationRow>,
) -> Seq<(Seq<char>, Seq<char>, bool)>
    decreases affected.len(),
{
    if affected.len() == 0 {
        Seq::empty()
    } else {
        let rest = with_history(entries, effects, affected.drop_last(), recorded);
        let (effect, entry) = affected.last();
        let name = effects[effect as int];
        match running_hash(recorded, name) {
            Some(hash) => rest.push((name, hash, uses(entries[entry as int].form, "reveal"@))),
            None => rest,
        }
    }
}

/// The affected effects that are deployed, with the hash each is running under.
pub fn replayable(
    entries: &Vec<Entry>,
    effects: &Vec<String>,
    affected: &Vec<(usize, usize)>,
    recorded: &Vec<DeclarationRow>,
) -> (r: Vec<Affected>)
    requires
        forall|i: int|
            0 <= i < affected.len() ==> (#[trigger] affected@[i]).0 < effects.len() && affected@[i].1
                < entries.len(),
    ensures
        affected_views(r@) == with_history(entries@, views(effects@), affected@, recorded@),
{
    let mut out: Vec<Affected> = Vec::new();
    let mut i: usize = 0;
    assert(affected@.take(0) =~= Seq::empty());
    assert(affected_views(out@) =~= Seq::empty());
    while i < affected.len()
        invariant
            i <= affected.len(),
            forall|i: int|
                0 <= i < affected.len() ==> (#[trigger] affected@[i]).0 < effects.len()
                    && affected@[i].1 < entries.len(),
            affected_views(out@) == with_history(
                entries@,
                views(effects@),
                affected@.take(i as int),
                recorded@,
            ),
        decreases affected.len() - i,
    {
        assert(affected@.take(i as int + 1).drop_last() =~= affected@.take(i as int));
        assert(affected@.take(i as int + 1).last() == affected@[i as int]);
        let (effect, entry) = affected[i];
        assert(views(effects@)[effect as int] == effects@[effect as int]@);
        if let Some(hash) = deployed_hash(recorded, &effects[effect]) {
            let ghost had = affected_views(out@);
            let one = Affected {
                name: effects[effect].clone(),
                script_hash: hash,
                reveals: reveals(&entries[entry].form),
            };
            out.push(one);
            assert(affected_views(out@) =~= had.push(affected_view(one)));
        }
        i += 1;
    }
    assert(affected@.take(i as int) =~= affected@);
    out
}

// ---------------------------------------------------------------------------
// The replay
// ---------------------------------------------------------------------------

/// What the replay asks for next.
#[derive(Debug, Clone, Copy, PartialEq, Eq, Structural)]
pub enum Step {
    /// Count all terminal invocations of an effect that is not replayed.
    Count { effect: usize },
    /// List the most recent terminal invocations of an effect, at most `limit` of them,
    /// newest first.
    List { effect: usize, limit: usize },
    /// Replay one invocation.
    Replay { effect: usize, position: u64 },
    /// Nothing: every effect has been looked at.
    Done,
}

/// A replay under way.
pub struct Replaying {
    pub effects: Vec<Affected>,
    /// Whether a usable master key is configured.
    pub has_key: bool,
    /// The effect that is being looked at.
    pub at: usize,
    /// Its invocations to replay, once they are listed.
    pub positions: Vec<u64>,
    /// How many of them have been replayed.
    pub next: usize,
    pub coverage: Coverage,
    pub divergences: Vec<Divergence>,
}

/// What holds of a replay at every point: what is listed and not yet replayed belongs to
/// the effect that is being looked at, no more is replayed of an effect than the cap, and
/// every conclusion is either a reproduction or a divergence.
pub open spec fn replay_holds(replay: Replaying) -> bool {
    &&& replay.at <= replay.effects.len()
    &&& replay.next <= replay.positions.len()
    &&& replay.next < replay.positions.len() ==> replay.at < replay.effects.len()
    &&& replay.positions.len() <= replay.coverage.limit
    &&& replay.coverage.effects_affected == replay.effects.len()
    &&& replay.coverage.reproduced + replay.divergences.len() == replay.coverage.replayed
}

/// Whether the counters can go on counting.
pub open spec fn has_room(coverage: Coverage) -> bool {
    &&& coverage.replayed < usize::MAX
    &&& coverage.subject_erased < usize::MAX
    &&& coverage.no_journal < usize::MAX
    &&& coverage.operator_skipped < usize::MAX
    &&& coverage.unreadable < usize::MAX
    &&& coverage.reclaimed < usize::MAX
}

/// What a replay asks for next: an effect that reveals, without a key to reveal with, is
/// only counted. Decided from its form rather than from the failure, which would look
/// like a divergence.
pub open spec fn next_step(replay: Replaying) -> Step {
    if replay.next < replay.positions.len() {
        Step::Replay { effect: replay.at, position: replay.positions@[replay.next as int] }
    } else if replay.at >= replay.effects.len() {
        Step::Done
    } else if !replay.has_key && replay.effects@[replay.at as int].reveals {
        Step::Count { effect: replay.at }
    } else {
        Step::List {
            effect: replay.at,
            limit: if replay.coverage.limit < usize::MAX {
                (replay.coverage.limit + 1) as usize
            } else {
                usize::MAX
            },
        }
    }
}

/// The name of the effect that is being looked at.
pub open spec fn current_name(replay: Replaying) -> Seq<char> {
    replay.effects@[replay.at as int].name@
}

/// What of a replay only its steps forward change.
pub open spec fn same_effects(a: Replaying, b: Replaying) -> bool {
    a.effects == b.effects && a.has_key == b.has_key
}

/// Whether two coverages agree but for the numbers of invocations.
pub open spec fn same_setting(a: Coverage, b: Coverage) -> bool {
    &&& a.effects_affected == b.effects_affected
    &&& a.unavailable == b.unavailable
    &&& a.unusable_master_key == b.unusable_master_key
    &&& a.limit == b.limit
    &&& a.horizon_days == b.horizon_days
}

/// Whether two coverages count the same invocations.
pub open spec fn same_counts(a: Coverage, b: Coverage) -> bool {
    &&& a.replayed == b.replayed
    &&& a.reproduced == b.reproduced
    &&& a.subject_erased == b.subject_erased
    &&& a.no_journal == b.no_journal
    &&& a.operator_skipped == b.operator_skipped
    &&& a.unreadable == b.unreadable
    &&& a.reclaimed == b.reclaimed
    &&& a.no_master_key == b.no_master_key
}

/// The invocations to replay out of those that were listed: so many at most.
pub open spec fn kept_positions(listed: Seq<u64>, limit: usize) -> Seq<u64> {
    if listed.len() > limit {
        listed.take(limit as int)
    } else {
        listed
    }
}

/// Whether some of the invocations that were listed are left out.
pub open spec fn is_cut(listed: Seq<u64>, limit: usize) -> bool {
    listed.len() > limit
}

/// How one outcome moves each counter: replayed, reproduced, no journal, operator
/// skipped, unreadable, subject erased, reclaimed.
pub open spec fn counted_as(outcome: Replayed) -> (int, int, int, int, int, int, int) {
    match outcome.uncovered {
        Some(Uncovered::NoJournal) => (0, 0, 1, 0, 0, 0, 0),
        Some(Uncovered::OperatorSkipped) => (0, 0, 0, 1, 0, 0, 0),
        Some(Uncovered::Unreadable) => (0, 0, 0, 0, 1, 0, 0),
        Some(Uncovered::SubjectErased) => (0, 0, 0, 0, 0, 1, 0),
        Some(Uncovered::Reclaimed) => (0, 0, 0, 0, 0, 0, 1),
        None => if outcome.reproduces {
            (1, 1, 0, 0, 0, 0, 0)
        } else {
            (1, 0, 0, 0, 0, 0, 0)
        },
    }
}

impl Replaying {
    /// A replay of these effects.
    pub fn new(
        effects: Vec<Affected>,
        horizon_days: u32,
        limit: usize,
        has_key: bool,
        unusable_master_key: Option<String>,
    ) -> (r: Replaying)
        ensures
            replay_holds(r),
            r.effects == effects,
            r.has_key == has_key,
            r.at == 0,
            r.positions.len() == 0,
            r.divergences.len() == 0,
            r.coverage.effects_affected == effects.len(),
            option_view(r.coverage.unusable_master_key) == option_view(unusable_master_key),
            is_untouched(
                Coverage { effects_affected: 0, unusable_master_key: None, ..r.coverage },
                horizon_days,
                limit,
            ),
    {
        let mut coverage = Coverage::none(horizon_days, limit);
        coverage.effects_affected = effects.len();
        coverage.unusable_master_key = unusable_master_key;
        Replaying {
            effects,
            has_key,
            at: 0,
            positions: Vec::new(),
            next: 0,
            coverage,
            divergences: Vec::new(),
        }
    }

    /// What the replay asks for next.
    pub fn step(&self) -> (r: Step)
        requires
            replay_holds(*self),
        ensures
            r == next_step(*self),
    {
        if self.next < self.positions.len() {
            return Step::Replay { effect: self.at, position: self.positions[self.next] };
        }
        if self.at >= self.effects.len() {
            return Step::Done;
        }
        if !self.has_key && self.effects[self.at].reveals {
            return Step::Count { effect: self.at };
        }
        Step::List {
            effect: self.at,
            limit: if self.coverage.limit < usize::MAX {
                self.coverage.limit + 1
            } else {
                usize::MAX
            },
        }
    }

    /// Takes in how many invocations there are of an effect that is not replayed. A count
    /// that could not be read costs the effect its tally and nothing else.
    pub fn counted(&mut self, total: Option<usize>)
        requires
            replay_holds(*old(self)),
            next_step(*old(self)) is Count,
            total matches Some(n) ==> old(self).coverage.no_master_key + n <= usize::MAX,
        ensures
            replay_holds(*final(self)),
            same_effects(*final(self), *old(self)),
            final(self).at == old(self).at + 1,
            final(self).divergences == old(self).divergences,
            final(self).positions == old(self).positions,
            final(self).next == old(self).next,
            same_setting(final(self).coverage, old(self).coverage),
            final(self).coverage.truncated == old(self).coverage.truncated,
            match total {
                Some(n) => {
                    &&& final(self).coverage.no_master_key == old(self).coverage.no_master_key + n
                    &&& same_counts(
                        Coverage {
                            no_master_key: old(self).coverage.no_master_key,
                            ..final(self).coverage
                        },
                        old(self).coverage,
                    )
                    &&& final(self).coverage.unreadable_history
                        == old(self).coverage.unreadable_history
                },
                None => {
                    &&& same_counts(final(self).coverage, old(self).coverage)
                    &&& views(final(self).coverage.unreadable_history@) == views(
                        old(self).coverage.unreadable_history@,
                    ).push(current_name(*old(self)))
                },
            },
    {
        match total {
            Some(n) => {
                self.coverage.no_master_key = self.coverage.no_master_key + n;
            },
            None => {
                let name = self.effects[self.at].name.clone();
                let ghost had = views(self.coverage.unreadable_history@);
                self.coverage.unreadable_history.push(name);
                assert(views(self.coverage.unreadable_history@) =~= had.push(name@));
            },
        }
        self.at = self.at + 1;
    }

    /// Takes in the invocations that were listed of an effect, newest first. More than
    /// the cap means that its history is cut, and only the most recent ones are replayed.
    /// A list that could not be read costs the effect its history and nothing else.
    pub fn listed(&mut self, positions: Option<Vec<u64>>)
        requires
            replay_holds(*old(self)),
            next_step(*old(self)) is List,
        ensures
            replay_holds(*final(self)),
            same_effects(*final(self), *old(self)),
            final(self).divergences == old(self).divergences,
            same_setting(final(self).coverage, old(self).coverage),
            same_counts(final(self).coverage, old(self).coverage),
            match positions {
                None => {
                    &&& final(self).at == old(self).at + 1
                    &&& final(self).positions == old(self).positions
                    &&& final(self).next == old(self).next
                    &&& final(self).coverage.truncated == old(self).coverage.truncated
                    &&& views(final(self).coverage.unreadable_history@) == views(
                        old(self).coverage.unreadable_history@,
                    ).push(current_name(*old(self)))
                },
                Some(found) => {
                    let limit = old(self).coverage.limit;
                    &&& final(self).positions@ == if found.len() > limit {
                        found@.take(limit as int)
                    } else {
                        found@
                    }
                    &&& final(self).positions@ == kept_positions(found@, limit)
                    &&& is_cut(found@, limit) <==> final(self).coverage.truncated.len()
                        > old(self).coverage.truncated.len()
                    &&& final(self).next == 0
                    &&& final(self).at == if final(self).positions.len() == 0 {
                        old(self).at + 1
                    } else {
                        old(self).at as int
                    }
                    &&& views(final(self).coverage.truncated@) == if found.len() > limit {
                        views(old(self).coverage.truncated@).push(current_name(*old(self)))
                    } else {
                        views(old(self).coverage.truncated@)
                    }
                    &&& final(self).coverage.unreadable_history
                        == old(self).coverage.unreadable_history
                },
            },
    {
        match positions {
            None => {
                let name = self.effects[self.at].name.clone();
                let ghost had = views(self.coverage.unreadable_history@);
                self.coverage.unreadable_history.push(name);
                assert(views(self.coverage.unreadable_history@) =~= had.push(name@));
                self.at = self.at + 1;
            },
            Some(found) => {
                let mut kept = found;
                if kept.len() > self.coverage.limit {
                    let name = self.effects[self.at].name.clone();
                    let ghost had = views(self.coverage.truncated@);
                    self.coverage.truncated.push(name);
                    assert(views(self.coverage.truncated@) =~= had.push(name@));
                    kept.truncate(self.coverage.limit);
                    assert(kept@ =~= found@.take(self.coverage.limit as int));
                }
                if kept.len() == 0 {
                    self.at = self.at + 1;
                }
                self.positions = kept;
                self.next = 0;
            },
        }
    }

    /// Takes in what came of replaying one invocation.
    pub fn replayed(&mut self, outcome: Replayed)
        requires
            replay_holds(*old(self)),
            next_step(*old(self)) is Replay,
            has_room(old(self).coverage),
        ensures
            replay_holds(*final(self)),
            same_effects(*final(self), *old(self)),
            final(self).positions == old(self).positions,
            final(self).next == old(self).next + 1,
            final(self).at == if final(self).next == old(self).positions.len() {
                old(self).at + 1
            } else {
                old(self).at as int
            },
            same_setting(final(self).coverage, old(self).coverage),
            final(self).coverage.unreadable_history == old(self).coverage.unreadable_history,
            final(self).coverage.truncated == old(self).coverage.truncated,
            final(self).coverage.no_master_key == old(self).coverage.no_master_key,
            ({
                let by = counted_as(outcome);
                let was = old(self).coverage;
                let now = final(self).coverage;
                &&& now.replayed == was.replayed + by.0
                &&& now.reproduced == was.reproduced + by.1
                &&& now.no_journal == was.no_journal + by.2
                &&& now.operator_skipped == was.operator_skipped + by.3
                &&& now.unreadable == was.unreadable + by.4
                &&& now.subject_erased == was.subject_erased + by.5
                &&& now.reclaimed == was.reclaimed + by.6
            }),
            if outcome.uncovered is None && !outcome.reproduces {
                &&& final(self).divergences.len() == old(self).divergences.len() + 1
                &&& final(self).divergences@.drop_last() == old(self).divergences@
                &&& final(self).divergences@.last().effect@ == current_name(*old(self))
                &&& final(self).divergences@.last().position == old(self).positions@[old(
                    self,
                ).next as int]
                &&& final(self).divergences@.last().outcome == outcome
            } else {
                final(self).divergences == old(self).divergences
            },
    {
        let position: u64 = self.positions[self.next];
        match outcome.uncovered {
            Some(Uncovered::NoJournal) => {
                self.coverage.no_journal = self.coverage.no_journal + 1;
            },
            Some(Uncovered::OperatorSkipped) => {
                self.coverage.operator_skipped = self.coverage.operator_skipped + 1;
            },
            Some(Uncovered::Unreadable) => {
                self.coverage.unreadable = self.coverage.unreadable + 1;
            },
            Some(Uncovered::SubjectErased) => {
                self.coverage.subject_erased = self.coverage.subject_erased + 1;
            },
            Some(Uncovered::Reclaimed) => {
                self.coverage.reclaimed = self.coverage.reclaimed + 1;
            },
            None => {
                self.coverage.replayed = self.coverage.replayed + 1;
                if outcome.reproduces {
                    self.coverage.reproduced = self.coverage.reproduced + 1;
                } else {
                    let effect = self.effects[self.at].name.clone();
                    let ghost had = self.divergences@;
                    self.divergences.push(Divergence { effect, position, outcome });
                    assert(self.divergences@.drop_last() =~= had);
                }
            },
        }
        self.next = self.next + 1;
        if self.next == self.positions.len() {
            self.at = self.at + 1;
        }
    }

    /// What the replay found: the divergences by effect and position, and how much of the
    /// history they speak for.
    pub fn finish(self) -> (r: (Vec<Divergence>, Coverage))
        requires
            replay_holds(self),
        ensures
            r.0@ == sorted(self.divergences@, |a: Divergence, b: Divergence| divergence_before(a, b)),
            r.1 == self.coverage,
            r.1.reproduced + r.0.len() == r.1.replayed,
    {
        proof {
            let f = |a: Divergence, b: Divergence| a.ranks_before(b);
            let g = |a: Divergence, b: Divergence| divergence_before(a, b);
            assert(f =~= g);
            lemma_sorted_keeps(self.divergences@, g);
        }
        (sort(self.divergences), self.coverage)
    }
}

/// A replay that has looked at everything asks for nothing, and one that has not asks for
/// something.
pub proof fn law_a_replay_ends_with_its_effects(replay: Replaying)
    requires
        replay_holds(replay),
    ensures
        next_step(replay) is Done <==> replay.at == replay.effects.len(),
{
}

} // verus!
