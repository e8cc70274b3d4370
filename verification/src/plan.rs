//! What deploying a project would change, before it changes anything: which declarations
//! differ from what is deployed and why, what each projector would do on the next boot,
//! and which recorded effect invocations the candidate would not reproduce.

use vstd::prelude::*;

use crate::digest::{
    add_decl, decl_set, declarations_reaching, entry_decl, kind_of, kind_rank, tainted_by, Decl,
    DeclView, Entry, Kind,
};
use crate::edit::{edit_between, edit_order, is_list_before, line_edit, same_list, Edit};
use crate::opdb::DeclarationRow;
use crate::order::{lemma_sorted_contains, lemma_sorted_map, sort, sorted, Ranked};
use crate::program::{
    guards_of, inlined, likely_inline, name_set, reaches, Command, Guard, Program,
};
use crate::projector::{reconcile_from, reconciled, Reconcile};
use crate::text::{copied, copied_option, holds, option_view, precedes, same, views};

verus! {

// ---------------------------------------------------------------------------
// Types
// ---------------------------------------------------------------------------

/// How one declaration differs from what is deployed.
#[derive(Debug, Clone, Copy, PartialEq, Eq, Structural)]
pub enum Verdict {
    /// Not deployed at all.
    Added,
    /// Deployed, and gone from the candidate.
    Removed,
    /// It does something else behind a contract that did not move.
    Behaviour,
    /// What is visible from outside changed: a caller could notice.
    Contract,
}

pub open spec fn verdict_label(verdict: Verdict) -> Seq<char> {
    match verdict {
        Verdict::Added => "added"@,
        Verdict::Removed => "removed"@,
        Verdict::Behaviour => "behaviour"@,
        Verdict::Contract => "contract"@,
    }
}

impl Verdict {
    pub fn label(self) -> (r: &'static str)
        ensures
            r@ == verdict_label(self),
    {
        match self {
            Verdict::Added => "added",
            Verdict::Removed => "removed",
            Verdict::Behaviour => "behaviour",
            Verdict::Contract => "contract",
        }
    }
}

/// One declaration that would not survive the deploy unchanged.
pub struct Change {
    pub kind: Kind,
    pub name: String,
    pub verdict: Verdict,
    pub module: Option<String>,
    /// The deployed form, laid out over lines. Absent for an addition.
    pub before: Option<String>,
    /// The candidate form, laid out over lines. Absent for a removal.
    pub after: Option<String>,
}

pub struct ChangeView {
    pub kind: Kind,
    pub name: Seq<char>,
    pub verdict: Verdict,
    pub module: Option<Seq<char>>,
    pub before: Option<Seq<char>>,
    pub after: Option<Seq<char>>,
}

pub open spec fn change_view(change: Change) -> ChangeView {
    ChangeView {
        kind: change.kind,
        name: change.name@,
        verdict: change.verdict,
        module: option_view(change.module),
        before: option_view(change.before),
        after: option_view(change.after),
    }
}

pub open spec fn change_views(changes: Seq<Change>) -> Seq<ChangeView> {
    changes.map_values(|c: Change| change_view(c))
}

/// What booting this project would do to one projector's read model.
#[derive(Debug, Clone, Copy, PartialEq, Eq, Structural)]
pub enum Rebuild {
    /// Its definition is unchanged: it resumes from its checkpoint.
    Resume,
    /// Nothing is recorded for it, so it builds from the start of the log.
    Fresh,
    /// Its definition changed and automatic rebuilds are on.
    Rebuild,
    /// The same change with automatic rebuilds off, so it serves rows that the old logic
    /// built until someone replays it.
    Stale,
}

pub open spec fn rebuild_of(plan: Reconcile) -> Rebuild {
    match plan {
        Reconcile::UpToDate => Rebuild::Resume,
        Reconcile::Stamp => Rebuild::Fresh,
        Reconcile::Rebuild => Rebuild::Rebuild,
        Reconcile::Stale => Rebuild::Stale,
    }
}

impl Rebuild {
    pub fn of(plan: Reconcile) -> (r: Rebuild)
        ensures
            r == rebuild_of(plan),
    {
        match plan {
            Reconcile::UpToDate => Rebuild::Resume,
            Reconcile::Stamp => Rebuild::Fresh,
            Reconcile::Rebuild => Rebuild::Rebuild,
            Reconcile::Stale => Rebuild::Stale,
        }
    }
}

/// What one projector would do on the next boot, and from where.
pub struct Forecast {
    pub name: String,
    pub outcome: Rebuild,
    /// The position its model has reached, which is what a rebuild would redo.
    pub checkpoint: u64,
}

/// Why a group of declarations changed together.
pub enum Cause {
    /// Every command in `commands` names this guard, and no command outside the group
    /// does.
    Guard { name: String, commands: Vec<String> },
    /// The same edit appears in several declarations, so one declaration that is spliced
    /// into all of them most likely produced it. `likely` names it where exactly one
    /// candidate fits.
    SharedEdit {
        removed: Vec<String>,
        added: Vec<String>,
        declarations: Vec<String>,
        likely: Option<String>,
    },
}

pub enum CauseView {
    Guard(Seq<char>, Seq<Seq<char>>),
    SharedEdit(Edit, Seq<Seq<char>>, Option<Seq<char>>),
}

pub open spec fn cause_view(cause: Cause) -> CauseView {
    match cause {
        Cause::Guard { name, commands } => CauseView::Guard(name@, views(commands@)),
        Cause::SharedEdit { removed, added, declarations, likely } => CauseView::SharedEdit(
            (views(removed@), views(added@)),
            views(declarations@),
            option_view(likely),
        ),
    }
}

pub open spec fn cause_views(causes: Seq<Cause>) -> Seq<CauseView> {
    causes.map_values(|c: Cause| cause_view(c))
}

// ---------------------------------------------------------------------------
// The difference
// ---------------------------------------------------------------------------

/// A recorded declaration that was read back from its packed form.
pub struct ReadBack {
    /// The hash that the form has now.
    pub hash: String,
    pub signature_hash: Option<String>,
    /// The form laid out over lines.
    pub expanded: String,
}

/// Why `heklang::Entry::from_packed` does not read a packed form with its signature, where
/// it does not.
pub uninterp spec fn packed_error(form: Seq<char>, signature: Option<Seq<char>>) -> Option<Seq<char>>;

/// The hash that `heklang` has of a packed form or a signature, in hexadecimal.
pub uninterp spec fn packed_hash(line: Seq<char>) -> Seq<char>;

/// A packed form as `heklang::Sexp::expanded` lays it out over lines.
pub uninterp spec fn laid_out(form: Seq<char>) -> Seq<char>;

/// What a packed form and its signature are read as: the hash of the form, the hash of the
/// signature and the form laid out over lines, or the error.
pub open spec fn packed_entry(form: Seq<char>, signature: Option<Seq<char>>) -> Result<
    (Seq<char>, Option<Seq<char>>, Seq<char>),
    Seq<char>,
> {
    match packed_error(form, signature) {
        Some(message) => Err(message),
        None => Ok(
            (
                packed_hash(form),
                match signature {
                    Some(line) => Some(packed_hash(line)),
                    None => None,
                },
                laid_out(form),
            ),
        ),
    }
}

/// Reads a packed form back with `heklang::Entry::from_packed`. What is read is left to
/// `heklang`; claimed is that whether it is depends on the form and the signature alone,
/// that a form and a signature are hashed alike and each by itself, and that the layout
/// depends on the form alone.
/// `heklang` reads nested lists by recursion and sets no limit on how deep they may be.
#[verifier::external_body]
fn read_packed(form: &str, signature: &Option<String>) -> (r: Result<ReadBack, String>)
    ensures
        match r {
            Ok(read) => {
                &&& packed_error(form@, option_view(*signature)) is None
                &&& read.hash@ == packed_hash(form@)
                &&& option_view(read.signature_hash) == match option_view(*signature) {
                    Some(line) => Some(packed_hash(line)),
                    None => None,
                }
                &&& read.expanded@ == laid_out(form@)
            },
            Err(message) => packed_error(form@, option_view(*signature)) == Some(message@),
        },
{
    match heklang::Entry::from_packed(form, signature.as_deref()) {
        Ok(entry) => Ok(ReadBack {
            hash: entry.hash.to_string(),
            signature_hash: entry.signature_hash.map(|hash| hash.to_string()),
            expanded: entry.form.expanded(),
        }),
        Err(err) => Err(err.to_string()),
    }
}

/// One deployed declaration: what was recorded of it, and what its form reads back as.
pub struct Deployed {
    pub kind: Kind,
    pub name: String,
    pub recorded_hash: String,
    pub module: Option<String>,
    pub read: ReadBack,
}

pub struct DeployedView {
    pub kind: Kind,
    pub name: Seq<char>,
    pub recorded_hash: Seq<char>,
    pub module: Option<Seq<char>>,
    pub hash: Seq<char>,
    pub signature_hash: Option<Seq<char>>,
    pub expanded: Seq<char>,
}

pub open spec fn deployed_view(row: Deployed) -> DeployedView {
    DeployedView {
        kind: row.kind,
        name: row.name@,
        recorded_hash: row.recorded_hash@,
        module: option_view(row.module),
        hash: row.read.hash@,
        signature_hash: option_view(row.read.signature_hash),
        expanded: row.read.expanded@,
    }
}

pub open spec fn deployed_views(rows: Seq<Deployed>) -> Seq<DeployedView> {
    rows.map_values(|d: Deployed| deployed_view(d))
}

/// What one recorded row is, or why it cannot be compared.
pub open spec fn recorded_row(row: DeclarationRow) -> Result<DeployedView, Seq<char>> {
    match kind_of(row.kind@) {
        None => Err(
            "the declaration table holds kind `"@ + row.kind@
                + "`, which this build does not know"@,
        ),
        Some(kind) => match packed_entry(row.form@, option_view(row.signature)) {
            Err(message) => Err(
                "the recorded form of "@ + row.kind@ + " `"@ + row.name@
                    + "` does not read back: "@ + message,
            ),
            Ok((hash, signature_hash, expanded)) => Ok(
                DeployedView {
                    kind,
                    name: row.name@,
                    recorded_hash: row.hash@,
                    module: option_view(row.module),
                    hash,
                    signature_hash,
                    expanded,
                },
            ),
        },
    }
}

/// What the recorded rows are, or the first that cannot be compared.
pub open spec fn recorded_rows(rows: Seq<DeclarationRow>) -> Result<Seq<DeployedView>, Seq<char>>
    decreases rows.len(),
{
    if rows.len() == 0 {
        Ok(Seq::empty())
    } else {
        match recorded_rows(rows.drop_last()) {
            Err(message) => Err(message),
            Ok(read) => match recorded_row(rows.last()) {
                Err(message) => Err(message),
                Ok(row) => Ok(read.push(row)),
            },
        }
    }
}

proof fn lemma_recorded_error(rows: Seq<DeclarationRow>, upto: int)
    requires
        0 <= upto <= rows.len(),
        recorded_rows(rows.take(upto)) is Err,
    ensures
        recorded_rows(rows) == recorded_rows(rows.take(upto)),
    decreases rows.len(),
{
    if upto < rows.len() {
        assert(rows.drop_last().take(upto) =~= rows.take(upto));
        lemma_recorded_error(rows.drop_last(), upto);
    } else {
        assert(rows.take(upto) =~= rows);
    }
}

/// Reads every recorded row back. A form that was truncated or half-migrated fails
/// rather than reading as a plausible wrong answer.
pub fn read_rows(recorded: &Vec<DeclarationRow>) -> (r: Result<Vec<Deployed>, String>)
    ensures
        match r {
            Ok(rows) => recorded_rows(recorded@) == Ok::<Seq<DeployedView>, Seq<char>>(
                deployed_views(rows@),
            ),
            Err(message) => recorded_rows(recorded@) == Err::<Seq<DeployedView>, Seq<char>>(
                message@,
            ),
        },
{
    let mut out: Vec<Deployed> = Vec::new();
    let mut i: usize = 0;
    assert(recorded@.take(0) =~= Seq::empty());
    assert(deployed_views(out@) =~= Seq::empty());
    while i < recorded.len()
        invariant
            i <= recorded.len(),
            recorded_rows(recorded@.take(i as int)) == Ok::<Seq<DeployedView>, Seq<char>>(
                deployed_views(out@),
            ),
        decreases recorded.len() - i,
    {
        let row = &recorded[i];
        assert(recorded@.take(i as int + 1).drop_last() =~= recorded@.take(i as int));
        match Kind::lookup(&row.kind) {
            None => {
                let mut message = "the declaration table holds kind `".to_owned();
                message.append(&row.kind);
                message.append("`, which this build does not know");
                proof {
                    lemma_recorded_error(recorded@, i as int + 1);
                }
                return Err(message);
            },
            Some(kind) => {
                match read_packed(&row.form, &row.signature) {
                    Err(err) => {
                        let mut message = "the recorded form of ".to_owned();
                        message.append(&row.kind);
                        message.append(" `");
                        message.append(&row.name);
                        message.append("` does not read back: ");
                        message.append(&err);
                        proof {
                            lemma_recorded_error(recorded@, i as int + 1);
                        }
                        return Err(message);
                    },
                    Ok(read) => {
                        let ghost was = deployed_views(out@);
                        let deployed = Deployed {
                            kind,
                            name: row.name.clone(),
                            recorded_hash: row.hash.clone(),
                            module: copied_option(&row.module),
                            read,
                        };
                        out.push(deployed);
                        assert(deployed_views(out@) =~= was.push(deployed_view(deployed)));
                    },
                }
            },
        }
        i += 1;
    }
    assert(recorded@.take(i as int) =~= recorded@);
    Ok(out)
}

/// Whether a row of that kind and name is among these.
pub open spec fn has_row(rows: Seq<DeployedView>, kind: Kind, name: Seq<char>) -> bool {
    exists|i: int| 0 <= i < rows.len() && (#[trigger] rows[i]).kind == kind && rows[i].name == name
}

/// The rows that no later one of the same kind and name stands in for.
pub open spec fn latest(rows: Seq<DeployedView>) -> Seq<DeployedView>
    decreases rows.len(),
{
    if rows.len() == 0 {
        rows
    } else if has_row(rows.skip(1), rows[0].kind, rows[0].name) {
        latest(rows.skip(1))
    } else {
        seq![rows[0]] + latest(rows.skip(1))
    }
}

/// The row of that kind and name.
pub open spec fn row_named(rows: Seq<DeployedView>, kind: Kind, name: Seq<char>) -> Option<DeployedView>
    decreases rows.len(),
{
    if rows.len() == 0 {
        None
    } else if rows.last().kind == kind && rows.last().name == name {
        Some(rows.last())
    } else {
        row_named(rows.drop_last(), kind, name)
    }
}

/// How many rows do not have the hash that was recorded for them.
pub open spec fn unreproduced(rows: Seq<DeployedView>) -> nat
    decreases rows.len(),
{
    if rows.len() == 0 {
        0
    } else {
        unreproduced(rows.drop_last()) + if rows.last().hash != rows.last().recorded_hash {
            1nat
        } else {
            0nat
        }
    }
}

/// How one entry of the candidate differs from what is deployed, where it does.
pub open spec fn entry_change(entry: Entry, rows: Seq<DeployedView>) -> Option<ChangeView> {
    match row_named(rows, entry.kind, entry.name@) {
        None => Some(
            ChangeView {
                kind: entry.kind,
                name: entry.name@,
                verdict: Verdict::Added,
                module: option_view(entry.module),
                before: None,
                after: Some(entry.expanded@),
            },
        ),
        Some(was) => if was.hash == entry.hash@ {
            None
        } else {
            Some(
                ChangeView {
                    kind: entry.kind,
                    name: entry.name@,
                    verdict: if was.signature_hash == option_view(entry.signature_hash) {
                        Verdict::Behaviour
                    } else {
                        Verdict::Contract
                    },
                    module: option_view(entry.module),
                    before: Some(was.expanded),
                    after: Some(entry.expanded@),
                },
            )
        },
    }
}

/// How the candidate's entries differ from what is deployed.
pub open spec fn entry_changes(entries: Seq<Entry>, rows: Seq<DeployedView>) -> Seq<ChangeView>
    decreases entries.len(),
{
    if entries.len() == 0 {
        Seq::empty()
    } else {
        match entry_change(entries.last(), rows) {
            Some(change) => entry_changes(entries.drop_last(), rows).push(change),
            None => entry_changes(entries.drop_last(), rows),
        }
    }
}

/// Whether the candidate declares something of that kind and name.
pub open spec fn declares(entries: Seq<Entry>, kind: Kind, name: Seq<char>) -> bool {
    exists|i: int| 0 <= i < entries.len() && entry_decl(#[trigger] entries[i]) == (kind, name)
}

/// A deployed declaration that is gone from the candidate.
pub open spec fn removal(row: DeployedView) -> ChangeView {
    ChangeView {
        kind: row.kind,
        name: row.name,
        verdict: Verdict::Removed,
        module: row.module,
        before: Some(row.expanded),
        after: None,
    }
}

/// What is deployed and gone from the candidate.
pub open spec fn removals(entries: Seq<Entry>, rows: Seq<DeployedView>) -> Seq<ChangeView>
    decreases rows.len(),
{
    if rows.len() == 0 {
        Seq::empty()
    } else if declares(entries, rows.last().kind, rows.last().name) {
        removals(entries, rows.drop_last())
    } else {
        removals(entries, rows.drop_last()).push(removal(rows.last()))
    }
}

/// The order of changes: by kind, then by name.
pub open spec fn change_order() -> spec_fn(ChangeView, ChangeView) -> bool {
    |a: ChangeView, b: ChangeView|
        if a.kind == b.kind {
            precedes(a.name, b.name)
        } else {
            kind_rank(a.kind) < kind_rank(b.kind)
        }
}

impl Ranked for Change {
    open spec fn ranks_before(self, other: Change) -> bool {
        change_order()(change_view(self), change_view(other))
    }

    fn is_before(&self, other: &Change) -> (r: bool) {
        if self.kind == other.kind {
            crate::text::is_before(&self.name, &other.name)
        } else {
            self.kind.rank() < other.kind.rank()
        }
    }
}

/// What differs between a candidate and what is deployed.
pub struct Diff {
    pub changes: Vec<Change>,
    /// How many deployed declarations were compared.
    pub declarations_compared: usize,
    /// No recorded form has the hash that was recorded for it, so the deployment was
    /// written under another version of the digest and nothing here is comparable.
    pub digest_version_mismatch: bool,
}

/// The differences between a candidate's entries and deployed rows.
pub open spec fn differences(entries: Seq<Entry>, rows: Seq<DeployedView>) -> Seq<ChangeView> {
    let deployed = latest(rows);
    sorted(entry_changes(entries, deployed) + removals(entries, deployed), change_order())
}

/// Whether nothing that is deployed reproduces its own hash.
pub open spec fn is_mismatch(rows: Seq<DeployedView>) -> bool {
    latest(rows).len() > 0 && unreproduced(rows) == latest(rows).len()
}

/// Where the latest row of that kind and name stands.
fn find_row(rows: &Vec<Deployed>, kind: Kind, name: &str, upto: usize) -> (r: Option<usize>)
    requires
        upto <= rows.len(),
    ensures
        match r {
            Some(i) => i < upto && row_named(deployed_views(rows@).take(upto as int), kind, name@)
                == Some(deployed_view(rows@[i as int])),
            None => row_named(deployed_views(rows@).take(upto as int), kind, name@) is None,
        },
{
    let ghost all = deployed_views(rows@);
    let mut i: usize = upto;
    while i > 0
        invariant
            i <= upto <= rows.len(),
            all == deployed_views(rows@),
            row_named(all.take(i as int), kind, name@) == row_named(all.take(upto as int), kind, name@),
        decreases i,
    {
        assert(all.take(i as int).drop_last() =~= all.take(i as int - 1));
        assert(all.take(i as int).last() == deployed_view(rows@[i as int - 1]));
        i -= 1;
        if rows[i].kind == kind && same(&rows[i].name, name) {
            return Some(i);
        }
    }
    None
}

/// Whether a row of that kind and name stands at or behind `from`.
fn has_row_from(rows: &Vec<Deployed>, from: usize, kind: Kind, name: &str) -> (r: bool)
    requires
        from <= rows.len(),
    ensures
        r == has_row(deployed_views(rows@).skip(from as int), kind, name@),
{
    let ghost rest = deployed_views(rows@).skip(from as int);
    let mut i: usize = from;
    while i < rows.len()
        invariant
            from <= i <= rows.len(),
            rest == deployed_views(rows@).skip(from as int),
            forall|k: int|
                0 <= k < i - from ==> !((#[trigger] rest[k]).kind == kind && rest[k].name == name@),
        decreases rows.len() - i,
    {
        assert(rest[i - from] == deployed_view(rows@[i as int]));
        if rows[i].kind == kind && same(&rows[i].name, name) {
            return true;
        }
        i += 1;
    }
    false
}

/// The rows that no later one stands in for.
fn keep_latest(rows: Vec<Deployed>) -> (r: Vec<Deployed>)
    ensures
        deployed_views(r@) == latest(deployed_views(rows@)),
{
    let ghost all = deployed_views(rows@);
    let mut last: Vec<bool> = Vec::new();
    let mut i: usize = 0;
    while i < rows.len()
        invariant
            i <= rows.len(),
            last.len() == i,
            all == deployed_views(rows@),
            forall|k: int|
                0 <= k < i ==> #[trigger] last@[k] == !has_row(all.skip(k + 1), all[k].kind, all[k].name),
        decreases rows.len() - i,
    {
        assert(all[i as int] == deployed_view(rows@[i as int]));
        last.push(!has_row_from(&rows, i + 1, rows[i].kind, &rows[i].name));
        i += 1;
    }
    let mut rest = rows;
    // Built from the back, the last row first.
    let mut kept: Vec<Deployed> = Vec::new();
    assert(deployed_views(kept@).reverse() =~= latest(all.skip(all.len() as int)));
    while rest.len() > 0
        invariant
            rest@ == rows@.take(rest@.len() as int),
            rest.len() <= rows.len(),
            last.len() == rows.len(),
            all == deployed_views(rows@),
            deployed_views(kept@).reverse() == latest(all.skip(rest@.len() as int)),
            forall|k: int|
                0 <= k < rows.len() ==> #[trigger] last@[k] == !has_row(
                    all.skip(k + 1),
                    all[k].kind,
                    all[k].name,
                ),
        decreases rest.len(),
    {
        let ghost n = rest@.len() - 1;
        let ghost had = deployed_views(kept@);
        let row = rest.pop().unwrap();
        proof {
            assert(all.skip(n).skip(1) =~= all.skip(n + 1));
            assert(all.skip(n)[0] == deployed_view(row));
            assert(rest@ =~= rows@.take(n));
        }
        if last[rest.len()] {
            kept.push(row);
            proof {
                assert(deployed_views(kept@) =~= had.push(deployed_view(row)));
                assert(had.push(deployed_view(row)).reverse() =~= seq![deployed_view(row)] + had.reverse());
            }
        }
    }
    proof {
        assert(all.skip(0) =~= all);
    }
    // Turned round again.
    let mut out: Vec<Deployed> = Vec::new();
    let ghost wanted = latest(all);
    assert(deployed_views(out@) + deployed_views(kept@).reverse() =~= wanted);
    while kept.len() > 0
        invariant
            deployed_views(out@) + deployed_views(kept@).reverse() == wanted,
        decreases kept.len(),
    {
        let ghost had = deployed_views(kept@);
        let ghost done = deployed_views(out@);
        let row = kept.pop().unwrap();
        out.push(row);
        proof {
            assert(had =~= deployed_views(kept@).push(deployed_view(row)));
            assert(had.reverse() =~= seq![deployed_view(row)] + deployed_views(kept@).reverse());
            assert(deployed_views(out@) =~= done.push(deployed_view(row)));
            assert(done + had.reverse() =~= deployed_views(out@) + deployed_views(kept@).reverse());
        }
    }
    assert(deployed_views(out@) =~= wanted);
    out
}

/// Whether two hashes that may be absent are the same.
fn same_hash(a: &Option<String>, b: &Option<String>) -> (r: bool)
    ensures
        r == (option_view(*a) == option_view(*b)),
{
    match (a, b) {
        (Some(left), Some(right)) => same(left, right),
        (None, None) => true,
        _ => false,
    }
}

fn change_of(entry: &Entry, rows: &Vec<Deployed>) -> (r: Option<Change>)
    ensures
        match r {
            Some(change) => entry_change(*entry, deployed_views(rows@)) == Some(change_view(change)),
            None => entry_change(*entry, deployed_views(rows@)) is None,
        },
{
    assert(deployed_views(rows@).take(rows@.len() as int) =~= deployed_views(rows@));
    match find_row(rows, entry.kind, &entry.name, rows.len()) {
        None => Some(
            Change {
                kind: entry.kind,
                name: entry.name.clone(),
                verdict: Verdict::Added,
                module: copied_option(&entry.module),
                before: None,
                after: Some(entry.expanded.clone()),
            },
        ),
        Some(i) => {
            let was = &rows[i].read;
            if same(&was.hash, &entry.hash) {
                None
            } else {
                let verdict = if same_hash(&was.signature_hash, &entry.signature_hash) {
                    Verdict::Behaviour
                } else {
                    Verdict::Contract
                };
                Some(
                    Change {
                        kind: entry.kind,
                        name: entry.name.clone(),
                        verdict,
                        module: copied_option(&entry.module),
                        before: Some(was.expanded.clone()),
                        after: Some(entry.expanded.clone()),
                    },
                )
            }
        },
    }
}

fn declared(entries: &Vec<Entry>, kind: Kind, name: &str) -> (r: bool)
    ensures
        r == declares(entries@, kind, name@),
{
    let mut i: usize = 0;
    while i < entries.len()
        invariant
            i <= entries.len(),
            forall|k: int| 0 <= k < i ==> entry_decl(#[trigger] entries@[k]) != (kind, name@),
        decreases entries.len() - i,
    {
        if entries[i].kind == kind && same(&entries[i].name, name) {
            assert(entry_decl(entries@[i as int]) == (kind, name@));
            return true;
        }
        i += 1;
    }
    false
}

/// The differences between a candidate's entries and deployed rows that were read back.
pub fn compare(entries: &Vec<Entry>, rows: Vec<Deployed>) -> (r: Diff)
    ensures
        change_views(r.changes@) == differences(entries@, deployed_views(rows@)),
        r.declarations_compared == latest(deployed_views(rows@)).len(),
        r.digest_version_mismatch == is_mismatch(deployed_views(rows@)),
{
    let ghost all = deployed_views(rows@);
    let mut wrong: usize = 0;
    let mut i: usize = 0;
    assert(all.take(0) =~= Seq::empty());
    while i < rows.len()
        invariant
            i <= rows.len(),
            all == deployed_views(rows@),
            wrong == unreproduced(all.take(i as int)),
            wrong <= i,
        decreases rows.len() - i,
    {
        assert(all.take(i as int + 1).drop_last() =~= all.take(i as int));
        assert(all.take(i as int + 1).last() == deployed_view(rows@[i as int]));
        if !same(&rows[i].read.hash, &rows[i].recorded_hash) {
            wrong += 1;
        }
        i += 1;
    }
    assert(all.take(i as int) =~= all);
    let kept = keep_latest(rows);
    let ghost deployed = latest(all);
    let mut changes: Vec<Change> = Vec::new();
    let mut i: usize = 0;
    assert(entries@.take(0) =~= Seq::empty());
    assert(change_views(changes@) =~= Seq::empty());
    while i < entries.len()
        invariant
            i <= entries.len(),
            deployed == deployed_views(kept@),
            change_views(changes@) == entry_changes(entries@.take(i as int), deployed),
        decreases entries.len() - i,
    {
        assert(entries@.take(i as int + 1).drop_last() =~= entries@.take(i as int));
        let ghost had = change_views(changes@);
        if let Some(change) = change_of(&entries[i], &kept) {
            changes.push(change);
            assert(change_views(changes@) =~= had.push(change_view(change)));
        }
        i += 1;
    }
    assert(entries@.take(i as int) =~= entries@);
    let ghost first = change_views(changes@);
    let mut i: usize = 0;
    assert(deployed.take(0) =~= Seq::empty());
    assert(first + removals(entries@, deployed.take(0)) =~= first);
    while i < kept.len()
        invariant
            i <= kept.len(),
            deployed == deployed_views(kept@),
            change_views(changes@) == first + removals(entries@, deployed.take(i as int)),
        decreases kept.len() - i,
    {
        let row = &kept[i];
        let ghost had = change_views(changes@);
        assert(deployed.take(i as int + 1).drop_last() =~= deployed.take(i as int));
        assert(deployed.take(i as int + 1).last() == deployed_view(*row));
        if !declared(entries, row.kind, &row.name) {
            let change = Change {
                kind: row.kind,
                name: row.name.clone(),
                verdict: Verdict::Removed,
                module: copied_option(&row.module),
                before: Some(row.read.expanded.clone()),
                after: None,
            };
            changes.push(change);
            assert(change_view(change) == removal(deployed_view(*row)));
            assert(change_views(changes@) =~= had.push(change_view(change)));
            assert(had.push(change_view(change)) =~= first + removals(
                entries@,
                deployed.take(i as int),
            ).push(change_view(change)));
        }
        i += 1;
    }
    assert(deployed.take(i as int) =~= deployed);
    proof {
        lemma_sorted_map(
            changes@,
            |c: Change| change_view(c),
            |a: Change, b: Change| a.ranks_before(b),
            change_order(),
        );
    }
    let mismatch = kept.len() > 0 && wrong == kept.len();
    let declarations_compared = kept.len();
    Diff { changes: sort(changes), declarations_compared, digest_version_mismatch: mismatch }
}

/// Compares a candidate's entries against the recorded rows.
pub fn diff(entries: &Vec<Entry>, recorded: &Vec<DeclarationRow>) -> (r: Result<Diff, String>)
    ensures
        match r {
            Ok(found) => {
                &&& recorded_rows(recorded@) is Ok
                &&& change_views(found.changes@) == differences(
                    entries@,
                    recorded_rows(recorded@)->Ok_0,
                )
                &&& found.declarations_compared == latest(recorded_rows(recorded@)->Ok_0).len()
                &&& found.digest_version_mismatch == is_mismatch(recorded_rows(recorded@)->Ok_0)
            },
            Err(message) => recorded_rows(recorded@) == Err::<Seq<DeployedView>, Seq<char>>(
                message@,
            ),
        },
{
    match read_rows(recorded) {
        Ok(rows) => Ok(compare(entries, rows)),
        Err(message) => Err(message),
    }
}


proof fn lemma_change_order()
    ensures
        crate::order::is_order(change_order()),
{
    let before = change_order();
    assert forall|a: ChangeView, b: ChangeView| #[trigger] before(a, b) implies !before(b, a) by {
        if a.kind == b.kind && precedes(b.name, a.name) {
            crate::text::lemma_precedes_transitive(a.name, b.name, a.name);
            crate::text::lemma_precedes_irreflexive(a.name);
        }
    }
    assert forall|a: ChangeView, b: ChangeView, c: ChangeView|
        #![trigger before(b, a), before(c, b)]
        !before(b, a) && !before(c, b) implies !before(c, a) by {
        assert(kind_rank(a.kind) <= kind_rank(b.kind));
        assert(kind_rank(b.kind) <= kind_rank(c.kind));
        if a.kind == c.kind {
            assert(a.kind == b.kind);
            crate::text::lemma_precedes_total(a.name, b.name);
            crate::text::lemma_precedes_total(b.name, c.name);
            if precedes(c.name, a.name) && a.name != b.name && b.name != c.name {
                crate::text::lemma_precedes_transitive(a.name, b.name, c.name);
                crate::text::lemma_precedes_transitive(a.name, c.name, a.name);
                crate::text::lemma_precedes_irreflexive(a.name);
            }
        }
    }
}

/// The changes of a plan stand in order of kind and name.
pub proof fn law_changes_are_in_order(entries: Seq<Entry>, rows: Seq<DeployedView>)
    ensures
        crate::order::ordered(differences(entries, rows), change_order()),
{
    lemma_change_order();
    let deployed = latest(rows);
    crate::order::lemma_sorted_ordered(
        entry_changes(entries, deployed) + removals(entries, deployed),
        change_order(),
    );
}

proof fn lemma_no_entry_changes(entries: Seq<Entry>, rows: Seq<DeployedView>)
    requires
        forall|i: int| 0 <= i < entries.len() ==> entry_change(#[trigger] entries[i], rows) is None,
    ensures
        entry_changes(entries, rows).len() == 0,
    decreases entries.len(),
{
    if entries.len() > 0 {
        assert forall|i: int| 0 <= i < entries.drop_last().len() implies entry_change(
            #[trigger] entries.drop_last()[i],
            rows,
        ) is None by {
            assert(entries.drop_last()[i] == entries[i]);
        }
        lemma_no_entry_changes(entries.drop_last(), rows);
        assert(entry_change(entries[entries.len() - 1], rows) is None);
    }
}

proof fn lemma_no_removals(entries: Seq<Entry>, rows: Seq<DeployedView>)
    requires
        forall|i: int|
            0 <= i < rows.len() ==> declares(entries, (#[trigger] rows[i]).kind, rows[i].name),
    ensures
        removals(entries, rows).len() == 0,
    decreases rows.len(),
{
    if rows.len() > 0 {
        assert forall|i: int| 0 <= i < rows.drop_last().len() implies declares(
            entries,
            (#[trigger] rows.drop_last()[i]).kind,
            rows.drop_last()[i].name,
        ) by {
            assert(rows.drop_last()[i] == rows[i]);
        }
        lemma_no_removals(entries, rows.drop_last());
        assert(declares(entries, rows[rows.len() - 1].kind, rows[rows.len() - 1].name));
    }
}

/// A candidate whose every declaration is deployed under the same hash, and that declares
/// all that is deployed, changes nothing: a reformat is not a change.
pub proof fn law_the_same_program_changes_nothing(entries: Seq<Entry>, rows: Seq<DeployedView>)
    requires
        forall|i: int|
            0 <= i < entries.len() ==> {
                let held = row_named(latest(rows), (#[trigger] entries[i]).kind, entries[i].name@);
                held is Some && held->0.hash == entries[i].hash@
            },
        forall|i: int|
            0 <= i < latest(rows).len() ==> declares(
                entries,
                (#[trigger] latest(rows)[i]).kind,
                latest(rows)[i].name,
            ),
    ensures
        differences(entries, rows).len() == 0,
{
    let deployed = latest(rows);
    lemma_no_entry_changes(entries, deployed);
    lemma_no_removals(entries, deployed);
    crate::order::lemma_sorted_keeps(
        entry_changes(entries, deployed) + removals(entries, deployed),
        change_order(),
    );
}

// ---------------------------------------------------------------------------
// Attribution
// ---------------------------------------------------------------------------

/// The edit that a change is, where it has both sides and they differ.
pub open spec fn change_edit(change: Change) -> Option<Edit> {
    match (change.before, change.after) {
        (Some(before), Some(after)) => {
            let edit = edit_between(before@, after@);
            if edit.0.len() == 0 && edit.1.len() == 0 {
                None
            } else {
                Some(edit)
            }
        },
        _ => None,
    }
}

/// The edits of a list of changes, each once, in the order they first appear.
pub open spec fn edits_of(changes: Seq<Change>) -> Seq<Edit>
    decreases changes.len(),
{
    if changes.len() == 0 {
        Seq::empty()
    } else {
        let rest = edits_of(changes.drop_last());
        match change_edit(changes.last()) {
            Some(edit) => if rest.contains(edit) {
                rest
            } else {
                rest.push(edit)
            },
            None => rest,
        }
    }
}

/// The changes that are one edit.
pub open spec fn changes_with(changes: Seq<Change>, edit: Edit) -> Seq<Change>
    decreases changes.len(),
{
    if changes.len() == 0 {
        Seq::empty()
    } else if change_edit(changes.last()) == Some(edit) {
        changes_with(changes.drop_last(), edit).push(changes.last())
    } else {
        changes_with(changes.drop_last(), edit)
    }
}

/// The names of changed declarations.
pub open spec fn change_names(changes: Seq<Change>) -> Seq<Seq<char>> {
    changes.map_values(|c: Change| c.name@)
}

/// The commands that name a guard, directly or through another guard.
pub open spec fn callers_of(program: Program, guard: Seq<char>) -> Set<Seq<char>> {
    Set::new(
        |name: Seq<char>|
            exists|i: int|
                0 <= i < program.commands.len() && (#[trigger] program.commands@[i]).name@ == name
                    && guards_of(program, program.commands@[i]).contains(guard),
    )
}

/// Whether a group of commands is a guard's whole caller set.
pub open spec fn guard_fits(program: Program, group: Set<Seq<char>>, guard: Guard) -> bool {
    callers_of(program, guard.name@) =~= group && !(group =~= Set::empty())
}

/// The guards that a group of commands is the whole caller set of.
pub open spec fn fitting_guards(program: Program, guards: Seq<Guard>, group: Set<Seq<char>>) -> Seq<Guard>
    decreases guards.len(),
{
    if guards.len() == 0 {
        Seq::empty()
    } else if guard_fits(program, group, guards.last()) {
        fitting_guards(program, guards.drop_last(), group).push(guards.last())
    } else {
        fitting_guards(program, guards.drop_last(), group)
    }
}

/// The one guard that a group of changed commands is the whole caller set of. A guard
/// that some unchanged command also names cannot be the reason why the group changed.
pub open spec fn group_guard(program: Program, members: Seq<Change>) -> Option<Seq<char>> {
    let names = change_names(members);
    let fitting = fitting_guards(program, program.guards@, name_set(names));
    if (forall|i: int| 0 <= i < members.len() ==> (#[trigger] members[i]).kind == Kind::Command)
        && names.no_duplicates() && fitting.len() == 1 {
        Some(fitting[0].name@)
    } else {
        None
    }
}

/// The cause of a group of changes that are one edit. One change alone has none. The most
/// specific cause wins: a refusal is spliced into the guard that rejects with it, so a
/// reworded message looks like a change of the guard too.
pub open spec fn group_cause(program: Program, members: Seq<Change>, edit: Edit) -> Option<CauseView> {
    if members.len() < 2 {
        None
    } else {
        match inlined(program, edit.0, edit.1) {
            Some(likely) => Some(CauseView::SharedEdit(edit, change_names(members), Some(likely))),
            None => match group_guard(program, members) {
                Some(guard) => Some(CauseView::Guard(guard, change_names(members))),
                None => Some(CauseView::SharedEdit(edit, change_names(members), None)),
            },
        }
    }
}

/// The causes of the groups that a list of edits makes of the changes.
pub open spec fn causes_of(program: Program, changes: Seq<Change>, edits: Seq<Edit>) -> Seq<CauseView>
    decreases edits.len(),
{
    if edits.len() == 0 {
        Seq::empty()
    } else {
        let rest = causes_of(program, changes, edits.drop_last());
        match group_cause(program, changes_with(changes, edits.last()), edits.last()) {
            Some(cause) => rest.push(cause),
            None => rest,
        }
    }
}

/// The causes of a plan's changes, in the order of their edits.
pub open spec fn attributed(program: Program, changes: Seq<Change>) -> Seq<CauseView> {
    causes_of(program, changes, sorted(edits_of(changes), edit_order()))
}

/// Changes that are one edit, by where they stand in the list of changes.
pub struct Group {
    pub removed: Vec<String>,
    pub added: Vec<String>,
    pub members: Vec<usize>,
}

pub open spec fn group_edit(group: Group) -> Edit {
    (views(group.removed@), views(group.added@))
}

/// The changes of a group.
pub open spec fn group_members(changes: Seq<Change>, group: Group) -> Seq<Change> {
    Seq::new(group.members.len() as nat, |i: int| changes[group.members@[i] as int])
}

/// Whether a group holds the changes that are its edit.
pub open spec fn group_holds(changes: Seq<Change>, upto: int, group: Group) -> bool {
    &&& forall|i: int| 0 <= i < group.members.len() ==> (#[trigger] group.members@[i]) < upto
    &&& group_members(changes, group) == changes_with(changes.take(upto), group_edit(group))
}

impl Ranked for Group {
    open spec fn ranks_before(self, other: Group) -> bool {
        edit_order()(group_edit(self), group_edit(other))
    }

    fn is_before(&self, other: &Group) -> (r: bool) {
        if same_list(&self.removed, &other.removed) {
            is_list_before(&self.added, &other.added)
        } else {
            is_list_before(&self.removed, &other.removed)
        }
    }
}

fn edit_of(change: &Change) -> (r: Option<(Vec<String>, Vec<String>)>)
    ensures
        match r {
            Some(edit) => change_edit(*change) == Some((views(edit.0@), views(edit.1@))),
            None => change_edit(*change) is None,
        },
{
    match (&change.before, &change.after) {
        (Some(before), Some(after)) => {
            let edit = line_edit(before, after);
            if edit.0.len() == 0 && edit.1.len() == 0 {
                None
            } else {
                assert(views(edit.0@).len() == edit.0@.len());
                assert(views(edit.1@).len() == edit.1@.len());
                Some(edit)
            }
        },
        _ => None,
    }
}

/// Where the group of an edit stands.
fn find_group(groups: &Vec<Group>, edit: &(Vec<String>, Vec<String>)) -> (r: Option<usize>)
    ensures
        match r {
            Some(i) => i < groups.len() && group_edit(groups@[i as int]) == (
                views(edit.0@),
                views(edit.1@),
            ),
            None => forall|k: int|
                0 <= k < groups.len() ==> group_edit(#[trigger] groups@[k]) != (
                    views(edit.0@),
                    views(edit.1@),
                ),
        },
{
    let mut i: usize = 0;
    while i < groups.len()
        invariant
            i <= groups.len(),
            forall|k: int|
                0 <= k < i ==> group_edit(#[trigger] groups@[k]) != (views(edit.0@), views(edit.1@)),
        decreases groups.len() - i,
    {
        if same_list(&groups[i].removed, &edit.0) && same_list(&groups[i].added, &edit.1) {
            return Some(i);
        }
        i += 1;
    }
    None
}

pub open spec fn group_edits(groups: Seq<Group>) -> Seq<Edit> {
    groups.map_values(|g: Group| group_edit(g))
}

proof fn lemma_changes_with_none(changes: Seq<Change>, edit: Edit)
    requires
        !edits_of(changes).contains(edit),
    ensures
        changes_with(changes, edit).len() == 0,
    decreases changes.len(),
{
    if changes.len() > 0 {
        let rest = edits_of(changes.drop_last());
        match change_edit(changes.last()) {
            Some(own) => {
                if !rest.contains(own) {
                    if rest.contains(edit) {
                        let k = choose|k: int| 0 <= k < rest.len() && rest[k] == edit;
                        assert(rest.push(own)[k] == edit);
                    }
                    assert(rest.push(own)[rest.len() as int] == own);
                }
            },
            None => {},
        }
        lemma_changes_with_none(changes.drop_last(), edit);
    }
}

/// The groups of a list of changes, one for each edit, in the order they first appear.
fn group_changes(changes: &Vec<Change>) -> (r: Vec<Group>)
    ensures
        group_edits(r@) == edits_of(changes@),
        forall|k: int|
            0 <= k < r.len() ==> group_holds(changes@, changes.len() as int, #[trigger] r@[k]),
{
    let mut groups: Vec<Group> = Vec::new();
    let mut i: usize = 0;
    assert(changes@.take(0) =~= Seq::empty());
    assert(group_edits(groups@) =~= Seq::empty());
    while i < changes.len()
        invariant
            i <= changes.len(),
            group_edits(groups@) == edits_of(changes@.take(i as int)),
            forall|k: int| 0 <= k < groups.len() ==> group_holds(changes@, i as int, #[trigger] groups@[k]),
        decreases changes.len() - i,
    {
        let ghost was = groups@;
        let ghost done = changes@.take(i as int);
        let ghost next = changes@.take(i as int + 1);
        assert(next.drop_last() =~= done);
        assert(next.last() == changes@[i as int]);
        match edit_of(&changes[i]) {
            None => {
                proof {
                    assert forall|k: int| 0 <= k < groups.len() implies group_holds(
                        changes@,
                        i as int + 1,
                        #[trigger] groups@[k],
                    ) by {
                        assert(group_holds(changes@, i as int, groups@[k]));
                    }
                }
            },
            Some(edit) => {
                let ghost own = (views(edit.0@), views(edit.1@));
                match find_group(&groups, &edit) {
                    Some(g) => {
                        let mut members = Vec::<usize>::new();
                        let mut j: usize = 0;
                        while j < groups[g].members.len()
                            invariant
                                g < groups.len(),
                                j <= groups@[g as int].members.len(),
                                members@ == groups@[g as int].members@.take(j as int),
                            decreases groups@[g as int].members.len() - j,
                        {
                            members.push(groups[g].members[j]);
                            assert(groups@[g as int].members@.take(j as int + 1) =~= groups@[g as int].members@.take(j as int).push(groups@[g as int].members@[j as int]));
                            j += 1;
                        }
                        assert(members@ =~= was[g as int].members@);
                        members.push(i);
                        let ghost grown = Group { removed: was[g as int].removed, added: was[g as int].added, members };
                        let removed = copied(&groups[g].removed);
                        let added = copied(&groups[g].added);
                        groups.set(g, Group { removed, added, members });
                        proof {
                            assert(group_edits(was)[g as int] == own);
                            assert(group_edits(groups@) =~= group_edits(was));
                            assert(edits_of(done).contains(own));
                            assert forall|k: int| 0 <= k < groups.len() implies group_holds(
                                changes@,
                                i as int + 1,
                                #[trigger] groups@[k],
                            ) by {
                                assert(group_holds(changes@, i as int, was[k]));
                                if k == g {
                                    assert(group_members(changes@, groups@[k]) =~= group_members(changes@, was[k]).push(changes@[i as int]));
                                } else {
                                    assert(groups@[k] == was[k]);
                                    assert(group_edits(was)[k] == group_edit(was[k]));
                                    lemma_edits_distinct(done);
                                    assert(edits_of(done)[k] != edits_of(done)[g as int]);
                                }
                            }
                        }
                    },
                    None => {
                        let mut members = Vec::<usize>::new();
                        members.push(i);
                        let group = Group { removed: edit.0, added: edit.1, members };
                        proof {
                            assert(!edits_of(done).contains(own)) by {
                                if edits_of(done).contains(own) {
                                    let k = choose|k: int| 0 <= k < edits_of(done).len() && edits_of(done)[k] == own;
                                    assert(group_edits(was)[k] == group_edit(was[k]));
                                }
                            }
                            lemma_changes_with_none(done, own);
                        }
                        groups.push(group);
                        proof {
                            assert(group_edits(groups@) =~= group_edits(was).push(own));
                            assert forall|k: int| 0 <= k < groups.len() implies group_holds(
                                changes@,
                                i as int + 1,
                                #[trigger] groups@[k],
                            ) by {
                                if k < was.len() {
                                    assert(group_holds(changes@, i as int, was[k]));
                                    assert(group_edits(was)[k] == group_edit(was[k]));
                                    assert(edits_of(done).contains(group_edit(was[k])));
                                } else {
                                    assert(changes_with(next, own) =~= seq![changes@[i as int]]);
                                    assert(group_members(changes@, groups@[k]) =~= seq![changes@[i as int]]);
                                }
                            }
                        }
                    },
                }
            },
        }
        i += 1;
    }
    assert(changes@.take(i as int) =~= changes@);
    groups
}

/// An edit appears in the list of edits once.
pub proof fn lemma_edits_distinct(changes: Seq<Change>)
    ensures
        edits_of(changes).no_duplicates(),
    decreases changes.len(),
{
    if changes.len() > 0 {
        lemma_edits_distinct(changes.drop_last());
        let rest = edits_of(changes.drop_last());
        match change_edit(changes.last()) {
            Some(own) => {
                if !rest.contains(own) {
                    let grown = rest.push(own);
                    assert forall|i: int, j: int| 0 <= i < j < grown.len() implies grown[i] != grown[j] by {
                        if j == rest.len() {
                            assert(rest.contains(rest[i]));
                        }
                    }
                }
            },
            None => {},
        }
    }
}


/// The commands that name a guard.
fn callers(program: &Program, guard: &str) -> (r: Vec<String>)
    ensures
        name_set(views(r@)) == callers_of(*program, guard@),
{
    let mut out: Vec<String> = Vec::new();
    let mut i: usize = 0;
    while i < program.commands.len()
        invariant
            i <= program.commands.len(),
            forall|name: Seq<char>|
                #[trigger] views(out@).contains(name) ==> callers_of(*program, guard@).contains(name),
            forall|k: int|
                0 <= k < i && guards_of(*program, #[trigger] program.commands@[k]).contains(guard@)
                    ==> views(out@).contains(program.commands@[k].name@),
        decreases program.commands.len() - i,
    {
        if reaches(program, &program.commands[i], guard) {
            let ghost was = views(out@);
            out.push(program.commands[i].name.clone());
            proof {
                let name = program.commands@[i as int].name@;
                let grown = views(out@);
                assert(grown =~= was.push(name));
                assert(grown[was.len() as int] == name);
                assert forall|n: Seq<char>| #[trigger] grown.contains(n) implies callers_of(
                    *program,
                    guard@,
                ).contains(n) by {
                    let k = choose|k: int| 0 <= k < grown.len() && grown[k] == n;
                    if k < was.len() {
                        assert(was[k] == n);
                        assert(was.contains(n));
                    } else {
                        assert(program.commands@[i as int].name@ == n);
                    }
                }
                assert forall|k: int|
                    0 <= k < i + 1 && guards_of(*program, #[trigger] program.commands@[k]).contains(
                        guard@,
                    ) implies grown.contains(program.commands@[k].name@) by {
                    if k < i {
                        assert(was.contains(program.commands@[k].name@));
                        let j = choose|j: int| 0 <= j < was.len() && was[j] == program.commands@[k].name@;
                        assert(grown[j] == was[j]);
                    }
                }
            }
        }
        i += 1;
    }
    assert(name_set(views(out@)) =~= callers_of(*program, guard@));
    out
}

/// Whether every text of one list is in another.
fn within_list(list: &Vec<String>, other: &Vec<String>) -> (r: bool)
    ensures
        r == name_set(views(list@)).subset_of(name_set(views(other@))),
{
    let mut i: usize = 0;
    while i < list.len()
        invariant
            i <= list.len(),
            forall|k: int| 0 <= k < i ==> views(other@).contains(#[trigger] views(list@)[k]),
        decreases list.len() - i,
    {
        assert(views(list@)[i as int] == list@[i as int]@);
        if !holds(other, &list[i]) {
            assert(name_set(views(list@)).contains(list@[i as int]@)) by {
                assert(views(list@)[i as int] == list@[i as int]@);
            }
            return false;
        }
        i += 1;
    }
    assert forall|n: Seq<char>| name_set(views(list@)).contains(n) implies name_set(
        views(other@),
    ).contains(n) by {
        let k = choose|k: int| 0 <= k < views(list@).len() && views(list@)[k] == n;
        assert(views(other@).contains(views(list@)[k]));
    }
    true
}

fn fits_group(program: &Program, guard: &Guard, group: &Vec<String>) -> (r: bool)
    ensures
        r == guard_fits(*program, name_set(views(group@)), *guard),
{
    let found = callers(program, &guard.name);
    if group.len() == 0 {
        assert(name_set(views(group@)) =~= Set::empty());
        return false;
    }
    assert(name_set(views(group@)).contains(views(group@)[0]));
    within_list(&found, group) && within_list(group, &found)
}

/// The guard that every changed command of a group names, where exactly one fits.
pub fn shared_guard(program: &Program, changes: &Vec<Change>, members: &Vec<usize>) -> (r: Option<String>)
    requires
        forall|i: int| 0 <= i < members.len() ==> (#[trigger] members@[i]) < changes.len(),
    ensures
        option_view(r) == group_guard(
            *program,
            Seq::new(members.len() as nat, |i: int| changes@[members@[i] as int]),
        ),
{
    let ghost all = Seq::new(members.len() as nat, |i: int| changes@[members@[i] as int]);
    let ghost names = change_names(all);
    let mut group: Vec<String> = Vec::new();
    let mut i: usize = 0;
    while i < members.len()
        invariant
            i <= members.len(),
            all == Seq::new(members.len() as nat, |i: int| changes@[members@[i] as int]),
            names == change_names(all),
            forall|i: int| 0 <= i < members.len() ==> (#[trigger] members@[i]) < changes.len(),
            views(group@) == names.take(i as int),
            forall|k: int| 0 <= k < i ==> (#[trigger] all[k]).kind == Kind::Command,
            names.take(i as int).no_duplicates(),
        decreases members.len() - i,
    {
        let change = &changes[members[i]];
        assert(all[i as int] == *change);
        assert(names[i as int] == change.name@);
        if change.kind != Kind::Command {
            return None;
        }
        if holds(&group, &change.name) {
            proof {
                let k = choose|k: int| 0 <= k < i && names.take(i as int)[k] == change.name@;
                assert(names[k] == names[i as int]);
                assert(!names.no_duplicates());
            }
            return None;
        }
        let ghost was = views(group@);
        group.push(change.name.clone());
        proof {
            assert(views(group@) =~= was.push(change.name@));
            assert(names.take(i as int + 1) =~= was.push(change.name@));
            let grown = names.take(i as int + 1);
            assert forall|a: int, b: int| 0 <= a < b < grown.len() implies grown[a] != grown[b] by {
                if b == i {
                    assert(was[a] == grown[a]);
                    assert(was.contains(grown[a]));
                } else {
                    assert(names.take(i as int)[a] != names.take(i as int)[b]);
                }
            }
        }
        i += 1;
    }
    assert(names.take(i as int) =~= names);
    let mut found: Option<usize> = None;
    let mut several = false;
    let mut i: usize = 0;
    let ghost set = name_set(names);
    assert(program.guards@.take(0) =~= Seq::empty());
    while i < program.guards.len()
        invariant
            i <= program.guards.len(),
            set == name_set(views(group@)),
            ({
                let fit = fitting_guards(*program, program.guards@.take(i as int), set);
                &&& (fit.len() == 0) == (found is None)
                &&& several == (fit.len() > 1)
                &&& found matches Some(k) ==> k < program.guards.len() && fit[0] == program.guards@[k as int]
            }),
        decreases program.guards.len() - i,
    {
        assert(program.guards@.take(i as int + 1).drop_last() =~= program.guards@.take(i as int));
        if fits_group(program, &program.guards[i], &group) {
            if found.is_none() {
                found = Some(i);
            } else {
                several = true;
            }
        }
        i += 1;
    }
    assert(program.guards@.take(i as int) =~= program.guards@);
    if several {
        return None;
    }
    match found {
        Some(k) => Some(program.guards[k].name.clone()),
        None => None,
    }
}

fn cause_of(program: &Program, changes: &Vec<Change>, group: &Group) -> (r: Option<Cause>)
    requires
        forall|i: int| 0 <= i < group.members.len() ==> (#[trigger] group.members@[i]) < changes.len(),
    ensures
        match r {
            Some(cause) => group_cause(*program, group_members(changes@, *group), group_edit(*group))
                == Some(cause_view(cause)),
            None => group_cause(*program, group_members(changes@, *group), group_edit(*group)) is None,
        },
{
    if group.members.len() < 2 {
        return None;
    }
    let ghost members = group_members(changes@, *group);
    let mut names: Vec<String> = Vec::new();
    let mut i: usize = 0;
    while i < group.members.len()
        invariant
            i <= group.members.len(),
            names.len() == i,
            members == group_members(changes@, *group),
            forall|i: int| 0 <= i < group.members.len() ==> (#[trigger] group.members@[i]) < changes.len(),
            forall|k: int| 0 <= k < i ==> (#[trigger] names@[k])@ == members[k].name@,
        decreases group.members.len() - i,
    {
        names.push(changes[group.members[i]].name.clone());
        i += 1;
    }
    assert(views(names@) =~= change_names(members));
    let likely = likely_inline(program, &group.removed, &group.added);
    if likely.is_some() {
        return Some(
            Cause::SharedEdit {
                removed: copied(&group.removed),
                added: copied(&group.added),
                declarations: names,
                likely,
            },
        );
    }
    assert(members =~= Seq::new(group.members.len() as nat, |i: int| changes@[group.members@[i] as int]));
    match shared_guard(program, changes, &group.members) {
        Some(guard) => Some(Cause::Guard { name: guard, commands: names }),
        None => Some(
            Cause::SharedEdit {
                removed: copied(&group.removed),
                added: copied(&group.added),
                declarations: names,
                likely: None,
            },
        ),
    }
}

/// Groups the changes that share one cause.
///
/// The unit of evidence is the edit: two declarations that changed by the same lines
/// almost certainly changed because one thing that both name changed. Grouping first and
/// identifying second keeps a guard from being blamed because the one command that
/// changed happens to call it.
pub fn attribute(program: &Program, changes: &Vec<Change>) -> (r: Vec<Cause>)
    ensures
        cause_views(r@) == attributed(*program, changes@),
{
    let groups = group_changes(changes);
    let ghost unsorted = groups@;
    let sorted_groups = sort(groups);
    let ghost edits = sorted(edits_of(changes@), edit_order());
    proof {
        lemma_sorted_map(
            unsorted,
            |g: Group| group_edit(g),
            |a: Group, b: Group| a.ranks_before(b),
            edit_order(),
        );
        assert(group_edits(sorted_groups@) == edits);
        assert forall|k: int| 0 <= k < sorted_groups.len() implies group_holds(
            changes@,
            changes.len() as int,
            #[trigger] sorted_groups@[k],
        ) by {
            assert(sorted_groups@.contains(sorted_groups@[k]));
            lemma_sorted_contains(
                unsorted,
                |a: Group, b: Group| a.ranks_before(b),
                sorted_groups@[k],
            );
            let j = choose|j: int| 0 <= j < unsorted.len() && unsorted[j] == sorted_groups@[k];
            assert(group_holds(changes@, changes.len() as int, unsorted[j]));
        }
    }
    let mut causes: Vec<Cause> = Vec::new();
    let mut i: usize = 0;
    assert(edits.take(0) =~= Seq::empty());
    assert(cause_views(causes@) =~= Seq::empty());
    while i < sorted_groups.len()
        invariant
            i <= sorted_groups.len(),
            group_edits(sorted_groups@) == edits,
            forall|k: int|
                0 <= k < sorted_groups.len() ==> group_holds(
                    changes@,
                    changes.len() as int,
                    #[trigger] sorted_groups@[k],
                ),
            cause_views(causes@) == causes_of(*program, changes@, edits.take(i as int)),
        decreases sorted_groups.len() - i,
    {
        let group = &sorted_groups[i];
        proof {
            assert(group_holds(changes@, changes.len() as int, sorted_groups@[i as int]));
            assert(changes@.take(changes@.len() as int) =~= changes@);
            assert(edits.take(i as int + 1).drop_last() =~= edits.take(i as int));
            assert(group_edits(sorted_groups@)[i as int] == group_edit(*group));
            assert(edits.take(i as int + 1).last() == group_edit(*group));
        }
        let ghost had = cause_views(causes@);
        if let Some(cause) = cause_of(program, changes, group) {
            causes.push(cause);
            assert(cause_views(causes@) =~= had.push(cause_view(cause)));
        }
        i += 1;
    }
    assert(edits.take(i as int) =~= edits);
    causes
}

// ---------------------------------------------------------------------------
// Forecasts
// ---------------------------------------------------------------------------

/// What one projector's read model records, beside its current definition. A model that
/// is not there has never run: nothing is recorded and its checkpoint is zero.
pub struct Observed {
    pub name: String,
    pub previous: Option<String>,
    pub checkpoint: u64,
    pub definition: String,
}

/// What one projector would do on the next boot.
pub open spec fn forecast_view(seen: Observed, auto_rebuild: bool) -> (Seq<char>, Rebuild, u64) {
    (
        seen.name@,
        rebuild_of(
            reconciled(option_view(seen.previous), seen.checkpoint, seen.definition@, auto_rebuild),
        ),
        seen.checkpoint,
    )
}

/// What each projector would do on the next boot.
pub fn forecast(seen: &Vec<Observed>, auto_rebuild: bool) -> (r: Vec<Forecast>)
    ensures
        r.len() == seen.len(),
        forall|i: int|
            0 <= i < r.len() ==> ((#[trigger] r@[i]).name@, r@[i].outcome, r@[i].checkpoint)
                == forecast_view(seen@[i], auto_rebuild),
{
    let mut out: Vec<Forecast> = Vec::new();
    let mut i: usize = 0;
    while i < seen.len()
        invariant
            i <= seen.len(),
            out.len() == i,
            forall|k: int|
                0 <= k < i ==> ((#[trigger] out@[k]).name@, out@[k].outcome, out@[k].checkpoint)
                    == forecast_view(seen@[k], auto_rebuild),
        decreases seen.len() - i,
    {
        let one = &seen[i];
        let plan = reconcile_from(&one.previous, one.checkpoint, &one.definition, auto_rebuild);
        out.push(
            Forecast {
                name: one.name.clone(),
                outcome: Rebuild::of(plan),
                checkpoint: one.checkpoint,
            },
        );
        i += 1;
    }
    out
}

// ---------------------------------------------------------------------------
// Which effects a deploy could move
// ---------------------------------------------------------------------------

/// Where the last effect entry of that name stands.
pub open spec fn effect_entry(entries: Seq<Entry>, name: Seq<char>) -> Option<int>
    decreases entries.len(),
{
    if entries.len() == 0 {
        None
    } else if entry_decl(entries.last()) == (Kind::Effect, name) {
        Some(entries.len() - 1)
    } else {
        effect_entry(entries.drop_last(), name)
    }
}

/// The declarations that changed.
pub open spec fn changed_set(changes: Seq<Change>) -> Set<DeclView> {
    Set::new(
        |d: DeclView|
            exists|i: int|
                0 <= i < changes.len() && ((#[trigger] changes[i]).kind, changes[i].name@) == d,
    )
}

/// The message for an effect that has no entry in the digest.
pub open spec fn no_entry_message(name: Seq<char>) -> Seq<char> {
    "effect `"@ + name
        + "` is loaded but has no entry in the project's digest, so there is no form to decide whether this deploy would move it"@
}

/// The affected ones among loaded effects, each with its entry, or the first that has no
/// entry: by where they stand.
pub open spec fn affected(entries: Seq<Entry>, effects: Seq<Seq<char>>, changes: Seq<Change>) -> Result<
    Seq<(int, int)>,
    Seq<char>,
>
    decreases effects.len(),
{
    if effects.len() == 0 {
        Ok(Seq::empty())
    } else {
        match affected(entries, effects.drop_last(), changes) {
            Err(message) => Err(message),
            Ok(found) => {
                let name = effects.last();
                match effect_entry(entries, name) {
                    None => Err(no_entry_message(name)),
                    Some(at) => if tainted_by(entries, changed_set(changes)).contains(
                        (Kind::Effect, name),
                    ) {
                        Ok(found.push((effects.len() - 1, at)))
                    } else {
                        Ok(found)
                    },
                }
            },
        }
    }
}

proof fn lemma_affected_error(
    entries: Seq<Entry>,
    effects: Seq<Seq<char>>,
    changes: Seq<Change>,
    upto: int,
)
    requires
        0 <= upto <= effects.len(),
        affected(entries, effects.take(upto), changes) is Err,
    ensures
        affected(entries, effects, changes) == affected(entries, effects.take(upto), changes),
    decreases effects.len(),
{
    if upto < effects.len() {
        assert(effects.drop_last().take(upto) =~= effects.take(upto));
        lemma_affected_error(entries, effects.drop_last(), changes, upto);
    } else {
        assert(effects.take(upto) =~= effects);
    }
}

fn find_effect(entries: &Vec<Entry>, name: &str) -> (r: Option<usize>)
    ensures
        match r {
            Some(i) => i < entries.len() && effect_entry(entries@, name@) == Some(i as int),
            None => effect_entry(entries@, name@) is None,
        },
{
    let mut i: usize = entries.len();
    assert(entries@.take(i as int) =~= entries@);
    while i > 0
        invariant
            i <= entries.len(),
            effect_entry(entries@.take(i as int), name@) == effect_entry(entries@, name@),
        decreases i,
    {
        assert(entries@.take(i as int).drop_last() =~= entries@.take(i as int - 1));
        assert(entries@.take(i as int).last() == entries@[i as int - 1]);
        i -= 1;
        if entries[i].kind == Kind::Effect && same(&entries[i].name, name) {
            return Some(i);
        }
    }
    None
}

pub open spec fn pair_views(pairs: Seq<(usize, usize)>) -> Seq<(int, int)> {
    Seq::new(pairs.len(), |i: int| (pairs[i].0 as int, pairs[i].1 as int))
}

/// Every loaded effect whose behaviour this deploy could move, with its entry: those that
/// changed, and those that name something that did, directly or not.
///
/// An effect that is loaded and has no entry is an error rather than left out: that a
/// deploy cannot have moved an effect must never be concluded by accident.
pub fn affected_effects(entries: &Vec<Entry>, effects: &Vec<String>, changes: &Vec<Change>) -> (r: Result<
    Vec<(usize, usize)>,
    String,
>)
    ensures
        match r {
            Ok(found) => affected(entries@, views(effects@), changes@) == Ok::<
                Seq<(int, int)>,
                Seq<char>,
            >(pair_views(found@)),
            Err(message) => affected(entries@, views(effects@), changes@) == Err::<
                Seq<(int, int)>,
                Seq<char>,
            >(message@),
        },
{
    let mut changed: Vec<Decl> = Vec::new();
    let mut i: usize = 0;
    assert(decl_set(changed@) =~= changed_set(changes@.take(0)));
    while i < changes.len()
        invariant
            i <= changes.len(),
            decl_set(changed@) == changed_set(changes@.take(i as int)),
        decreases changes.len() - i,
    {
        add_decl(&mut changed, changes[i].kind, &changes[i].name);
        proof {
            let part = changes@.take(i as int);
            let more = changes@.take(i as int + 1);
            let own = (changes@[i as int].kind, changes@[i as int].name@);
            assert forall|d: DeclView| changed_set(more).contains(d) == changed_set(part).insert(own).contains(d) by {
                if changed_set(part).contains(d) {
                    let k = choose|k: int| 0 <= k < part.len() && ((#[trigger] part[k]).kind, part[k].name@) == d;
                    assert(more[k] == part[k]);
                }
                if d == own {
                    assert((more[i as int].kind, more[i as int].name@) == d);
                }
                if changed_set(more).contains(d) {
                    let k = choose|k: int| 0 <= k < more.len() && ((#[trigger] more[k]).kind, more[k].name@) == d;
                    if k < i {
                        assert(part[k] == more[k]);
                    }
                }
            }
            assert(changed_set(more) =~= changed_set(part).insert(own));
        }
        i += 1;
    }
    assert(changes@.take(i as int) =~= changes@);
    let tainted = declarations_reaching(entries, changed);
    let mut found: Vec<(usize, usize)> = Vec::new();
    let ghost names = views(effects@);
    let mut i: usize = 0;
    assert(names.take(0) =~= Seq::empty());
    assert(pair_views(found@) =~= Seq::empty());
    while i < effects.len()
        invariant
            i <= effects.len(),
            names == views(effects@),
            decl_set(tainted@) == tainted_by(entries@, changed_set(changes@)),
            affected(entries@, names.take(i as int), changes@) == Ok::<Seq<(int, int)>, Seq<char>>(
                pair_views(found@),
            ),
        decreases effects.len() - i,
    {
        assert(names.take(i as int + 1).drop_last() =~= names.take(i as int));
        assert(names.take(i as int + 1).last() == effects@[i as int]@);
        match find_effect(entries, &effects[i]) {
            None => {
                let mut message = "effect `".to_owned();
                message.append(&effects[i]);
                message.append(
                    "` is loaded but has no entry in the project's digest, so there is no form to decide whether this deploy would move it",
                );
                proof {
                    lemma_affected_error(entries@, names, changes@, i as int + 1);
                }
                return Err(message);
            },
            Some(at) => {
                if crate::digest::holds_decl(&tainted, Kind::Effect, &effects[i]) {
                    let ghost had = pair_views(found@);
                    found.push((i, at));
                    assert(pair_views(found@) =~= had.push((i as int, at as int)));
                }
            },
        }
        i += 1;
    }
    assert(names.take(i as int) =~= names);
    Ok(found)
}

/// What the verdict on a changed declaration says: a behaviour change keeps what is
/// visible outside the program, a contract change does not, and a declaration that does
/// what it did is not a change.
pub proof fn law_a_verdict_says_what_is_visible(entry: Entry, rows: Seq<DeployedView>)
    ensures
        match (row_named(rows, entry.kind, entry.name@), entry_change(entry, rows)) {
            (None, Some(change)) => change.verdict == Verdict::Added,
            (Some(was), Some(change)) => {
                &&& was.hash != entry.hash@
                &&& (change.verdict == Verdict::Behaviour) == (was.signature_hash == option_view(
                    entry.signature_hash,
                ))
                &&& (change.verdict == Verdict::Contract) == (was.signature_hash != option_view(
                    entry.signature_hash,
                ))
            },
            (Some(was), None) => was.hash == entry.hash@,
            (None, None) => false,
        },
{
}

} // verus!
