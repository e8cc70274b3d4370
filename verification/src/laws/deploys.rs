//! Deploys: what differs from what is deployed, what a model does on the next boot, and which
//! effects a deploy could move.

use vstd::prelude::*;

use crate::digest::{
    entry_decl, kind_name, kind_of, kind_rank, named_by, names, references, tainted_by, DeclView, Entry, Kind, Sexp,
};
use crate::graph::{lemma_reached_start, lemma_reached_step, reached, within};
use crate::order::lemma_sorted_contains;
use crate::plan::{
    affected, change_order, changed_set, differences, effect_entry, entry_change, entry_changes, forecast_view,
    has_row, is_mismatch, latest, packed_entry, recorded_row, recorded_rows, removal, removals, row_named,
    unreproduced, Change, ChangeView, DeployedView, Observed, Rebuild,
};
use crate::projector::reconciled;
use crate::text::option_view;

verus! {

// ---------------------------------------------------------------------------
// Differences
// ---------------------------------------------------------------------------

/// Whether a place holds what is deployed under a kind and a name: the last row of both.
pub open spec fn deployed_at(rows: Seq<DeployedView>, kind: Kind, name: Seq<char>, at: int) -> bool {
    &&& 0 <= at < rows.len()
    &&& rows[at].kind == kind
    &&& rows[at].name == name
    &&& forall|i: int| at < i < rows.len() ==> !((#[trigger] rows[i]).kind == kind && rows[i].name == name)
}

/// Whether nothing is deployed under a kind and a name.
pub open spec fn undeployed(rows: Seq<DeployedView>, kind: Kind, name: Seq<char>) -> bool {
    forall|i: int| 0 <= i < rows.len() ==> !((#[trigger] rows[i]).kind == kind && rows[i].name == name)
}

/// Whether a change tells of a declaration that is new: its form is what it will be, and it had
/// none.
pub open spec fn tells_of_addition(entry: Entry, rows: Seq<DeployedView>, change: ChangeView) -> bool {
    &&& undeployed(rows, entry.kind, entry.name@)
    &&& change.verdict is Added
    &&& change.before is None
    &&& change.after == Some(entry.expanded@)
}

/// Whether a change tells of a declaration that does something else than what is deployed: from
/// the form that is deployed to the candidate's, as a change of the contract exactly where what is
/// visible from outside differs.
pub open spec fn tells_of_edit(entry: Entry, rows: Seq<DeployedView>, at: int, change: ChangeView) -> bool {
    &&& deployed_at(rows, entry.kind, entry.name@, at)
    &&& rows[at].hash != entry.hash@
    &&& change.verdict is Contract <==> rows[at].signature_hash != option_view(entry.signature_hash)
    &&& change.verdict is Behaviour <==> rows[at].signature_hash == option_view(entry.signature_hash)
    &&& change.before == Some(rows[at].expanded)
    &&& change.after == Some(entry.expanded@)
}

/// Whether a change tells of an entry of the candidate.
pub open spec fn tells_of(entry: Entry, rows: Seq<DeployedView>, change: ChangeView) -> bool {
    &&& change.kind == entry.kind
    &&& change.name == entry.name@
    &&& change.module == option_view(entry.module)
    &&& tells_of_addition(entry, rows, change) || exists|at: int| #[trigger]
        tells_of_edit(entry, rows, at, change)
}

/// Whether a change tells of a declaration that is deployed and gone from the candidate.
pub open spec fn tells_of_removal(entries: Seq<Entry>, rows: Seq<DeployedView>, at: int, change: ChangeView) -> bool {
    &&& 0 <= at < rows.len()
    &&& deployed_at(rows, rows[at].kind, rows[at].name, at)
    &&& forall|i: int|
        0 <= i < entries.len() ==> !((#[trigger] entries[i]).kind == rows[at].kind && entries[i].name@
            == rows[at].name)
    &&& change.kind == rows[at].kind
    &&& change.name == rows[at].name
    &&& change.module == rows[at].module
    &&& change.verdict is Removed
    &&& change.before == Some(rows[at].expanded)
    &&& change.after is None
}

proof fn lemma_latest(rows: Seq<DeployedView>, row: DeployedView)
    ensures
        latest(rows).contains(row) <==> exists|at: int|
            #[trigger] deployed_at(rows, row.kind, row.name, at) && rows[at] == row,
    decreases rows.len(),
{
    if rows.len() > 0 {
        let rest = rows.skip(1);
        lemma_latest(rest, row);
        let here = seq![rows[0]] + latest(rest);
        assert(here.contains(row) <==> row == rows[0] || latest(rest).contains(row)) by {
            if latest(rest).contains(row) {
                let k = choose|k: int| 0 <= k < latest(rest).len() && latest(rest)[k] == row;
                assert(here[k + 1] == row);
            }
            if row == rows[0] {
                assert(here[0] == row);
            }
            if here.contains(row) && row != rows[0] {
                let k = choose|k: int| 0 <= k < here.len() && here[k] == row;
                assert(latest(rest)[k - 1] == row);
            }
        }
        if latest(rest).contains(row) {
            let at = choose|at: int| #[trigger] deployed_at(rest, row.kind, row.name, at) && rest[at] == row;
            assert(deployed_at(rows, row.kind, row.name, at + 1)) by {
                assert forall|i: int| at + 1 < i < rows.len() implies !((#[trigger] rows[i]).kind == row.kind
                    && rows[i].name == row.name) by {
                    assert(rest[i - 1] == rows[i]);
                }
            }
            assert(rows[at + 1] == row);
        }
        if !has_row(rest, rows[0].kind, rows[0].name) && row == rows[0] {
            assert(deployed_at(rows, row.kind, row.name, 0)) by {
                assert forall|i: int| 0 < i < rows.len() implies !((#[trigger] rows[i]).kind == row.kind
                    && rows[i].name == row.name) by {
                    assert(rest[i - 1] == rows[i]);
                }
            }
        }
        if exists|at: int| #[trigger] deployed_at(rows, row.kind, row.name, at) && rows[at] == row {
            let at = choose|at: int| #[trigger] deployed_at(rows, row.kind, row.name, at) && rows[at] == row;
            if at > 0 {
                assert(deployed_at(rest, row.kind, row.name, at - 1)) by {
                    assert forall|i: int| at - 1 < i < rest.len() implies !((#[trigger] rest[i]).kind
                        == row.kind && rest[i].name == row.name) by {
                        assert(rows[i + 1] == rest[i]);
                    }
                }
                assert(rest[at - 1] == row);
            } else {
                assert(!has_row(rest, rows[0].kind, rows[0].name)) by {
                    if has_row(rest, rows[0].kind, rows[0].name) {
                        let i = choose|i: int|
                            0 <= i < rest.len() && (#[trigger] rest[i]).kind == rows[0].kind && rest[i].name
                                == rows[0].name;
                        assert(rows[i + 1] == rest[i]);
                    }
                }
            }
        }
    }
}

proof fn lemma_row_named(rows: Seq<DeployedView>, kind: Kind, name: Seq<char>)
    ensures
        match row_named(rows, kind, name) {
            Some(row) => exists|i: int|
                0 <= i < rows.len() && #[trigger] rows[i] == row && row.kind == kind && row.name == name,
            None => undeployed(rows, kind, name),
        },
    decreases rows.len(),
{
    if rows.len() > 0 {
        if rows.last().kind == kind && rows.last().name == name {
            assert(rows[rows.len() - 1] == rows.last());
        } else {
            let rest = rows.drop_last();
            lemma_row_named(rest, kind, name);
            match row_named(rest, kind, name) {
                Some(row) => {
                    let i = choose|i: int|
                        0 <= i < rest.len() && #[trigger] rest[i] == row && row.kind == kind && row.name
                            == name;
                    assert(rows[i] == row);
                },
                None => {
                    assert forall|i: int| 0 <= i < rows.len() implies !((#[trigger] rows[i]).kind == kind
                        && rows[i].name == name) by {
                        if i < rest.len() {
                            assert(rest[i] == rows[i]);
                        }
                    }
                },
            }
        }
    }
}

/// What a candidate is compared with is the last that was recorded under a kind and a name.
pub proof fn law_the_last_row_is_what_is_deployed(rows: Seq<DeployedView>, kind: Kind, name: Seq<char>)
    ensures
        match row_named(latest(rows), kind, name) {
            Some(row) => exists|at: int| #[trigger] deployed_at(rows, kind, name, at) && rows[at] == row,
            None => undeployed(rows, kind, name),
        },
{
    let kept = latest(rows);
    lemma_row_named(kept, kind, name);
    match row_named(kept, kind, name) {
        Some(row) => {
            assert(kept.contains(row));
            lemma_latest(rows, row);
        },
        None => {
            if !undeployed(rows, kind, name) {
                let i = choose|i: int|
                    0 <= i < rows.len() && (#[trigger] rows[i]).kind == kind && rows[i].name == name;
                let at = lemma_last_deployed(rows, kind, name, i);
                lemma_latest(rows, rows[at]);
                assert(kept.contains(rows[at]));
                let k = choose|k: int| 0 <= k < kept.len() && kept[k] == rows[at];
                assert(kept[k].kind == kind);
            }
        },
    }
}

proof fn lemma_last_deployed(rows: Seq<DeployedView>, kind: Kind, name: Seq<char>, from: int) -> (at: int)
    requires
        0 <= from < rows.len(),
        rows[from].kind == kind,
        rows[from].name == name,
    ensures
        deployed_at(rows, kind, name, at),
    decreases rows.len() - from,
{
    if exists|i: int| from < i < rows.len() && (#[trigger] rows[i]).kind == kind && rows[i].name == name {
        let i = choose|i: int| from < i < rows.len() && (#[trigger] rows[i]).kind == kind && rows[i].name == name;
        lemma_last_deployed(rows, kind, name, i)
    } else {
        from
    }
}

proof fn lemma_one_deployed(rows: Seq<DeployedView>, kind: Kind, name: Seq<char>, a: int, b: int)
    requires
        deployed_at(rows, kind, name, a),
        deployed_at(rows, kind, name, b),
    ensures
        a == b,
{
    if a < b {
        assert(rows[b].kind == kind);
    }
    if b < a {
        assert(rows[a].kind == kind);
    }
}

proof fn lemma_entry_change(entry: Entry, rows: Seq<DeployedView>, change: ChangeView)
    ensures
        entry_change(entry, latest(rows)) == Some(change) <==> tells_of(entry, rows, change),
{
    law_the_last_row_is_what_is_deployed(rows, entry.kind, entry.name@);
    match row_named(latest(rows), entry.kind, entry.name@) {
        Some(row) => {
            let at = choose|at: int|
                #[trigger] deployed_at(rows, entry.kind, entry.name@, at) && rows[at] == row;
            assert(!undeployed(rows, entry.kind, entry.name@)) by {
                assert(rows[at].kind == entry.kind);
            }
            if entry_change(entry, latest(rows)) == Some(change) {
                assert(tells_of_edit(entry, rows, at, change));
            }
            if tells_of(entry, rows, change) {
                let own = choose|own: int| #[trigger] tells_of_edit(entry, rows, own, change);
                lemma_one_deployed(rows, entry.kind, entry.name@, at, own);
                assert(entry_change(entry, latest(rows)) == Some(change));
            }
        },
        None => {
            if tells_of(entry, rows, change) {
                assert(tells_of_addition(entry, rows, change)) by {
                    if exists|at: int| #[trigger] tells_of_edit(entry, rows, at, change) {
                        let at = choose|at: int| #[trigger] tells_of_edit(entry, rows, at, change);
                        assert(rows[at].kind == entry.kind);
                    }
                }
            }
        },
    }
}

proof fn lemma_entry_changes(entries: Seq<Entry>, rows: Seq<DeployedView>, change: ChangeView)
    ensures
        entry_changes(entries, latest(rows)).contains(change) <==> exists|i: int|
            0 <= i < entries.len() && tells_of(#[trigger] entries[i], rows, change),
    decreases entries.len(),
{
    if entries.len() > 0 {
        let rest = entries.drop_last();
        lemma_entry_changes(rest, rows, change);
        lemma_entry_change(entries.last(), rows, change);
        let had = entry_changes(rest, latest(rows));
        if exists|i: int| 0 <= i < rest.len() && tells_of(#[trigger] rest[i], rows, change) {
            let i = choose|i: int| 0 <= i < rest.len() && tells_of(#[trigger] rest[i], rows, change);
            assert(entries[i] == rest[i]);
        }
        if exists|i: int| 0 <= i < entries.len() && tells_of(#[trigger] entries[i], rows, change) {
            let i = choose|i: int| 0 <= i < entries.len() && tells_of(#[trigger] entries[i], rows, change);
            if i < rest.len() {
                assert(rest[i] == entries[i]);
            }
        }
        if let Some(own) = entry_change(entries.last(), latest(rows)) {
            lemma_pushed(had, own, change);
        }
        if tells_of(entries.last(), rows, change) {
            assert(tells_of(entries[entries.len() - 1], rows, change));
        }
    }
}

proof fn lemma_pushed(had: Seq<ChangeView>, own: ChangeView, change: ChangeView)
    ensures
        had.push(own).contains(change) <==> had.contains(change) || own == change,
{
    let all = had.push(own);
    if had.contains(change) {
        let k = choose|k: int| 0 <= k < had.len() && had[k] == change;
        assert(all[k] == change);
    }
    if own == change {
        assert(all[had.len() as int] == change);
    }
    if all.contains(change) && own != change {
        let k = choose|k: int| 0 <= k < all.len() && all[k] == change;
        assert(had[k] == change);
    }
}

proof fn lemma_removals(entries: Seq<Entry>, rows: Seq<DeployedView>, change: ChangeView)
    ensures
        removals(entries, rows).contains(change) <==> exists|k: int|
            0 <= k < rows.len() && removal(#[trigger] rows[k]) == change && !crate::plan::declares(
                entries,
                rows[k].kind,
                rows[k].name,
            ),
    decreases rows.len(),
{
    if rows.len() > 0 {
        let rest = rows.drop_last();
        lemma_removals(entries, rest, change);
        let had = removals(entries, rest);
        if exists|k: int|
            0 <= k < rest.len() && removal(#[trigger] rest[k]) == change && !crate::plan::declares(
                entries,
                rest[k].kind,
                rest[k].name,
            ) {
            let k = choose|k: int|
                0 <= k < rest.len() && removal(#[trigger] rest[k]) == change && !crate::plan::declares(
                    entries,
                    rest[k].kind,
                    rest[k].name,
                );
            assert(rows[k] == rest[k]);
        }
        if exists|k: int|
            0 <= k < rows.len() && removal(#[trigger] rows[k]) == change && !crate::plan::declares(
                entries,
                rows[k].kind,
                rows[k].name,
            ) {
            let k = choose|k: int|
                0 <= k < rows.len() && removal(#[trigger] rows[k]) == change && !crate::plan::declares(
                    entries,
                    rows[k].kind,
                    rows[k].name,
                );
            if k < rest.len() {
                assert(rest[k] == rows[k]);
            }
        }
        lemma_pushed(had, removal(rows.last()), change);
        if !crate::plan::declares(entries, rows.last().kind, rows.last().name) && removal(rows.last())
            == change {
            assert(removal(rows[rows.len() - 1]) == change);
        }
    }
}

/// A deploy is told of as what it changes and as nothing else: every declaration that is new, every
/// one that does something else than what is deployed, and every one that is deployed and gone.
pub proof fn law_a_deploy_is_told_of_as_what_it_changes(
    entries: Seq<Entry>,
    rows: Seq<DeployedView>,
    change: ChangeView,
)
    ensures
        differences(entries, rows).contains(change) <==> (exists|i: int|
            0 <= i < entries.len() && tells_of(#[trigger] entries[i], rows, change)) || exists|at: int|
            #[trigger] tells_of_removal(entries, rows, at, change),
{
    let kept = latest(rows);
    let first = entry_changes(entries, kept);
    let second = removals(entries, kept);
    let both = first + second;
    lemma_sorted_contains(both, change_order(), change);
    lemma_entry_changes(entries, rows, change);
    lemma_removals(entries, kept, change);
    assert(both.contains(change) <==> first.contains(change) || second.contains(change)) by {
        if first.contains(change) {
            let k = choose|k: int| 0 <= k < first.len() && first[k] == change;
            assert(both[k] == change);
        }
        if second.contains(change) {
            let k = choose|k: int| 0 <= k < second.len() && second[k] == change;
            assert(both[first.len() + k] == change);
        }
        if both.contains(change) {
            let k = choose|k: int| 0 <= k < both.len() && both[k] == change;
            if k < first.len() {
                assert(first[k] == change);
            } else {
                assert(second[k - first.len()] == change);
            }
        }
    }
    if second.contains(change) {
        let k = choose|k: int|
            0 <= k < kept.len() && removal(#[trigger] kept[k]) == change && !crate::plan::declares(
                entries,
                kept[k].kind,
                kept[k].name,
            );
        assert(kept.contains(kept[k]));
        lemma_latest(rows, kept[k]);
        let at = choose|at: int|
            #[trigger] deployed_at(rows, kept[k].kind, kept[k].name, at) && rows[at] == kept[k];
        assert forall|i: int| 0 <= i < entries.len() implies !((#[trigger] entries[i]).kind == rows[at].kind
            && entries[i].name@ == rows[at].name) by {
            if entries[i].kind == rows[at].kind && entries[i].name@ == rows[at].name {
                assert(entry_decl(entries[i]) == (kept[k].kind, kept[k].name));
            }
        }
        assert(tells_of_removal(entries, rows, at, change));
    }
    if exists|at: int| #[trigger] tells_of_removal(entries, rows, at, change) {
        let at = choose|at: int| #[trigger] tells_of_removal(entries, rows, at, change);
        lemma_latest(rows, rows[at]);
        assert(kept.contains(rows[at]));
        let k = choose|k: int| 0 <= k < kept.len() && kept[k] == rows[at];
        assert(!crate::plan::declares(entries, kept[k].kind, kept[k].name)) by {
            if crate::plan::declares(entries, kept[k].kind, kept[k].name) {
                let i = choose|i: int|
                    0 <= i < entries.len() && entry_decl(#[trigger] entries[i]) == (kept[k].kind, kept[k].name);
                assert(entries[i].kind == rows[at].kind);
            }
        }
        assert(removal(kept[k]) == change);
    }
}

/// Nothing that is deployed can be compared exactly where something is and none of it has the hash
/// that was recorded for it.
pub proof fn law_nothing_compares_where_no_hash_is_reproduced(rows: Seq<DeployedView>)
    requires
        forall|i: int, j: int|
            0 <= i < j < rows.len() ==> !((#[trigger] rows[i]).kind == (#[trigger] rows[j]).kind
                && rows[i].name == rows[j].name),
    ensures
        is_mismatch(rows) <==> rows.len() > 0 && forall|i: int|
            0 <= i < rows.len() ==> (#[trigger] rows[i]).hash != rows[i].recorded_hash,
{
    lemma_all_latest(rows);
    lemma_unreproduced(rows);
}

proof fn lemma_all_latest(rows: Seq<DeployedView>)
    requires
        forall|i: int, j: int|
            0 <= i < j < rows.len() ==> !((#[trigger] rows[i]).kind == (#[trigger] rows[j]).kind
                && rows[i].name == rows[j].name),
    ensures
        latest(rows) == rows,
    decreases rows.len(),
{
    if rows.len() > 0 {
        let rest = rows.skip(1);
        assert forall|i: int, j: int| 0 <= i < j < rest.len() implies !((#[trigger] rest[i]).kind == (
        #[trigger] rest[j]).kind && rest[i].name == rest[j].name) by {
            assert(rows[i + 1] == rest[i] && rows[j + 1] == rest[j]);
        }
        lemma_all_latest(rest);
        assert(!has_row(rest, rows[0].kind, rows[0].name)) by {
            if has_row(rest, rows[0].kind, rows[0].name) {
                let i = choose|i: int|
                    0 <= i < rest.len() && (#[trigger] rest[i]).kind == rows[0].kind && rest[i].name
                        == rows[0].name;
                assert(rows[i + 1] == rest[i]);
            }
        }
        assert(seq![rows[0]] + rest =~= rows);
    }
}

proof fn lemma_unreproduced(rows: Seq<DeployedView>)
    ensures
        unreproduced(rows) <= rows.len(),
        unreproduced(rows) == rows.len() <==> forall|i: int|
            0 <= i < rows.len() ==> (#[trigger] rows[i]).hash != rows[i].recorded_hash,
    decreases rows.len(),
{
    if rows.len() > 0 {
        let rest = rows.drop_last();
        lemma_unreproduced(rest);
        if forall|i: int| 0 <= i < rest.len() ==> (#[trigger] rest[i]).hash != rest[i].recorded_hash {
            if rows.last().hash != rows.last().recorded_hash {
                assert forall|i: int| 0 <= i < rows.len() implies (#[trigger] rows[i]).hash
                    != rows[i].recorded_hash by {
                    if i < rest.len() {
                        assert(rest[i] == rows[i]);
                    }
                }
            } else {
                assert(rows[rows.len() - 1].hash == rows[rows.len() - 1].recorded_hash);
            }
        } else {
            let i = choose|i: int|
                0 <= i < rest.len() && (#[trigger] rest[i]).hash == rest[i].recorded_hash;
            assert(rows[i].hash == rows[i].recorded_hash);
        }
    }
}

/// A row is read as what it records: the declaration of its kind and name in its module, with the
/// hash that was recorded beside the hash that its form has now.
pub proof fn law_a_recorded_row_is_read_as_what_it_records(row: crate::opdb::DeclarationRow, kind: Kind)
    requires
        row.kind@ == kind_name(kind),
    ensures
        recorded_row(row) matches Ok(read) ==> {
            &&& read.kind == kind
            &&& read.name == row.name@
            &&& read.recorded_hash == row.hash@
            &&& read.module == option_view(row.module)
            &&& packed_entry(row.form@, option_view(row.signature)) == Ok::<
                (Seq<char>, Option<Seq<char>>, Seq<char>),
                Seq<char>,
            >((read.hash, read.signature_hash, read.expanded))
        },
        recorded_row(row) is Err <==> packed_entry(row.form@, option_view(row.signature)) is Err,
{
    law_a_kind_reads_back_from_its_word(kind, kind);
}

/// The rows are read in order, each as itself, and all of them or none.
pub proof fn law_all_rows_are_read_or_none(rows: Seq<crate::opdb::DeclarationRow>)
    ensures
        recorded_rows(rows) matches Ok(read) ==> read.len() == rows.len() && forall|i: int|
            0 <= i < rows.len() ==> recorded_row(#[trigger] rows[i]) == Ok::<DeployedView, Seq<char>>(read[i]),
        recorded_rows(rows) is Err <==> exists|i: int|
            0 <= i < rows.len() && recorded_row(#[trigger] rows[i]) is Err,
    decreases rows.len(),
{
    if rows.len() > 0 {
        let rest = rows.drop_last();
        law_all_rows_are_read_or_none(rest);
        if recorded_rows(rest) is Err {
            let i = choose|i: int| 0 <= i < rest.len() && recorded_row(#[trigger] rest[i]) is Err;
            assert(recorded_row(rows[i]) is Err);
        } else {
            assert forall|i: int| 0 <= i < rest.len() implies #[trigger] rows[i] == rest[i] by {}
            if recorded_row(rows.last()) is Err {
                assert(recorded_row(rows[rows.len() - 1]) is Err);
            } else {
                assert forall|i: int| 0 <= i < rows.len() implies recorded_row(#[trigger] rows[i]) is Ok by {
                    if i < rest.len() {
                        assert(recorded_row(rest[i]) is Ok);
                    }
                }
            }
        }
    }
}

// ---------------------------------------------------------------------------
// Kinds
// ---------------------------------------------------------------------------

proof fn lemma_kind_words()
    ensures
        "subject"@ != "event"@,
        "subject"@ != "enum"@,
        "subject"@ != "record"@,
        "subject"@ != "function"@,
        "subject"@ != "fold"@,
        "subject"@ != "command"@,
        "subject"@ != "projector"@,
        "subject"@ != "effect"@,
        "subject"@ != "test"@,
        "event"@ != "enum"@,
        "event"@ != "record"@,
        "event"@ != "function"@,
        "event"@ != "fold"@,
        "event"@ != "command"@,
        "event"@ != "projector"@,
        "event"@ != "effect"@,
        "event"@ != "test"@,
        "enum"@ != "record"@,
        "enum"@ != "function"@,
        "enum"@ != "fold"@,
        "enum"@ != "command"@,
        "enum"@ != "projector"@,
        "enum"@ != "effect"@,
        "enum"@ != "test"@,
        "record"@ != "function"@,
        "record"@ != "fold"@,
        "record"@ != "command"@,
        "record"@ != "projector"@,
        "record"@ != "effect"@,
        "record"@ != "test"@,
        "function"@ != "fold"@,
        "function"@ != "command"@,
        "function"@ != "projector"@,
        "function"@ != "effect"@,
        "function"@ != "test"@,
        "fold"@ != "command"@,
        "fold"@ != "projector"@,
        "fold"@ != "effect"@,
        "fold"@ != "test"@,
        "command"@ != "projector"@,
        "command"@ != "effect"@,
        "command"@ != "test"@,
        "projector"@ != "effect"@,
        "projector"@ != "test"@,
        "effect"@ != "test"@,
{
    reveal_strlit("subject");
    reveal_strlit("event");
    reveal_strlit("enum");
    reveal_strlit("record");
    reveal_strlit("function");
    reveal_strlit("fold");
    reveal_strlit("command");
    reveal_strlit("projector");
    reveal_strlit("effect");
    reveal_strlit("test");
    assert("subject"@.len() == 7);
    assert("event"@.len() == 5);
    assert("enum"@.len() == 4);
    assert("record"@.len() == 6);
    assert("function"@.len() == 8);
    assert("fold"@.len() == 4);
    assert("command"@.len() == 7);
    assert("projector"@.len() == 9);
    assert("effect"@.len() == 6);
    assert("test"@.len() == 4);
    assert("subject"@[0] == 's');
    assert("command"@[0] == 'c');
    assert("enum"@[0] == 'e');
    assert("fold"@[0] == 'f');
    assert("test"@[0] == 't');
    assert("record"@[0] == 'r');
    assert("effect"@[0] == 'e');
}

/// A kind reads back from the word it is recorded under, and no two kinds share a word or a place.
pub proof fn law_a_kind_reads_back_from_its_word(a: Kind, b: Kind)
    ensures
        kind_of(kind_name(a)) == Some(a),
        kind_name(a) == kind_name(b) <==> a == b,
        kind_rank(a) == kind_rank(b) <==> a == b,
{
    lemma_kind_words();
}

// ---------------------------------------------------------------------------
// What a boot does
// ---------------------------------------------------------------------------

/// A model goes on where it stood exactly where it was built under the definition it has now. One
/// that nothing is recorded of begins anew where it is empty. Any other has to be built again, which
/// is done where that is automatic, and is left to be asked for where it is not.
pub proof fn law_a_model_resumes_where_its_definition_is_the_same(
    previous: Option<Seq<char>>,
    checkpoint: u64,
    definition: Seq<char>,
    auto_rebuild: bool,
)
    ensures
        ({
            let plan = reconciled(previous, checkpoint, definition, auto_rebuild);
            &&& plan is UpToDate <==> previous == Some(definition)
            &&& plan is Stamp <==> previous is None && checkpoint == 0
            &&& plan is Rebuild ==> auto_rebuild
            &&& plan is Stale ==> !auto_rebuild
        }),
{
}

/// What is forecast of a projector is what its boot does: it keeps its name and its checkpoint, goes
/// on where its definition is the same, and does over what it did where it is not.
pub proof fn law_a_forecast_is_what_the_boot_does(seen: Observed, auto_rebuild: bool)
    ensures
        ({
            let (name, outcome, checkpoint) = forecast_view(seen, auto_rebuild);
            let same = option_view(seen.previous) == Some(seen.definition@);
            let empty = seen.previous is None && seen.checkpoint == 0;
            &&& name == seen.name@
            &&& checkpoint == seen.checkpoint
            &&& outcome is Resume <==> same
            &&& outcome is Fresh <==> empty
            &&& outcome is Rebuild <==> !same && !empty && auto_rebuild
            &&& outcome is Stale <==> !same && !empty && !auto_rebuild
        }),
{
}

// ---------------------------------------------------------------------------
// What a deploy could move
// ---------------------------------------------------------------------------

/// A chain of declarations in which each names the next.
pub open spec fn naming_chain(entries: Seq<Entry>, chain: Seq<DeclView>) -> bool {
    &&& chain.len() > 0
    &&& forall|k: int| 0 <= k < chain.len() - 1 ==> declared_to_name(entries, #[trigger] chain[k], chain[k + 1])
}

/// Whether a declaration's form names another.
pub open spec fn declared_to_name(entries: Seq<Entry>, namer: DeclView, named: DeclView) -> bool {
    exists|i: int|
        0 <= i < entries.len() && (#[trigger] entries[i]).kind == namer.0 && entries[i].name@ == namer.1 && names(
            entries[i].form,
            named,
        )
}

/// Whether a declaration comes to a changed one by some chain of names.
pub open spec fn comes_to_change(entries: Seq<Entry>, changed: Set<DeclView>, decl: DeclView) -> bool {
    exists|chain: Seq<DeclView>|
        #[trigger] naming_chain(entries, chain) && chain[0] == decl && changed.contains(chain.last())
}

proof fn lemma_within_chain(entries: Seq<Entry>, changed: Set<DeclView>, steps: nat, decl: DeclView)
    requires
        within(changed, named_by(entries), steps).contains(decl),
    ensures
        comes_to_change(entries, changed, decl),
    decreases steps,
{
    if steps == 0 {
        let chain = seq![decl];
        assert(naming_chain(entries, chain));
        assert(chain.last() == decl);
    } else {
        let before = within(changed, named_by(entries), (steps - 1) as nat);
        if before.contains(decl) {
            lemma_within_chain(entries, changed, (steps - 1) as nat, decl);
        } else {
            let next = choose|next: DeclView|
                before.contains(next) && #[trigger] named_by(entries)(next).contains(decl);
            lemma_within_chain(entries, changed, (steps - 1) as nat, next);
            let rest = choose|rest: Seq<DeclView>|
                #[trigger] naming_chain(entries, rest) && rest[0] == next && changed.contains(rest.last());
            let chain = seq![decl] + rest;
            assert(declared_to_name(entries, decl, next)) by {
                let i = choose|i: int|
                    0 <= i < entries.len() && entry_decl(#[trigger] entries[i]) == decl && names(
                        entries[i].form,
                        next,
                    );
                assert(entries[i].kind == decl.0);
            }
            assert(naming_chain(entries, chain)) by {
                assert forall|k: int| 0 <= k < chain.len() - 1 implies declared_to_name(
                    entries,
                    #[trigger] chain[k],
                    chain[k + 1],
                ) by {
                    if k > 0 {
                        assert(chain[k] == rest[k - 1] && chain[k + 1] == rest[k]);
                        assert(declared_to_name(entries, rest[k - 1], rest[k]));
                    }
                }
            }
            assert(chain.last() == rest.last());
        }
    }
}

proof fn lemma_chain_reached(entries: Seq<Entry>, changed: Set<DeclView>, chain: Seq<DeclView>)
    requires
        naming_chain(entries, chain),
        changed.contains(chain.last()),
    ensures
        reached(changed, named_by(entries)).contains(chain[0]),
    decreases chain.len(),
{
    if chain.len() == 1 {
        lemma_reached_start(changed, named_by(entries), chain[0]);
    } else {
        let rest = chain.skip(1);
        assert(naming_chain(entries, rest)) by {
            assert forall|k: int| 0 <= k < rest.len() - 1 implies declared_to_name(
                entries,
                #[trigger] rest[k],
                rest[k + 1],
            ) by {
                assert(rest[k] == chain[k + 1] && rest[k + 1] == chain[k + 2]);
                assert(declared_to_name(entries, chain[k + 1], chain[k + 2]));
            }
        }
        assert(rest.last() == chain.last());
        lemma_chain_reached(entries, changed, rest);
        assert(declared_to_name(entries, chain[0], chain[1]));
        let i = choose|i: int|
            0 <= i < entries.len() && (#[trigger] entries[i]).kind == chain[0].0 && entries[i].name@ == chain[0].1
                && names(entries[i].form, chain[1]);
        assert(entry_decl(entries[i]) == chain[0]);
        assert(named_by(entries)(chain[1]).contains(chain[0]));
        lemma_reached_step(changed, named_by(entries), chain[1], chain[0]);
    }
}

/// A declaration is moved by changes exactly where it comes to one of them by a chain of
/// declarations each of which names the next.
pub proof fn law_a_change_moves_what_comes_to_it(entries: Seq<Entry>, changed: Set<DeclView>, decl: DeclView)
    ensures
        tainted_by(entries, changed).contains(decl) <==> comes_to_change(entries, changed, decl),
{
    if tainted_by(entries, changed).contains(decl) {
        assert(reached(changed, named_by(entries)).contains(decl));
        let steps = choose|steps: nat|
            #[trigger] within(changed, named_by(entries), steps).contains(decl);
        lemma_within_chain(entries, changed, steps, decl);
    }
    if comes_to_change(entries, changed, decl) {
        let chain = choose|chain: Seq<DeclView>|
            #[trigger] naming_chain(entries, chain) && chain[0] == decl && changed.contains(chain.last());
        lemma_chain_reached(entries, changed, chain);
    }
}

/// Whether a change is of that declaration.
pub open spec fn is_changed(changes: Seq<Change>, decl: DeclView) -> bool {
    exists|i: int|
        0 <= i < changes.len() && (#[trigger] changes[i]).kind == decl.0 && changes[i].name@ == decl.1
}

proof fn lemma_effect_entry(entries: Seq<Entry>, name: Seq<char>)
    ensures
        match effect_entry(entries, name) {
            Some(at) => 0 <= at < entries.len() && entries[at].kind is Effect && entries[at].name@ == name,
            None => forall|i: int|
                0 <= i < entries.len() ==> !((#[trigger] entries[i]).kind is Effect && entries[i].name@ == name),
        },
    decreases entries.len(),
{
    if entries.len() > 0 && entry_decl(entries.last()) != (Kind::Effect, name) {
        let rest = entries.drop_last();
        lemma_effect_entry(rest, name);
        assert forall|i: int| 0 <= i < rest.len() implies #[trigger] entries[i] == rest[i] by {}
    }
}

/// The effects that a deploy could move are those that changed and those that come to something that
/// did, each with its own entry. They are told only where every loaded effect has one.
pub proof fn law_a_deploy_could_move_the_effects_that_come_to_a_change(
    entries: Seq<Entry>,
    effects: Seq<Seq<char>>,
    changes: Seq<Change>,
    effect: int,
    at: int,
)
    requires
        0 <= effect < effects.len(),
    ensures
        affected(entries, effects, changes) is Err <==> exists|k: int|
            0 <= k < effects.len() && forall|i: int|
                0 <= i < entries.len() ==> !((#[trigger] entries[i]).kind is Effect && entries[i].name@
                    == #[trigger] effects[k]),
        affected(entries, effects, changes) matches Ok(found) ==> (found.contains((effect, at))
            ==> 0 <= at < entries.len() && entries[at].kind is Effect && entries[at].name@ == effects[effect]),
        affected(entries, effects, changes) matches Ok(found) ==> ((exists|entry: int|
            #[trigger] found.contains((effect, entry))) <==> comes_to_change(
            entries,
            Set::new(|decl: DeclView| is_changed(changes, decl)),
            (Kind::Effect, effects[effect]),
        )),
    decreases effects.len(),
{
    let moved = Set::new(|decl: DeclView| is_changed(changes, decl));
    assert(changed_set(changes) =~= moved) by {
        assert forall|decl: DeclView| changed_set(changes).contains(decl) == moved.contains(decl) by {
            if changed_set(changes).contains(decl) {
                let i = choose|i: int|
                    0 <= i < changes.len() && ((#[trigger] changes[i]).kind, changes[i].name@) == decl;
                assert(changes[i].kind == decl.0);
            }
            if is_changed(changes, decl) {
                let i = choose|i: int|
                    0 <= i < changes.len() && (#[trigger] changes[i]).kind == decl.0 && changes[i].name@
                        == decl.1;
                assert((changes[i].kind, changes[i].name@) == decl);
            }
        }
    }
    law_a_change_moves_what_comes_to_it(entries, moved, (Kind::Effect, effects[effect]));
    lemma_affected(entries, effects, changes, effect, at);
}

/// Whether a name is of no effect entry.
spec fn no_entry(entries: Seq<Entry>, name: Seq<char>) -> bool {
    forall|i: int| 0 <= i < entries.len() ==> !((#[trigger] entries[i]).kind is Effect && entries[i].name@ == name)
}

proof fn lemma_affected(
    entries: Seq<Entry>,
    effects: Seq<Seq<char>>,
    changes: Seq<Change>,
    effect: int,
    at: int,
)
    requires
        0 <= effect < effects.len(),
    ensures
        affected(entries, effects, changes) is Err <==> exists|k: int|
            0 <= k < effects.len() && no_entry(entries, #[trigger] effects[k]),
        affected(entries, effects, changes) matches Ok(found) ==> {
            &&& found.contains((effect, at)) ==> 0 <= at < entries.len() && entries[at].kind is Effect
                && entries[at].name@ == effects[effect]
            &&& (exists|entry: int| #[trigger] found.contains((effect, entry))) <==> tainted_by(
                entries,
                changed_set(changes),
            ).contains((Kind::Effect, effects[effect]))
            &&& forall|k: int| 0 <= k < found.len() ==> (#[trigger] found[k]).0 < effects.len()
        },
    decreases effects.len(),
{
    let rest = effects.drop_last();
    let last = effects.last();
    lemma_effect_entry(entries, last);
    if rest.len() > 0 {
        let within_rest = if effect < rest.len() {
            effect
        } else {
            0
        };
        lemma_affected(entries, rest, changes, within_rest, at);
        if exists|k: int| 0 <= k < rest.len() && no_entry(entries, #[trigger] rest[k]) {
            let k = choose|k: int| 0 <= k < rest.len() && no_entry(entries, #[trigger] rest[k]);
            assert(no_entry(entries, effects[k]));
        }
    } else {
        assert(affected(entries, rest, changes) == Ok::<Seq<(int, int)>, Seq<char>>(Seq::empty()));
    }
    if exists|k: int| 0 <= k < effects.len() && no_entry(entries, #[trigger] effects[k]) {
        let k = choose|k: int| 0 <= k < effects.len() && no_entry(entries, #[trigger] effects[k]);
        if k < rest.len() {
            assert(no_entry(entries, rest[k]));
        }
    }
    if no_entry(entries, last) {
        assert(no_entry(entries, effects[effects.len() - 1]));
    }
    if affected(entries, effects, changes) is Ok {
        let had = affected(entries, rest, changes)->Ok_0;
        let found = affected(entries, effects, changes)->Ok_0;
        let own = effect_entry(entries, last)->0;
        let hit = tainted_by(entries, changed_set(changes)).contains((Kind::Effect, last));
        assert(had.len() <= found.len());
        assert forall|pair: (int, int)| #[trigger] found.contains(pair) <==> had.contains(pair) || hit && pair
            == (effects.len() - 1, own) by {
            if had.contains(pair) {
                let k = choose|k: int| 0 <= k < had.len() && had[k] == pair;
                assert(found[k] == pair);
            }
            if hit && pair == (effects.len() - 1, own) {
                assert(found[had.len() as int] == pair);
            }
            if found.contains(pair) && !had.contains(pair) {
                let k = choose|k: int| 0 <= k < found.len() && found[k] == pair;
                if k < had.len() {
                    assert(had[k] == pair);
                }
            }
        }
        if effect < rest.len() {
            assert(effects[effect] == rest[effect]);
            if exists|entry: int| #[trigger] had.contains((effect, entry)) {
                let entry = choose|entry: int| #[trigger] had.contains((effect, entry));
                assert(found.contains((effect, entry)));
            }
            if exists|entry: int| #[trigger] found.contains((effect, entry)) {
                let entry = choose|entry: int| #[trigger] found.contains((effect, entry));
                assert(had.contains((effect, entry)));
            }
        } else {
            assert forall|entry: int| !#[trigger] had.contains((effect, entry)) by {
                if had.contains((effect, entry)) {
                    let k = choose|k: int| 0 <= k < had.len() && had[k] == (effect, entry);
                    assert(had[k].0 < rest.len());
                }
            }
            if hit {
                assert(found.contains((effect, own)));
            }
        }
        assert forall|k: int| 0 <= k < found.len() implies (#[trigger] found[k]).0 < effects.len() by {
            if k < had.len() {
                assert(found[k] == had[k]);
            }
        }
    }
}

// ---------------------------------------------------------------------------
// What a form names
// ---------------------------------------------------------------------------

/// Whether a form is the word.
pub open spec fn is_word(form: Sexp, word: Seq<char>) -> bool {
    form matches Sexp::Atom(text) && text@ == word
}

/// Whether one of the words stands in front of a list.
pub open spec fn headed(items: Seq<Sexp>, word: Seq<char>) -> bool {
    items.len() > 0 && is_word(items[0], word)
}

/// Whether a list is written to name a declaration: a function by calling it, a record by its type
/// or by making one, an enumeration by its type or by one of its variants, and an event by selecting
/// it or by listing it.
pub open spec fn written_to_name(items: Seq<Sexp>, decl: DeclView) -> bool {
    let called = items.len() > 1 && is_word(items[1], decl.1);
    match decl.0 {
        Kind::Function => headed(items, "fn"@) && called,
        Kind::Record => (headed(items, "Record"@) || headed(items, "new"@)) && called,
        Kind::Enum => (headed(items, "Enum"@) || headed(items, "variant"@)) && called,
        Kind::Event => headed(items, "slice"@) && called || headed(items, "events"@) && exists|i: int|
            1 <= i < items.len() && is_word(#[trigger] items[i], decl.1),
        _ => false,
    }
}

proof fn lemma_any_names(items: Seq<Sexp>, decl: DeclView)
    ensures
        crate::digest::any_names(items, decl) <==> exists|i: int|
            0 <= i < items.len() && names(#[trigger] items[i], decl),
    decreases items.len(),
{
    if items.len() > 0 {
        let rest = items.drop_last();
        lemma_any_names(rest, decl);
        if exists|i: int| 0 <= i < rest.len() && names(#[trigger] rest[i], decl) {
            let i = choose|i: int| 0 <= i < rest.len() && names(#[trigger] rest[i], decl);
            assert(names(items[i], decl));
        }
        if exists|i: int| 0 <= i < items.len() && names(#[trigger] items[i], decl) {
            let i = choose|i: int| 0 <= i < items.len() && names(#[trigger] items[i], decl);
            if i < rest.len() {
                assert(names(rest[i], decl));
            }
        }
        if names(items.last(), decl) {
            assert(names(items[items.len() - 1], decl));
        }
    }
}

/// A form names a declaration exactly where it is written to, or something inside it does. A word and
/// a text by themselves name nothing.
pub proof fn law_a_form_names_what_is_written_in_it(form: Sexp, decl: DeclView)
    ensures
        references(form).contains(decl) <==> match form {
            Sexp::List(items) => written_to_name(items@, decl) || exists|i: int|
                0 <= i < items.len() && references(#[trigger] items@[i]).contains(decl),
            _ => false,
        },
{
    lemma_head_words();
    if let Sexp::List(items) = form {
        lemma_any_names(items@, decl);
        let rest = items@.skip(1);
        if exists|i: int| 1 <= i < items.len() && is_word(#[trigger] items@[i], decl.1) {
            let i = choose|i: int| 1 <= i < items.len() && is_word(#[trigger] items@[i], decl.1);
            assert(rest[i - 1] == items@[i]);
            assert(crate::digest::is_atom(rest[i - 1], decl.1));
        }
        if items.len() > 0 && crate::digest::lists_atom(rest, decl.1) {
            let i = choose|i: int| 0 <= i < rest.len() && crate::digest::is_atom(#[trigger] rest[i], decl.1);
            assert(items@[i + 1] == rest[i]);
            assert(is_word(items@[i + 1], decl.1));
        }
        if exists|i: int| 0 <= i < items.len() && references(#[trigger] items@[i]).contains(decl) {
            let i = choose|i: int| 0 <= i < items.len() && references(#[trigger] items@[i]).contains(decl);
            assert(names(items@[i], decl));
        }
        if exists|i: int| 0 <= i < items.len() && names(#[trigger] items@[i], decl) {
            let i = choose|i: int| 0 <= i < items.len() && names(#[trigger] items@[i], decl);
            assert(references(items@[i]).contains(decl));
        }
    }
}

proof fn lemma_head_words()
    ensures
        "fn"@ != "Record"@,
        "fn"@ != "new"@,
        "fn"@ != "Enum"@,
        "fn"@ != "variant"@,
        "fn"@ != "slice"@,
        "fn"@ != "events"@,
        "Record"@ != "new"@,
        "Record"@ != "Enum"@,
        "Record"@ != "variant"@,
        "Record"@ != "slice"@,
        "Record"@ != "events"@,
        "new"@ != "Enum"@,
        "new"@ != "variant"@,
        "new"@ != "slice"@,
        "new"@ != "events"@,
        "Enum"@ != "variant"@,
        "Enum"@ != "slice"@,
        "Enum"@ != "events"@,
        "variant"@ != "slice"@,
        "variant"@ != "events"@,
        "slice"@ != "events"@,
{
    reveal_strlit("fn");
    reveal_strlit("Record");
    reveal_strlit("new");
    reveal_strlit("Enum");
    reveal_strlit("variant");
    reveal_strlit("slice");
    reveal_strlit("events");
    assert("fn"@.len() == 2);
    assert("Record"@.len() == 6);
    assert("new"@.len() == 3);
    assert("Enum"@.len() == 4);
    assert("variant"@.len() == 7);
    assert("slice"@.len() == 5);
    assert("events"@.len() == 6);
    assert("Record"@[0] == 'R');
    assert("events"@[0] == 'e');
}

/// A program that has just been recorded is the one that is deployed: each of its rows reads back
/// as the declaration it was made of, under the hash it had, and is current.
pub proof fn law_what_is_recorded_reads_back(entry: Entry, row: crate::opdb::DeclarationRow)
    requires
        crate::opdb::declaration_view(row) == crate::runtime::declared_row(entry),
        packed_entry(entry.packed@, option_view(entry.signature)) matches Ok(read) && read.0 == entry.hash@,
    ensures
        recorded_row(row) matches Ok(read) && read.kind == entry.kind && read.name == entry.name@ && read.recorded_hash
            == entry.hash@ && read.module == option_view(entry.module),
        recorded_row(row) matches Ok(read) && crate::plan::entry_change(entry, seq![read]) is None,
        row.current,
        option_view(row.signature_hash) == option_view(entry.signature_hash),
{
    law_a_kind_reads_back_from_its_word(entry.kind, entry.kind);
    law_a_recorded_row_is_read_as_what_it_records(row, entry.kind);
    if let Ok(read) = recorded_row(row) {
        reveal_with_fuel(crate::plan::row_named, 2);
        let rows = seq![read];
        assert(rows.drop_last() =~= Seq::empty());
        assert(rows.skip(1) =~= Seq::empty());
    }
}

} // verus!
