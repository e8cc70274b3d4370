//! Finding the project that a document belongs to, and telling when its shared half has
//! changed on disk.
//!
//! A project's shared half, its events and libraries, is loaded once and kept, and loaded
//! again only when the files that it is made of have changed.

use vstd::prelude::*;

use crate::hash::{sha256_hex, text_hash};
use crate::lsp::env::Role;
use crate::text::{
    decimal, holds, join, join2, join4, join5, joined, number, same, views, wide_decimal,
};

verus! {

/// How long what was seen of a project's files holds, in milliseconds. There is no file
/// watching to be had, so looking again is what notices a change.
pub const STAT_INTERVAL: u64 = 250;

/// How long it is remembered that a directory is in no project, in milliseconds: creating
/// the project is what makes it wrong.
pub const MISS_TTL: u64 = 5_000;

/// How far up the tree a project root is looked for.
pub const MAX_ASCENT: usize = 64;

/// The name of a project's configuration, which it need not have.
pub const CONFIG_NAME: &'static str = "hekla.toml";

/// A document placed inside a project.
#[derive(Debug)]
pub struct Located {
    pub root: String,
    /// Relative to the project, with forward slashes.
    pub rel: String,
    pub role: Role,
}

/// What stands in a directory: whether a project's configuration does, and the
/// directories.
#[derive(Debug)]
pub struct Listing {
    pub config: bool,
    pub dirs: Vec<String>,
}

/// Whether a directory looks like a project's root.
pub open spec fn looks_like_root(listing: Listing) -> bool {
    listing.config || views(listing.dirs@).contains("events"@) || views(listing.dirs@).contains(
        "commands"@,
    ) || views(listing.dirs@).contains("projectors"@) || views(listing.dirs@).contains("effects"@)
}

/// Whether a directory looks like a project's root. Tests and libraries are not enough:
/// any repository may have those, and taking one for a project would attach its builtins
/// to unrelated code.
pub fn is_project_root(listing: &Listing) -> (r: bool)
    ensures
        r == looks_like_root(*listing),
{
    listing.config || holds(&listing.dirs, "events") || holds(&listing.dirs, "commands") || holds(
        &listing.dirs,
        "projectors",
    ) || holds(&listing.dirs, "effects")
}

/// Which of a directory and those above it, nearest first, is the project's root: the
/// nearest that looks like one, so that a project inside another wins.
pub fn find_root(ancestors: &Vec<Listing>) -> (r: Option<usize>)
    ensures
        match r {
            Some(at) => {
                &&& at < ancestors.len()
                &&& at < MAX_ASCENT
                &&& looks_like_root(ancestors@[at as int])
                &&& forall|k: int| 0 <= k < at ==> !looks_like_root(#[trigger] ancestors@[k])
            },
            None => forall|k: int|
                0 <= k < ancestors.len() && k < MAX_ASCENT ==> !looks_like_root(
                    #[trigger] ancestors@[k],
                ),
        },
{
    let mut i: usize = 0;
    while i < ancestors.len() && i < MAX_ASCENT
        invariant
            i <= ancestors.len(),
            i <= MAX_ASCENT,
            forall|k: int| 0 <= k < i ==> !looks_like_root(#[trigger] ancestors@[k]),
        decreases ancestors.len() - i,
    {
        if is_project_root(&ancestors[i]) {
            return Some(i);
        }
        i += 1;
    }
    None
}

/// Places a document, where it has a project and a role in it.
pub fn locate(root: Option<String>, rel: String, role: Option<Role>) -> (r: Option<Located>)
    ensures
        match r {
            Some(located) => {
                &&& root is Some && located.root@ == root->0@
                &&& located.rel@ == rel@
                &&& role == Some(located.role)
            },
            None => root is None || role is None,
        },
{
    match (root, role) {
        (Some(root), Some(role)) => Some(Located { root, rel, role }),
        _ => None,
    }
}

/// Whether what is remembered of a directory's root still holds.
pub open spec fn still_holds(found: bool, age_ms: u64) -> bool {
    found || age_ms < MISS_TTL
}

/// Whether a remembered root, or that there was none, still holds: a root does not stop
/// being one.
pub fn root_holds(found: bool, age_ms: u64) -> (r: bool)
    ensures
        r == still_holds(found, age_ms),
        r == (found || age_ms < MISS_TTL),
{
    found || age_ms < MISS_TTL
}

/// What is to be done for a project's shared half.
#[derive(Debug, Clone, Copy, PartialEq, Eq, Structural)]
pub enum SnapshotStep {
    /// Use the one that is kept.
    Use,
    /// Look at the files it is made of.
    Look,
    /// Use the one that is kept, and do not look again for another while.
    Confirm,
    /// Load it.
    Load,
}

/// What was loaded: of which files, and how long ago that was last confirmed.
#[derive(Debug)]
pub struct Seen {
    pub fingerprint: String,
    pub age_ms: u64,
}

/// What is to be done for a project's shared half, of the fingerprint it was loaded under with how
/// long ago that was last confirmed, and of the one it has now.
pub open spec fn step_for(seen: Option<(Seq<char>, u64)>, fingerprint: Option<Seq<char>>) -> SnapshotStep {
    match (seen, fingerprint) {
        (Some(kept), None) => if kept.1 < STAT_INTERVAL {
            SnapshotStep::Use
        } else {
            SnapshotStep::Look
        },
        (None, None) => SnapshotStep::Look,
        (Some(kept), Some(now)) => if kept.0 == now {
            SnapshotStep::Confirm
        } else {
            SnapshotStep::Load
        },
        (None, Some(_)) => SnapshotStep::Load,
    }
}

/// What was seen, as a fingerprint and how long ago it was confirmed.
pub open spec fn seen_view(seen: Option<&Seen>) -> Option<(Seq<char>, u64)> {
    match seen {
        Some(kept) => Some((kept.fingerprint@, kept.age_ms)),
        None => None,
    }
}

/// What is to be done for a project's shared half, of what was seen before and, once the
/// files were looked at, what they are now: by how long ago that was until they were, and
/// by the files alone from then on.
pub fn snapshot_step(seen: Option<&Seen>, fingerprint: Option<&str>) -> (r: SnapshotStep)
    ensures
        r == step_for(
            seen_view(seen),
            match fingerprint {
                Some(now) => Some(now@),
                None => None,
            },
        ),
        r == match (seen, fingerprint) {
            (Some(kept), None) if kept.age_ms < STAT_INTERVAL => SnapshotStep::Use,
            (_, None) => SnapshotStep::Look,
            (Some(kept), Some(now)) if kept.fingerprint@ == now@ => SnapshotStep::Confirm,
            _ => SnapshotStep::Load,
        },
{
    match fingerprint {
        None => {
            if let Some(kept) = seen {
                if kept.age_ms < STAT_INTERVAL {
                    return SnapshotStep::Use;
                }
            }
            SnapshotStep::Look
        },
        Some(now) => {
            if let Some(kept) = seen {
                if same(&kept.fingerprint, now) {
                    return SnapshotStep::Confirm;
                }
            }
            SnapshotStep::Load
        },
    }
}

/// A file by its size and when it was last written, in nanoseconds since the epoch.
#[derive(Debug, Clone, Copy)]
pub struct Meta {
    pub len: u64,
    pub modified: u128,
}

/// What a walk of a directory saw: its files, and what it could not read, by place and
/// message.
#[derive(Debug)]
pub struct Walk {
    pub files: Vec<(String, Option<Meta>)>,
    pub findings: Vec<(String, String)>,
}

/// Everything that a project's shared half is made of. Commands, projectors, effects and
/// tests are not in it, so that editing one does not load it again.
#[derive(Debug)]
pub struct Shared {
    pub config: Option<Meta>,
    pub events: Option<Walk>,
    pub lib: Option<Walk>,
}

/// A file in a fingerprint.
pub open spec fn stamp_view(label: Seq<char>, meta: Option<Meta>) -> Seq<char> {
    match meta {
        Some(meta) => label + ":"@ + decimal(meta.len as nat) + ":"@ + decimal(meta.modified as nat),
        None => label + ":absent"@,
    }
}

fn stamp(label: &str, meta: &Option<Meta>) -> (r: String)
    ensures
        r@ == stamp_view(label@, *meta),
{
    match meta {
        Some(meta) => join5(label, ":", &number(meta.len), ":", &wide_decimal(meta.modified)),
        None => join2(label, ":absent"),
    }
}

/// The files and the findings of a walk, in a fingerprint.
pub open spec fn walk_parts(walk: Option<Walk>) -> Seq<Seq<char>> {
    match walk {
        Some(walk) => walk.files@.map_values(
            |file: (String, Option<Meta>)| stamp_view(file.0@, file.1),
        ) + walk.findings@.map_values(
            |finding: (String, String)| "!"@ + finding.0@ + ":"@ + finding.1@,
        ),
        None => Seq::empty(),
    }
}

/// What a fingerprint is taken of.
pub open spec fn fingerprint_text(shared: Shared) -> Seq<char> {
    joined(
        seq![stamp_view(CONFIG_NAME@, shared.config)] + walk_parts(shared.events) + walk_parts(
            shared.lib,
        ),
        "\n"@,
    )
}

/// Adds a walk's files and findings. A walk that failed changes what was seen, so it
/// counts too.
fn push_walk(parts: &mut Vec<String>, walk: &Option<Walk>)
    ensures
        views(final(parts)@) == views(old(parts)@) + walk_parts(*walk),
{
    let ghost start = views(parts@);
    let ghost all = walk_parts(*walk);
    if let Some(walk) = walk {
        let ghost files = walk.files.len() as int;
        let mut i: usize = 0;
        assert(views(parts@) =~= start + all.take(0));
        while i < walk.files.len()
            invariant
                i <= walk.files.len(),
                all == walk_parts(Some(*walk)),
                views(parts@) == start + all.take(i as int),
            decreases walk.files.len() - i,
        {
            let ghost had = views(parts@);
            let part = stamp(&walk.files[i].0, &walk.files[i].1);
            parts.push(part);
            assert(all[i as int] == part@);
            assert(views(parts@) =~= had.push(part@));
            assert(views(parts@) =~= start + all.take(i as int + 1));
            i += 1;
        }
        let mut j: usize = 0;
        while j < walk.findings.len()
            invariant
                j <= walk.findings.len(),
                files == walk.files.len(),
                all == walk_parts(Some(*walk)),
                views(parts@) == start + all.take(files + j),
            decreases walk.findings.len() - j,
        {
            let ghost had = views(parts@);
            let part = join4("!", &walk.findings[j].0, ":", &walk.findings[j].1);
            parts.push(part);
            assert(all[files + j] == part@);
            assert(views(parts@) =~= had.push(part@));
            assert(views(parts@) =~= start + all.take(files + j + 1));
            j += 1;
        }
        assert(all.take(files + j) =~= all);
    } else {
        assert(start + all =~= start);
    }
}

/// A digest of everything that a project's shared half is made of: its configuration and
/// every file of its events and libraries, by path, size and time.
pub fn fingerprint(shared: &Shared) -> (r: String)
    ensures
        r@ == text_hash(fingerprint_text(*shared)),
{
    let mut parts: Vec<String> = vec![stamp(CONFIG_NAME, &shared.config)];
    assert(views(parts@) =~= seq![stamp_view(CONFIG_NAME@, shared.config)]);
    push_walk(&mut parts, &shared.events);
    push_walk(&mut parts, &shared.lib);
    sha256_hex(&join(&parts, "\n"))
}

} // verus!
