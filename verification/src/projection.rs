//! A projector that is not deployed, folded over the log once.
//!
//! The read API serves what a deployed projector chose to materialise. This answers a
//! question asked once: which projector is meant, whether the question can be asked at
//! all, over which window, and what the rows come to. Nothing of it is recorded.
//!
//! Opening the log and the operational database and running the fold belong to the
//! caller: [`prepare`] says which of them is needed next, and what is refused.

use vstd::prelude::*;

use crate::json::{items_view, lemma_items, lemma_member_is_named, Json, JsonView};
use crate::list::{lemma_picked, picked};
use crate::opdb::SCHEMA_VERSION;
use crate::progress::{grouped, thousands};
use crate::read_api::{entity_named, find_entity, opened_row, Opened, DEFAULT_LIMIT};
use crate::read_model::{
    json_document, parse_document, row_json, str_option_view, Scalar, ScalarView, Stored,
};
use crate::schema::{field_names, module_name, EntityDef, FieldMeta, ModuleDef};
use crate::text::{
    copied, count, decimal, join, join2, join3, join4, join5, joined, number, same,
    signed_decimal, signed_number, trim_end, trimmed_end, views, wide_number,
};

verus! {

/// Rows kept per entity where the caller names no limit: as many as a page of the read
/// API holds, so that the two can be held against each other.
pub const DEFAULT_ROWS: usize = DEFAULT_LIMIT;

/// What to project, and over how much of the log.
#[derive(Debug)]
pub struct Request<'a> {
    /// Which projector, where the scratch module declares more than one.
    pub projector: Option<&'a str>,
    /// Which entity to report, or every one of them in declaration order.
    pub entity: Option<&'a str>,
    /// The inclusive window of positions: from the start of the log, and to the tip that
    /// was pinned, where they are not given.
    pub from: Option<u64>,
    pub upto: Option<u64>,
    /// Matching events this run may spend, or the whole window.
    pub max_events: Option<u64>,
    /// Whether to open sealed columns on the way out.
    pub decrypt: bool,
    /// Rows kept per entity.
    pub rows: usize,
    /// Whether the master key that subject keys are wrapped under is at hand.
    pub master: bool,
}

impl<'a> Default for Request<'a> {
    fn default() -> (r: Request<'a>)
        ensures
            r.projector is None,
            r.entity is None,
            r.from is None,
            r.upto is None,
            r.max_events is None,
            r.decrypt,
            r.rows == DEFAULT_ROWS,
            !r.master,
    {
        Request {
            projector: None,
            entity: None,
            from: None,
            upto: None,
            max_events: None,
            decrypt: true,
            rows: DEFAULT_ROWS,
            master: false,
        }
    }
}

/// A projector of a loaded project.
#[derive(Debug)]
pub struct ProjectorUnit {
    pub def: ModuleDef,
    /// The module it is declared in.
    pub rel_path: String,
    /// The hash of its declaration, by which a result is attributable to exact code.
    pub digest_hash: String,
    pub entities: Vec<EntityDef>,
    /// The event types its handlers select, which is its whole subscription.
    pub sources: Vec<String>,
}

/// A project as far as a projection needs it.
#[derive(Debug)]
pub struct Project {
    /// The module that is not deployed, where the project was loaded with one.
    pub scratch: Option<String>,
    pub projectors: Vec<ProjectorUnit>,
}

// ---------------------------------------------------------------------------
// Which projector
// ---------------------------------------------------------------------------

/// The module that is not deployed, by name.
pub open spec fn scratch_name(project: Project) -> Seq<char> {
    match project.scratch {
        Some(name) => name@,
        None => Seq::empty(),
    }
}

/// The projectors that the scratch module declares.
pub open spec fn candidates(project: Project) -> Seq<ProjectorUnit> {
    picked(
        project.projectors@,
        |unit: ProjectorUnit| unit.rel_path@ == scratch_name(project),
    )
}

/// The names of some projectors.
pub open spec fn unit_names(units: Seq<ProjectorUnit>) -> Seq<Seq<char>> {
    units.map_values(|unit: ProjectorUnit| module_name(unit.def))
}

/// The first projector of that name.
pub open spec fn unit_named(units: Seq<ProjectorUnit>, name: Seq<char>) -> Option<ProjectorUnit>
    decreases units.len(),
{
    if units.len() == 0 {
        None
    } else if module_name(units[0].def) == name {
        Some(units[0])
    } else {
        unit_named(units.skip(1), name)
    }
}

/// The one projector to fold, or why there is not exactly one.
pub open spec fn selected(project: Project, named: Option<Seq<char>>) -> Result<
    ProjectorUnit,
    Seq<char>,
> {
    let scratch = scratch_name(project);
    let declared = candidates(project);
    if declared.len() == 0 {
        Err(scratch + " declares no projector, so there is nothing to fold"@)
    } else {
        match named {
            None => if declared.len() == 1 {
                Ok(declared[0])
            } else {
                Err(
                    scratch + " declares "@ + decimal(declared.len())
                        + " projector(s); name one with --projector\n       declared here: "@
                        + joined(unit_names(declared), ", "@),
                )
            },
            Some(wanted) => match unit_named(declared, wanted) {
                Some(unit) => Ok(unit),
                None => if unit_named(project.projectors@, wanted) is Some {
                    Err(
                        "`projector "@ + wanted + "` is deployed, not declared in "@ + scratch
                            + "; `hekla project` folds undeployed code, and a deployed projector's rows are already served at GET /read/"@
                            + wanted + "/..."@,
                    )
                } else {
                    Err(
                        scratch + " declares no `projector "@ + wanted
                            + "`\n       declared here: "@ + joined(unit_names(declared), ", "@),
                    )
                },
            },
        }
    }
}

/// The projectors of a list of places.
spec fn units_at(units: Seq<ProjectorUnit>, places: Seq<usize>) -> Seq<ProjectorUnit> {
    places.map_values(|at: usize| units[at as int])
}

fn candidate_places(project: &Project, scratch: &str) -> (r: Vec<usize>)
    requires
        scratch@ == scratch_name(*project),
    ensures
        forall|k: int| 0 <= k < r.len() ==> #[trigger] r@[k] < project.projectors.len(),
        units_at(project.projectors@, r@) == candidates(*project),
{
    let ghost units = project.projectors@;
    let ghost wanted = |unit: ProjectorUnit| unit.rel_path@ == scratch_name(*project);
    let mut out: Vec<usize> = Vec::new();
    let mut i: usize = 0;
    assert(units.take(0) =~= Seq::empty());
    assert(units_at(units, out@) =~= Seq::empty());
    while i < project.projectors.len()
        invariant
            i <= project.projectors.len(),
            units == project.projectors@,
            scratch@ == scratch_name(*project),
            wanted == (|unit: ProjectorUnit| unit.rel_path@ == scratch_name(*project)),
            forall|k: int| 0 <= k < out.len() ==> #[trigger] out@[k] < project.projectors.len(),
            units_at(units, out@) == picked(units.take(i as int), wanted),
        decreases project.projectors.len() - i,
    {
        assert(units.take(i as int + 1).drop_last() =~= units.take(i as int));
        if same(&project.projectors[i].rel_path, scratch) {
            let ghost had = units_at(units, out@);
            out.push(i);
            assert(units_at(units, out@) =~= had.push(units[i as int]));
        }
        i += 1;
    }
    assert(units.take(i as int) =~= units);
    out
}

fn names_at(project: &Project, places: &Vec<usize>) -> (r: Vec<String>)
    requires
        forall|k: int| 0 <= k < places.len() ==> #[trigger] places@[k] < project.projectors.len(),
    ensures
        views(r@) == unit_names(units_at(project.projectors@, places@)),
{
    let ghost all = unit_names(units_at(project.projectors@, places@));
    let mut out: Vec<String> = Vec::new();
    let mut i: usize = 0;
    assert(views(out@) =~= all.take(0));
    while i < places.len()
        invariant
            i <= places.len(),
            forall|k: int| 0 <= k < places.len() ==> #[trigger] places@[k] < project.projectors.len(),
            all == unit_names(units_at(project.projectors@, places@)),
            views(out@) == all.take(i as int),
        decreases places.len() - i,
    {
        let ghost had = views(out@);
        out.push(project.projectors[places[i]].def.name().to_owned());
        assert(views(out@) =~= had.push(all[i as int]));
        assert(views(out@) =~= all.take(i as int + 1));
        i += 1;
    }
    assert(views(out@) =~= all);
    out
}

fn place_named(project: &Project, places: &Vec<usize>, wanted: &str) -> (r: Option<usize>)
    requires
        forall|k: int| 0 <= k < places.len() ==> #[trigger] places@[k] < project.projectors.len(),
    ensures
        match r {
            Some(at) => at < project.projectors.len() && unit_named(
                units_at(project.projectors@, places@),
                wanted@,
            ) == Some(project.projectors@[at as int]),
            None => unit_named(units_at(project.projectors@, places@), wanted@) is None,
        },
{
    let ghost all = units_at(project.projectors@, places@);
    let mut i: usize = 0;
    assert(all.skip(0) =~= all);
    while i < places.len()
        invariant
            i <= places.len(),
            all == units_at(project.projectors@, places@),
            forall|k: int| 0 <= k < places.len() ==> #[trigger] places@[k] < project.projectors.len(),
            unit_named(all.skip(i as int), wanted@) == unit_named(all, wanted@),
        decreases places.len() - i,
    {
        assert(all.skip(i as int)[0] == project.projectors@[places@[i as int] as int]);
        if same(project.projectors[places[i]].def.name(), wanted) {
            return Some(places[i]);
        }
        assert(all.skip(i as int).skip(1) =~= all.skip(i as int + 1));
        i += 1;
    }
    None
}

fn is_deployed(project: &Project, wanted: &str) -> (r: bool)
    ensures
        r == (unit_named(project.projectors@, wanted@) is Some),
{
    let ghost all = project.projectors@;
    let mut i: usize = 0;
    assert(all.skip(0) =~= all);
    while i < project.projectors.len()
        invariant
            i <= project.projectors.len(),
            all == project.projectors@,
            unit_named(all.skip(i as int), wanted@) == unit_named(all, wanted@),
        decreases project.projectors.len() - i,
    {
        assert(all.skip(i as int)[0] == all[i as int]);
        if same(project.projectors[i].def.name(), wanted) {
            return true;
        }
        assert(all.skip(i as int).skip(1) =~= all.skip(i as int + 1));
        i += 1;
    }
    false
}

pub open spec fn named_view(named: Option<&str>) -> Option<Seq<char>> {
    match named {
        Some(name) => Some(name@),
        None => None,
    }
}

/// The one projector to fold, or why there is not exactly one. Only the scratch module's
/// own projectors are candidates: a deployed one's rows are served already, and saying
/// where answers the question behind the mistake.
pub fn select<'a>(project: &'a Project, named: Option<&str>) -> (r: Result<&'a ProjectorUnit, String>)
    ensures
        match r {
            Ok(unit) => selected(*project, named_view(named)) == Ok::<ProjectorUnit, Seq<char>>(
                *unit,
            ),
            Err(message) => selected(*project, named_view(named)) == Err::<
                ProjectorUnit,
                Seq<char>,
            >(message@),
        },
{
    let scratch = match &project.scratch {
        Some(name) => name.clone(),
        None => String::new(),
    };
    assert(scratch@ =~= scratch_name(*project));
    let declared = candidate_places(project, &scratch);
    let ghost units = units_at(project.projectors@, declared@);
    assert(units == candidates(*project));
    assert(units.len() == declared.len());
    if declared.len() == 0 {
        return Err(join2(&scratch, " declares no projector, so there is nothing to fold"));
    }
    match named {
        None => {
            if declared.len() == 1 {
                assert(units[0] == project.projectors@[declared@[0] as int]);
                Ok(&project.projectors[declared[0]])
            } else {
                Err(
                    join5(
                        &scratch,
                        " declares ",
                        &count(declared.len()),
                        " projector(s); name one with --projector\n       declared here: ",
                        &join(&names_at(project, &declared), ", "),
                    ),
                )
            }
        },
        Some(wanted) => {
            if let Some(at) = place_named(project, &declared, wanted) {
                return Ok(&project.projectors[at]);
            }
            if is_deployed(project, wanted) {
                let mut message = join5(
                    "`projector ",
                    wanted,
                    "` is deployed, not declared in ",
                    &scratch,
                    "; `hekla project` folds undeployed code, and a deployed projector's rows are already served at GET /read/",
                );
                message.append(wanted);
                message.append("/...");
                Err(message)
            } else {
                Err(
                    join5(
                        &scratch,
                        " declares no `projector ",
                        wanted,
                        "`\n       declared here: ",
                        &join(&names_at(project, &declared), ", "),
                    ),
                )
            }
        },
    }
}

/// A selected projector is one that the scratch module declares, and the one that was
/// named where one was.
pub proof fn law_a_selected_projector_is_undeployed(project: Project, named: Option<Seq<char>>)
    ensures
        match selected(project, named) {
            Ok(unit) => {
                &&& unit.rel_path@ == scratch_name(project)
                &&& project.projectors@.contains(unit)
                &&& match named {
                    Some(wanted) => module_name(unit.def) == wanted,
                    None => candidates(project).len() == 1,
                }
            },
            Err(_) => true,
        },
{
    let declared = candidates(project);
    lemma_picked(
        project.projectors@,
        |unit: ProjectorUnit| unit.rel_path@ == scratch_name(project),
    );
    if let Some(wanted) = named {
        lemma_unit_named(declared, wanted);
    }
}

proof fn lemma_unit_named(units: Seq<ProjectorUnit>, name: Seq<char>)
    ensures
        match unit_named(units, name) {
            Some(unit) => module_name(unit.def) == name && exists|i: int|
                0 <= i < units.len() && #[trigger] units[i] == unit,
            None => true,
        },
    decreases units.len(),
{
    if units.len() > 0 {
        if module_name(units[0].def) == name {
            assert(units[0] == unit_named(units, name)->0);
        } else {
            lemma_unit_named(units.skip(1), name);
            if let Some(unit) = unit_named(units, name) {
                let i = choose|i: int|
                    0 <= i < units.skip(1).len() && #[trigger] units.skip(1)[i] == unit;
                assert(units[i + 1] == unit);
            }
        }
    }
}

// ---------------------------------------------------------------------------
// Whether it can be folded, and over what
// ---------------------------------------------------------------------------

/// The first column of some entities that is sealed under a subject, with the subject's
/// field.
pub open spec fn first_sealed(entities: Seq<EntityDef>) -> Option<(Seq<char>, Seq<char>)>
    decreases entities.len(),
{
    if entities.len() == 0 {
        None
    } else {
        match first_sealed_field(entities[0].fields@) {
            Some(found) => Some(found),
            None => first_sealed(entities.skip(1)),
        }
    }
}

/// The first of some columns that is sealed under a subject, with the subject's field.
pub open spec fn first_sealed_field(fields: Seq<(String, FieldMeta)>) -> Option<
    (Seq<char>, Seq<char>),
>
    decreases fields.len(),
{
    if fields.len() == 0 {
        None
    } else {
        match fields[0].1.subject {
            Some(subject) => Some((fields[0].0@, subject@)),
            None => first_sealed_field(fields.skip(1)),
        }
    }
}

pub open spec fn pair_view(pair: Option<(String, String)>) -> Option<(Seq<char>, Seq<char>)> {
    match pair {
        Some((a, b)) => Some((a@, b@)),
        None => None,
    }
}

fn sealed_field(fields: &Vec<(String, FieldMeta)>) -> (r: Option<(String, String)>)
    ensures
        pair_view(r) == first_sealed_field(fields@),
{
    let mut i: usize = 0;
    assert(fields@.skip(0) =~= fields@);
    while i < fields.len()
        invariant
            i <= fields.len(),
            first_sealed_field(fields@.skip(i as int)) == first_sealed_field(fields@),
        decreases fields.len() - i,
    {
        assert(fields@.skip(i as int)[0] == fields@[i as int]);
        if let Some(subject) = &fields[i].1.subject {
            return Some((fields[i].0.clone(), subject.clone()));
        }
        assert(fields@.skip(i as int).skip(1) =~= fields@.skip(i as int + 1));
        i += 1;
    }
    None
}

fn sealed_column(entities: &Vec<EntityDef>) -> (r: Option<(String, String)>)
    ensures
        pair_view(r) == first_sealed(entities@),
{
    let mut i: usize = 0;
    assert(entities@.skip(0) =~= entities@);
    while i < entities.len()
        invariant
            i <= entities.len(),
            first_sealed(entities@.skip(i as int)) == first_sealed(entities@),
        decreases entities.len() - i,
    {
        assert(entities@.skip(i as int)[0] == entities@[i as int]);
        let found = sealed_field(&entities[i].fields);
        if found.is_some() {
            return found;
        }
        assert(entities@.skip(i as int).skip(1) =~= entities@.skip(i as int + 1));
        i += 1;
    }
    None
}

/// The positions to fold, both ends included, and how many events may be spent on it.
#[derive(Debug, Clone, Copy)]
pub struct Window {
    pub from: u64,
    pub upto: u64,
    pub max_events: Option<u64>,
}

/// Where a data directory keeps what a projection reads, for messages.
#[derive(Debug)]
pub struct Places {
    pub database: String,
    pub log: String,
}

/// What is known of a data directory so far.
#[derive(Debug, Clone, Copy)]
pub struct Facts {
    /// Whether there is an operational database, and the schema version it records.
    pub database: Option<Option<i64>>,
    /// Whether there is an event log, and the tip that was pinned when it was opened.
    pub log: Option<Option<u64>>,
}

/// What a projection needs next.
#[derive(Debug)]
pub enum Step {
    /// Look for the operational database and read its schema version. Nothing migrates it:
    /// upgrading a directory that a server has open is not a reader's business.
    ReadDatabase,
    /// Look for the event log and pin its tip.
    ReadLog,
    /// Fold the window, with the key store where a column is sealed.
    Fold { window: Window, keyed: bool },
    /// It cannot be answered, and why.
    Refuse(String),
}

pub enum StepView {
    ReadDatabase,
    ReadLog,
    Fold { window: Window, keyed: bool },
    Refuse(Seq<char>),
}

pub open spec fn step_view(step: Step) -> StepView {
    match step {
        Step::ReadDatabase => StepView::ReadDatabase,
        Step::ReadLog => StepView::ReadLog,
        Step::Fold { window, keyed } => StepView::Fold { window, keyed },
        Step::Refuse(message) => StepView::Refuse(message@),
    }
}

/// The names of some entities.
pub open spec fn entity_names(entities: Seq<EntityDef>) -> Seq<Seq<char>> {
    entities.map_values(|entity: EntityDef| entity.name@)
}

/// Why a projector cannot be asked this, whatever the data directory holds. A projector
/// without a handler would come back empty and read like a question without an answer.
pub open spec fn question_error(unit: ProjectorUnit, entity: Option<Seq<char>>) -> Option<Seq<char>> {
    let name = module_name(unit.def);
    if !(unit.def is Projector) {
        Some("the scratch module is not a projector"@)
    } else if unit.sources.len() == 0 {
        Some("`projector "@ + name + "` declares no handler, so it selects no events"@)
    } else {
        match entity {
            Some(wanted) => if entity_named(unit.entities@, wanted) is None {
                Some(
                    "`projector "@ + name + "` declares no entity `"@ + wanted
                        + "`\n       declared here: "@ + joined(entity_names(unit.entities@), ", "@),
                )
            } else {
                None
            },
            None => None,
        }
    }
}

/// Why the keys that a sealed column needs cannot be had, or what is to be looked at
/// first. A fold cannot carry the log's ciphertext through untouched, so the keys are not
/// optional.
pub open spec fn keys_step(unit: ProjectorUnit, master: bool, places: Places, facts: Facts) -> Option<
    StepView,
> {
    match first_sealed(unit.entities@) {
        None => None,
        Some((column, subject)) => if !master {
            Some(
                StepView::Refuse(
                    "this projection seals column `"@ + column + "` under `"@ + subject
                        + "`, so folding it needs HEKLA_MASTER_KEY\n       a projector re-seals a column under the column's own field name, so the fold cannot carry the log's ciphertext through untouched"@,
                ),
            )
        } else {
            match facts.database {
                None => Some(StepView::ReadDatabase),
                Some(None) => Some(
                    StepView::Refuse(
                        "no operational database at "@ + places.database@
                            + ", so the subject keys this projection needs are not there"@,
                    ),
                ),
                Some(Some(recorded)) => if recorded != SCHEMA_VERSION {
                    Some(
                        StepView::Refuse(
                            "the data directory is at schema version "@ + signed_decimal(
                                recorded as int,
                            ) + " and this build expects "@ + signed_decimal(SCHEMA_VERSION as int)
                                + "; run `hekla serve` against it once to migrate, or project against a directory this build wrote"@,
                        ),
                    )
                } else {
                    None
                },
            }
        },
    }
}

/// The window of a request over a log with that tip, or why it holds nothing. A window
/// that cannot hold anything is refused, as it would read like an answer; an end past the
/// tip is the tip, which moves.
pub open spec fn window_of(from: Option<u64>, upto: Option<u64>, max_events: Option<u64>, head: u64) -> Result<
    Window,
    Seq<char>,
> {
    let start = match from {
        Some(from) => from,
        None => 0,
    };
    if upto is Some && start > upto->0 {
        Err(
            "--from "@ + decimal(start as nat) + " is above --upto "@ + decimal(upto->0 as nat)
                + ", so the window holds nothing"@,
        )
    } else if start > head {
        Err(
            "--from "@ + decimal(start as nat) + " is above position "@ + decimal(head as nat)
                + ", which is the whole log this follower can see, so the window holds nothing"@,
        )
    } else {
        Ok(
            Window {
                from: start,
                upto: if upto is Some && upto->0 < head {
                    upto->0
                } else {
                    head
                },
                max_events,
            },
        )
    }
}

/// What a projection needs next, or what it comes to.
pub open spec fn next_step(unit: ProjectorUnit, request: Request, places: Places, facts: Facts) -> StepView {
    match question_error(unit, named_view(request.entity)) {
        Some(message) => StepView::Refuse(message),
        None => match keys_step(unit, request.master, places, facts) {
            Some(step) => step,
            None => match facts.log {
                None => StepView::ReadLog,
                Some(None) => StepView::Refuse(
                    "no event log at "@ + places.log@ + ", so there is nothing to project over"@,
                ),
                Some(Some(head)) => match window_of(
                    request.from,
                    request.upto,
                    request.max_events,
                    head,
                ) {
                    Ok(window) => StepView::Fold {
                        window,
                        keyed: first_sealed(unit.entities@) is Some,
                    },
                    Err(message) => StepView::Refuse(message),
                },
            },
        },
    }
}

fn names_of(entities: &Vec<EntityDef>) -> (r: Vec<String>)
    ensures
        views(r@) == entity_names(entities@),
{
    let ghost all = entity_names(entities@);
    let mut out: Vec<String> = Vec::new();
    let mut i: usize = 0;
    assert(views(out@) =~= all.take(0));
    while i < entities.len()
        invariant
            i <= entities.len(),
            all == entity_names(entities@),
            views(out@) == all.take(i as int),
        decreases entities.len() - i,
    {
        let ghost had = views(out@);
        out.push(entities[i].name.clone());
        assert(views(out@) =~= had.push(all[i as int]));
        assert(views(out@) =~= all.take(i as int + 1));
        i += 1;
    }
    assert(views(out@) =~= all);
    out
}

/// Why a projector cannot be asked this, whatever the data directory holds.
fn check_question(unit: &ProjectorUnit, entity: Option<&str>) -> (r: Option<String>)
    ensures
        crate::text::option_view(r) == question_error(*unit, named_view(entity)),
{
    let name = match &unit.def {
        ModuleDef::Projector { name, .. } => name,
        _ => {
            return Some("the scratch module is not a projector".to_owned());
        },
    };
    if unit.sources.len() == 0 {
        return Some(
            join3("`projector ", name, "` declares no handler, so it selects no events"),
        );
    }
    if let Some(wanted) = entity {
        if find_entity(&unit.entities, wanted).is_none() {
            let mut message = join5(
                "`projector ",
                name,
                "` declares no entity `",
                wanted,
                "`\n       declared here: ",
            );
            message.append(&join(&names_of(&unit.entities), ", "));
            return Some(message);
        }
    }
    None
}

/// The window of a request over a log with that tip, or why it holds nothing.
pub fn window(request: &Request, head: u64) -> (r: Result<Window, String>)
    ensures
        match r {
            Ok(window) => window_of(request.from, request.upto, request.max_events, head) == Ok::<
                Window,
                Seq<char>,
            >(window),
            Err(message) => window_of(request.from, request.upto, request.max_events, head)
                == Err::<Window, Seq<char>>(message@),
        },
{
    let from: u64 = match request.from {
        Some(from) => from,
        None => 0,
    };
    if let Some(upto) = request.upto {
        if from > upto {
            return Err(
                join5(
                    "--from ",
                    &number(from),
                    " is above --upto ",
                    &number(upto),
                    ", so the window holds nothing",
                ),
            );
        }
    }
    if from > head {
        return Err(
            join5(
                "--from ",
                &number(from),
                " is above position ",
                &number(head),
                ", which is the whole log this follower can see, so the window holds nothing",
            ),
        );
    }
    let upto: u64 = match request.upto {
        Some(upto) => if upto < head {
            upto
        } else {
            head
        },
        None => head,
    };
    Ok(Window { from, upto, max_events: request.max_events })
}

/// What a projection needs next, of what is known of the data directory so far: to look
/// at the operational database, to look at the log, or to fold. Everything that can be
/// refused is refused before anything is folded.
pub fn prepare(unit: &ProjectorUnit, request: &Request, places: &Places, facts: &Facts) -> (r: Step)
    ensures
        step_view(r) == next_step(*unit, *request, *places, *facts),
{
    if let Some(message) = check_question(unit, request.entity) {
        return Step::Refuse(message);
    }
    let sealed = sealed_column(&unit.entities);
    let keyed = sealed.is_some();
    if let Some((column, subject)) = sealed {
        if !request.master {
            return Step::Refuse(
                join5(
                    "this projection seals column `",
                    &column,
                    "` under `",
                    &subject,
                    "`, so folding it needs HEKLA_MASTER_KEY\n       a projector re-seals a column under the column's own field name, so the fold cannot carry the log's ciphertext through untouched",
                ),
            );
        }
        match facts.database {
            None => {
                return Step::ReadDatabase;
            },
            Some(None) => {
                return Step::Refuse(
                    join3(
                        "no operational database at ",
                        &places.database,
                        ", so the subject keys this projection needs are not there",
                    ),
                );
            },
            Some(Some(recorded)) => {
                if recorded != SCHEMA_VERSION {
                    return Step::Refuse(
                        join5(
                            "the data directory is at schema version ",
                            &signed_number(recorded),
                            " and this build expects ",
                            &signed_number(SCHEMA_VERSION),
                            "; run `hekla serve` against it once to migrate, or project against a directory this build wrote",
                        ),
                    );
                }
            },
        }
    }
    match facts.log {
        None => Step::ReadLog,
        Some(None) => Step::Refuse(
            join3("no event log at ", &places.log, ", so there is nothing to project over"),
        ),
        Some(Some(head)) => match window(request, head) {
            Ok(window) => Step::Fold { window, keyed },
            Err(message) => Step::Refuse(message),
        },
    }
}

/// A window that is folded holds a position, and none past the pinned tip.
pub proof fn law_a_folded_window_is_within_the_log(
    from: Option<u64>,
    upto: Option<u64>,
    max_events: Option<u64>,
    head: u64,
)
    ensures
        match window_of(from, upto, max_events, head) {
            Ok(window) => window.from <= window.upto <= head,
            Err(_) => (from is Some && from->0 > head) || (from is Some && upto is Some && from->0
                > upto->0),
        },
{
}

/// A projection over plaintext columns looks at the event log alone.
pub proof fn law_plaintext_needs_no_database(
    unit: ProjectorUnit,
    request: Request,
    places: Places,
    facts: Facts,
)
    requires
        first_sealed(unit.entities@) is None,
    ensures
        !(next_step(unit, request, places, facts) is ReadDatabase),
        next_step(unit, request, places, facts) matches StepView::Fold { keyed, .. } ==> !keyed,
{
}

// ---------------------------------------------------------------------------
// What was found
// ---------------------------------------------------------------------------

/// One entity's rows, and what could not be read in them.
pub struct Entity {
    pub name: String,
    pub key: String,
    /// Every declared column, in declaration order.
    pub columns: Vec<String>,
    /// Each sealed column with the subject field it is sealed under, so that a reader
    /// knows which blank cells could be an erasure.
    pub sealed: Vec<(String, String)>,
    /// Every row the entity holds, which is not how many are kept.
    pub row_count: u64,
    pub rows: Vec<Json>,
    /// Cells of the kept rows that hold a value written under a superseded key.
    pub stale: usize,
}

/// Why a fold stopped short of its window.
#[derive(Debug, Clone, Copy)]
pub enum Stopped {
    MaxEvents,
}

/// Sealed column writes that a fold dropped, because their subject was erased.
#[derive(Debug, Clone, Copy)]
pub struct Shredded {
    pub writes: u64,
    pub subjects: usize,
}

/// What one projection found.
pub struct Projection {
    pub projector: String,
    /// The module that the projector was declared in.
    pub source: String,
    /// The hash of the projector's declaration.
    pub digest: String,
    /// The event types the handlers select.
    pub sources: Vec<String>,
    pub from: u64,
    pub upto: u64,
    /// The tip that was pinned when the log was opened.
    pub head: u64,
    /// Matching events folded.
    pub events: usize,
    /// The position these rows are the answer as of.
    pub position: u64,
    /// Why the fold stopped short, if it did.
    pub stopped: Option<Stopped>,
    pub entities: Vec<Entity>,
    pub shredded: Shredded,
    pub decrypt: bool,
    /// How long the fold took, in nanoseconds.
    pub elapsed: u64,
    pub row_limit: usize,
}

/// A list of pairs as what they say.
pub open spec fn pair_views(list: Seq<(String, String)>) -> Seq<(Seq<char>, Seq<char>)> {
    list.map_values(|pair: (String, String)| (pair.0@, pair.1@))
}

/// The first sealed columns of an entity, each with its subject's field.
pub open spec fn sealed_columns(fields: Seq<(String, FieldMeta)>) -> Seq<(Seq<char>, Seq<char>)>
    decreases fields.len(),
{
    if fields.len() == 0 {
        Seq::empty()
    } else {
        match fields.last().1.subject {
            Some(subject) => sealed_columns(fields.drop_last()).push((fields.last().0@, subject@)),
            None => sealed_columns(fields.drop_last()),
        }
    }
}

/// Whether an entity's rows hold plain values only, as those that are read from a read
/// model do: a document in a column is embedded as a text.
pub open spec fn plain_rows(rows: Seq<Json>) -> bool {
    forall|i: int, name: Seq<char>|
        0 <= i < rows.len() ==> plain_value(#[trigger] rows[i]@.member(name))
}

/// Whether a value is none or no container.
pub open spec fn plain_value(value: Option<JsonView>) -> bool {
    match value {
        Some(JsonView::Array(_)) => false,
        Some(JsonView::Object(_)) => false,
        _ => true,
    }
}

impl Entity {
    /// Whether rows were left out.
    pub open spec fn is_truncated(self) -> bool {
        self.row_count > self.rows.len()
    }

    /// One entity's rows, those that are kept out of as many as it holds, with the number
    /// of cells among them that were written under a superseded key.
    pub fn of(entity: &EntityDef, row_count: u64, rows: Vec<Json>, stale: usize) -> (r: Entity)
        ensures
            r.name@ == entity.name@,
            r.key@ == entity.key@,
            views(r.columns@) == field_names(entity.fields@),
            pair_views(r.sealed@) == sealed_columns(entity.fields@),
            r.row_count == row_count,
            r.rows == rows,
            r.stale == stale,
    {
        let mut columns: Vec<String> = Vec::new();
        let mut sealed: Vec<(String, String)> = Vec::new();
        let ghost fields = entity.fields@;
        let mut i: usize = 0;
        assert(fields.take(0) =~= Seq::empty());
        assert(views(columns@) =~= field_names(fields).take(0));
        assert(pair_views(sealed@) =~= Seq::empty());
        while i < entity.fields.len()
            invariant
                i <= entity.fields.len(),
                fields == entity.fields@,
                views(columns@) == field_names(fields).take(i as int),
                pair_views(sealed@) == sealed_columns(fields.take(i as int)),
            decreases entity.fields.len() - i,
        {
            assert(fields.take(i as int + 1).drop_last() =~= fields.take(i as int));
            let ghost had = views(columns@);
            columns.push(entity.fields[i].0.clone());
            assert(views(columns@) =~= had.push(fields[i as int].0@));
            assert(views(columns@) =~= field_names(fields).take(i as int + 1));
            if let Some(subject) = &entity.fields[i].1.subject {
                let ghost had_pairs = pair_views(sealed@);
                sealed.push((entity.fields[i].0.clone(), subject.clone()));
                assert(pair_views(sealed@) =~= had_pairs.push((fields[i as int].0@, subject@)));
            }
            i += 1;
        }
        assert(fields.take(i as int) =~= fields);
        assert(views(columns@) =~= field_names(fields));
        Entity {
            name: entity.name.clone(),
            key: entity.key.clone(),
            columns,
            sealed,
            row_count,
            rows,
            stale,
        }
    }

    /// Whether rows were left out.
    pub fn truncated(&self) -> (r: bool)
        ensures
            r == self.is_truncated(),
    {
        self.row_count > self.rows.len() as u64
    }
}

/// The entities that a request wants reported.
pub open spec fn wanted_entity(wanted: Option<Seq<char>>) -> spec_fn(EntityDef) -> bool {
    |entity: EntityDef|
        match wanted {
            Some(name) => entity.name@ == name,
            None => true,
        }
}

/// The entities that are reported, in the order they are declared in.
pub open spec fn reported_entities(entities: Seq<EntityDef>, wanted: Option<Seq<char>>) -> Seq<EntityDef> {
    picked(entities, wanted_entity(wanted))
}

/// Whether an entity is reported on.
pub fn reports(request: &Request, entity: &EntityDef) -> (r: bool)
    ensures
        r == wanted_entity(str_option_view(request.entity))(*entity),
{
    match request.entity {
        Some(wanted) => same(wanted, &entity.name),
        None => true,
    }
}

/// The entities that are reported, in the order they are declared in: all of them, or the
/// one that is asked for.
pub fn reported<'a>(request: &Request, entities: &'a Vec<EntityDef>) -> (r: Vec<&'a EntityDef>)
    ensures
        r@.map_values(|entity: &'a EntityDef| *entity) == reported_entities(
            entities@,
            str_option_view(request.entity),
        ),
{
    let mut out: Vec<&'a EntityDef> = Vec::new();
    let ghost wanted = str_option_view(request.entity);
    let ghost held = |entity: &'a EntityDef| *entity;
    let mut i: usize = 0;
    assert(entities@.take(0) =~= Seq::empty());
    assert(out@.map_values(held) =~= Seq::empty());
    while i < entities.len()
        invariant
            i <= entities.len(),
            wanted == str_option_view(request.entity),
            held == (|entity: &'a EntityDef| *entity),
            out@.map_values(held) == reported_entities(entities@.take(i as int), wanted),
        decreases entities.len() - i,
    {
        assert(entities@.take(i as int + 1).drop_last() =~= entities@.take(i as int));
        if reports(request, &entities[i]) {
            let ghost had = out@;
            out.push(&entities[i]);
            assert(out@.map_values(held) =~= had.map_values(held).push(entities@[i as int]));
        }
        i += 1;
    }
    assert(entities@.take(i as int) =~= entities@);
    out
}

/// Where no entity is asked for, every one is reported, in the order they are declared in.
pub proof fn law_every_entity_is_reported(entities: Seq<EntityDef>)
    ensures
        reported_entities(entities, None) == entities,
    decreases entities.len(),
{
    if entities.len() > 0 {
        law_every_entity_is_reported(entities.drop_last());
        assert(entities =~= entities.drop_last().push(entities.last()));
    }
}

/// Where one is asked for that is declared, it is reported and nothing else is.
pub proof fn law_the_entity_asked_for_is_reported(entities: Seq<EntityDef>, at: int)
    requires
        0 <= at < entities.len(),
        forall|i: int, j: int|
            0 <= i < j < entities.len() ==> (#[trigger] entities[i]).name@ != (
            #[trigger] entities[j]).name@,
    ensures
        reported_entities(entities, Some(entities[at].name@)) == seq![entities[at]],
    decreases entities.len(),
{
    let name = entities[at].name@;
    let rest = entities.drop_last();
    if at == entities.len() - 1 {
        assert forall|i: int| 0 <= i < rest.len() implies (#[trigger] rest[i]).name@ != name by {
            assert(entities[i].name@ != entities[at].name@);
        }
        lemma_none_reported(rest, name);
        assert(reported_entities(entities, Some(name)) =~= seq![entities[at]]);
    } else {
        assert(entities[at].name@ != entities[entities.len() - 1].name@);
        assert forall|i: int, j: int| 0 <= i < j < rest.len() implies (#[trigger] rest[i]).name@ != (
        #[trigger] rest[j]).name@ by {
            assert(entities[i].name@ != entities[j].name@);
        }
        law_the_entity_asked_for_is_reported(rest, at);
    }
}

proof fn lemma_none_reported(entities: Seq<EntityDef>, name: Seq<char>)
    requires
        forall|i: int| 0 <= i < entities.len() ==> (#[trigger] entities[i]).name@ != name,
    ensures
        reported_entities(entities, Some(name)) == Seq::<EntityDef>::empty(),
    decreases entities.len(),
{
    if entities.len() > 0 {
        assert(entities[entities.len() - 1].name@ != name);
        lemma_none_reported(entities.drop_last(), name);
    } else {
        assert(reported_entities(entities, Some(name)) =~= Seq::<EntityDef>::empty());
    }
}

/// Whether an entity's kept rows have columns to open: the caller wants them opened, one
/// is sealed, and there is a key store.
pub fn opens(request: &Request, entity: &EntityDef, keyed: bool) -> (r: bool)
    ensures
        r == (request.decrypt && keyed && first_sealed_field(entity.fields@) is Some),
{
    request.decrypt && keyed && sealed_field(&entity.fields).is_some()
}

/// What becomes of an event that a fold has come to.
#[derive(Debug, Clone, Copy, PartialEq, Eq, Structural)]
pub enum Admitted {
    Fold,
    /// It is past the window, which is then covered.
    PastWindow,
    /// Folding it would spend more events than the run may, so the run stops short.
    OverBudget,
}

/// What becomes of the event at a position, where so many were folded before it.
pub open spec fn admitted(window: Window, folded: usize, position: u64) -> Admitted {
    if position > window.upto {
        Admitted::PastWindow
    } else if window.max_events is Some && folded >= window.max_events->0 {
        Admitted::OverBudget
    } else {
        Admitted::Fold
    }
}

/// What becomes of the event at a position, where so many were folded before it.
pub fn admits(window: &Window, folded: usize, position: u64) -> (r: Admitted)
    ensures
        r == if position > window.upto {
            Admitted::PastWindow
        } else if window.max_events is Some && folded >= window.max_events->0 {
            Admitted::OverBudget
        } else {
            Admitted::Fold
        },
        r == admitted(*window, folded, position),
{
    if position > window.upto {
        return Admitted::PastWindow;
    }
    match window.max_events {
        Some(budget) => if folded as u64 >= budget {
            Admitted::OverBudget
        } else {
            Admitted::Fold
        },
        None => Admitted::Fold,
    }
}

/// Where a fold stands that folded so many events, and that stopped short at a position
/// where it did.
pub open spec fn scanned_at(window: Window, events: usize, stopped_at: Option<u64>) -> Scanned {
    match stopped_at {
        Some(position) => Scanned {
            events,
            position: if position > 0 {
                (position - 1) as u64
            } else {
                0
            },
            stopped: Some(Stopped::MaxEvents),
        },
        None => Scanned { events, position: window.upto, stopped: None },
    }
}

/// Where a fold stands that folded so many events, and that stopped short at a position
/// where it did.
pub fn scanned(window: &Window, events: usize, stopped_at: Option<u64>) -> (r: Scanned)
    ensures
        r.events == events,
        match stopped_at {
            Some(position) => r.stopped is Some && r.position == if position > 0 {
                (position - 1) as u64
            } else {
                0
            },
            None => r.stopped is None && r.position == window.upto,
        },
        r == scanned_at(*window, events, stopped_at),
{
    match stopped_at {
        Some(position) => Scanned {
            events,
            position: if position > 0 {
                position - 1
            } else {
                0
            },
            stopped: Some(Stopped::MaxEvents),
        },
        None => Scanned { events, position: window.upto, stopped: None },
    }
}

/// What a fold came to: the matching events, the position it stands at, and why it stopped
/// short, if it did.
#[derive(Debug, Clone, Copy)]
pub struct Scanned {
    pub events: usize,
    pub position: u64,
    pub stopped: Option<Stopped>,
}

impl Projection {
    /// The result of folding a projector over a window of a log.
    pub fn of(
        unit: &ProjectorUnit,
        request: &Request,
        window: &Window,
        head: u64,
        scanned: &Scanned,
        entities: Vec<Entity>,
        shredded: Shredded,
        elapsed: u64,
    ) -> (r: Projection)
        ensures
            r.projector@ == module_name(unit.def),
            r.source@ == unit.rel_path@,
            r.digest@ == unit.digest_hash@,
            views(r.sources@) == views(unit.sources@),
            r.from == window.from,
            r.upto == window.upto,
            r.head == head,
            r.events == scanned.events,
            r.position == scanned.position,
            r.stopped == scanned.stopped,
            r.entities == entities,
            r.shredded == shredded,
            r.decrypt == request.decrypt,
            r.elapsed == elapsed,
            r.row_limit == request.rows,
    {
        Projection {
            projector: unit.def.name().to_owned(),
            source: unit.rel_path.clone(),
            digest: unit.digest_hash.clone(),
            sources: copied(&unit.sources),
            from: window.from,
            upto: window.upto,
            head,
            events: scanned.events,
            position: scanned.position,
            stopped: scanned.stopped,
            entities,
            shredded,
            decrypt: request.decrypt,
            elapsed,
            row_limit: request.rows,
        }
    }
}

// ---------------------------------------------------------------------------
// For a program
// ---------------------------------------------------------------------------

/// The sealed columns of an entity.
pub open spec fn sealed_json(sealed: Seq<(Seq<char>, Seq<char>)>) -> JsonView
    decreases sealed.len(),
{
    if sealed.len() == 0 {
        JsonView::array()
    } else {
        sealed_json(sealed.drop_last()).item(
            JsonView::object().with("column"@, JsonView::Text(sealed.last().0)).with(
                "subject"@,
                JsonView::Text(sealed.last().1),
            ),
        )
    }
}

fn sealed_list(sealed: &Vec<(String, String)>) -> (r: Json)
    ensures
        r@ == sealed_json(pair_views(sealed@)),
{
    let ghost all = pair_views(sealed@);
    let mut out = Json::array();
    let mut i: usize = 0;
    assert(all.take(0) =~= Seq::empty());
    while i < sealed.len()
        invariant
            i <= sealed.len(),
            all == pair_views(sealed@),
            out@ == sealed_json(all.take(i as int)),
        decreases sealed.len() - i,
    {
        assert(all.take(i as int + 1).drop_last() =~= all.take(i as int));
        out = out.item(
            Json::object().with("column", Json::text(&sealed[i].0)).with(
                "subject",
                Json::text(&sealed[i].1),
            ),
        );
        i += 1;
    }
    assert(all.take(i as int) =~= all);
    out
}

fn row_list(rows: &Vec<Json>) -> (r: Json)
    ensures
        r@ == JsonView::Array(items_view(rows@)),
{
    let mut out = Json::array();
    let mut i: usize = 0;
    assert(rows@.take(0) =~= Seq::empty());
    while i < rows.len()
        invariant
            i <= rows.len(),
            out@ == JsonView::Array(items_view(rows@.take(i as int))),
        decreases rows.len() - i,
    {
        assert(rows@.take(i as int + 1).drop_last() =~= rows@.take(i as int));
        out = out.item(rows[i].copy());
        i += 1;
    }
    assert(rows@.take(i as int) =~= rows@);
    out
}

/// An entity's part of a result.
pub open spec fn entity_json(entity: Entity) -> JsonView {
    JsonView::object().with("name"@, JsonView::Text(entity.name@)).with(
        "key"@,
        JsonView::Text(entity.key@),
    ).with("columns"@, JsonView::texts(views(entity.columns@))).with(
        "sealed"@,
        sealed_json(pair_views(entity.sealed@)),
    ).with("row_count"@, JsonView::Int(entity.row_count as int)).with(
        "truncated"@,
        JsonView::Bool(entity.is_truncated()),
    ).with(
        "stale"@,
        JsonView::object().with("cells"@, JsonView::Int(entity.stale as int)).with(
            "of_rows_shown"@,
            JsonView::Int(entity.rows.len() as int),
        ),
    ).with("rows"@, JsonView::Array(items_view(entity.rows@)))
}

fn entity_object(entity: &Entity) -> (r: Json)
    ensures
        r@ == entity_json(*entity),
{
    Json::object().with("name", Json::text(&entity.name)).with(
        "key",
        Json::text(&entity.key),
    ).with("columns", Json::texts(&entity.columns)).with(
        "sealed",
        sealed_list(&entity.sealed),
    ).with("row_count", Json::uint(entity.row_count)).with(
        "truncated",
        Json::Bool(entity.truncated()),
    ).with(
        "stale",
        Json::object().with("cells", Json::size(entity.stale)).with(
            "of_rows_shown",
            Json::size(entity.rows.len()),
        ),
    ).with("rows", row_list(&entity.rows))
}

/// The first entities of a result.
pub open spec fn entities_json(entities: Seq<Entity>) -> JsonView
    decreases entities.len(),
{
    if entities.len() == 0 {
        JsonView::array()
    } else {
        entities_json(entities.drop_last()).item(entity_json(entities.last()))
    }
}

impl Projection {
    /// Whether any entity holds rows that the result does not carry.
    pub open spec fn is_truncated(self) -> bool {
        exists|i: int| 0 <= i < self.entities.len() && (#[trigger] self.entities@[i]).is_truncated()
    }

    /// The whole result, for a reader that is a program.
    pub open spec fn json_view(self) -> JsonView {
        JsonView::object().with("projector"@, JsonView::Text(self.projector@)).with(
            "source"@,
            JsonView::Text(self.source@),
        ).with("digest"@, JsonView::Text(self.digest@)).with(
            "sources"@,
            JsonView::texts(views(self.sources@)),
        ).with(
            "window"@,
            JsonView::object().with("from"@, JsonView::Int(self.from as int)).with(
                "upto"@,
                JsonView::Int(self.upto as int),
            ).with("head"@, JsonView::Int(self.head as int)),
        ).with(
            "scanned"@,
            JsonView::object().with("events"@, JsonView::Int(self.events as int)).with(
                "position"@,
                JsonView::Int(self.position as int),
            ).with(
                "stopped"@,
                match self.stopped {
                    Some(Stopped::MaxEvents) => JsonView::Text("max-events"@),
                    None => JsonView::Null,
                },
            ),
        ).with(
            "shredded"@,
            JsonView::object().with("writes"@, JsonView::Int(self.shredded.writes as int)).with(
                "subjects"@,
                JsonView::Int(self.shredded.subjects as int),
            ),
        ).with("decrypt"@, JsonView::Bool(self.decrypt)).with(
            "row_limit"@,
            JsonView::Int(self.row_limit as int),
        ).with("truncated"@, JsonView::Bool(self.is_truncated())).with(
            "entities"@,
            entities_json(self.entities@),
        )
    }

    /// The whole result, for a reader that is a program.
    pub fn json(&self) -> (r: Json)
        ensures
            r@ == self.json_view(),
    {
        let mut entities = Json::array();
        let mut i: usize = 0;
        assert(self.entities@.take(0) =~= Seq::empty());
        while i < self.entities.len()
            invariant
                i <= self.entities.len(),
                entities@ == entities_json(self.entities@.take(i as int)),
            decreases self.entities.len() - i,
        {
            assert(self.entities@.take(i as int + 1).drop_last() =~= self.entities@.take(i as int));
            entities = entities.item(entity_object(&self.entities[i]));
            i += 1;
        }
        assert(self.entities@.take(i as int) =~= self.entities@);
        let stopped = match self.stopped {
            Some(Stopped::MaxEvents) => Json::text("max-events"),
            None => Json::Null,
        };
        Json::object().with("projector", Json::text(&self.projector)).with(
            "source",
            Json::text(&self.source),
        ).with("digest", Json::text(&self.digest)).with("sources", Json::texts(&self.sources)).with(
            "window",
            Json::object().with("from", Json::uint(self.from)).with(
                "upto",
                Json::uint(self.upto),
            ).with("head", Json::uint(self.head)),
        ).with(
            "scanned",
            Json::object().with("events", Json::size(self.events)).with(
                "position",
                Json::uint(self.position),
            ).with("stopped", stopped),
        ).with(
            "shredded",
            Json::object().with("writes", Json::uint(self.shredded.writes)).with(
                "subjects",
                Json::size(self.shredded.subjects),
            ),
        ).with("decrypt", Json::Bool(self.decrypt)).with("row_limit", Json::size(self.row_limit)).with(
            "truncated",
            Json::Bool(self.truncated()),
        ).with("entities", entities)
    }

    /// Whether any entity holds rows that the result does not carry.
    pub fn truncated(&self) -> (r: bool)
        ensures
            r == self.is_truncated(),
    {
        let mut i: usize = 0;
        while i < self.entities.len()
            invariant
                i <= self.entities.len(),
                forall|k: int| 0 <= k < i ==> !(#[trigger] self.entities@[k]).is_truncated(),
            decreases self.entities.len() - i,
        {
            if self.entities[i].truncated() {
                return true;
            }
            i += 1;
        }
        false
    }
}

// ---------------------------------------------------------------------------
// For a reader
// ---------------------------------------------------------------------------

/// What a document in a column prints as: a null prints as nothing does, a text prints
/// bare, and anything else as JSON writes it.
pub open spec fn document_cell(text: Seq<char>) -> Seq<char> {
    match json_document(text) {
        Ok((whole, members)) => match whole.0 {
            ScalarView::Null => "-"@,
            ScalarView::Text(inner) => inner,
            _ => whole.1,
        },
        Err(_) => text,
    }
}

/// One cell. A column that the row does not carry prints a dash: an absent optional, or a
/// sealed value that could not be read.
pub open spec fn cell_text(row: JsonView, name: Seq<char>) -> Seq<char> {
    match row.member(name) {
        Some(JsonView::Text(text)) => text,
        Some(JsonView::Bool(flag)) => if flag {
            "true"@
        } else {
            "false"@
        },
        Some(JsonView::Int(n)) => signed_decimal(n),
        Some(JsonView::Decimal(text)) => text,
        Some(JsonView::Embedded(text)) => document_cell(text),
        _ => "-"@,
    }
}

/// One cell.
fn cell(row: &Json, name: &str) -> (r: String)
    requires
        plain_value(row@.member(name@)),
    ensures
        r@ == cell_text(row@, name@),
{
    match row.get(name) {
        None => "-".to_owned(),
        Some(value) => match value {
            Json::Text(text) => text.clone(),
            Json::Bool(flag) => if *flag {
                "true".to_owned()
            } else {
                "false".to_owned()
            },
            Json::Int(n) => wide_number(*n),
            Json::Decimal(text) => text.clone(),
            Json::Embedded(text) => match parse_document(text) {
                Ok((whole, _)) => match whole.value {
                    Scalar::Null => "-".to_owned(),
                    Scalar::Text(inner) => inner,
                    _ => whole.printed,
                },
                Err(_) => text.clone(),
            },
            _ => "-".to_owned(),
        },
    }
}

/// The cells of a row.
pub open spec fn row_cells(row: JsonView, columns: Seq<Seq<char>>) -> Seq<Seq<char>> {
    columns.map_values(|name: Seq<char>| cell_text(row, name))
}

/// How wide a column is: as its name, or the widest cell of the first rows.
pub open spec fn width(rows: Seq<JsonView>, name: Seq<char>) -> nat
    decreases rows.len(),
{
    if rows.len() == 0 {
        name.len()
    } else {
        let rest = width(rows.drop_last(), name);
        let here = cell_text(rows.last(), name).len();
        if here > rest {
            here
        } else {
            rest
        }
    }
}

/// The widths of the columns of a table.
pub open spec fn widths(rows: Seq<JsonView>, columns: Seq<Seq<char>>) -> Seq<nat> {
    columns.map_values(|name: Seq<char>| width(rows, name))
}

/// A text with spaces behind it, as wide as it should be.
pub open spec fn wide(text: Seq<char>, width: nat) -> Seq<char> {
    if text.len() < width {
        text + Seq::new((width - text.len()) as nat, |i: int| ' ')
    } else {
        text
    }
}

/// One line of a table: every value at the left of its column, two spaces between, with
/// nothing invisible at the end.
pub open spec fn padded_line(values: Seq<Seq<char>>, widths: Seq<nat>) -> Seq<char> {
    trimmed_end(joined(Seq::new(values.len(), |i: int| wide(values[i], widths[i])), "  "@))
}

fn widened(text: &str, width: usize) -> (r: String)
    ensures
        r@ == wide(text@, width as nat),
{
    let mut out = text.to_owned();
    let start: usize = text.unicode_len();
    let mut i: usize = start;
    assert(out@ =~= text@ + Seq::new(0, |i: int| ' '));
    while i < width
        invariant
            start == text@.len(),
            start <= i,
            start < width ==> i <= width,
            start >= width ==> i == start,
            out@ == text@ + Seq::new((i - start) as nat, |i: int| ' '),
        decreases width - i,
    {
        let ghost had = out@;
        out.push(' ');
        assert(out@ =~= had.push(' '));
        assert(out@ =~= text@ + Seq::new((i + 1 - start) as nat, |i: int| ' '));
        i += 1;
    }
    assert(text@ + Seq::new(0, |i: int| ' ') =~= text@);
    out
}

pub open spec fn nats(list: Seq<usize>) -> Seq<nat> {
    list.map_values(|n: usize| n as nat)
}

/// One line of a table.
fn padded(values: &Vec<String>, widths: &Vec<usize>) -> (r: String)
    requires
        values.len() == widths.len(),
    ensures
        r@ == padded_line(views(values@), nats(widths@)),
{
    let ghost all = Seq::new(
        values.len() as nat,
        |i: int| wide(views(values@)[i], nats(widths@)[i]),
    );
    let mut cells: Vec<String> = Vec::new();
    let mut i: usize = 0;
    assert(views(cells@) =~= all.take(0));
    while i < values.len()
        invariant
            i <= values.len(),
            values.len() == widths.len(),
            all == Seq::new(
                values.len() as nat,
                |i: int| wide(views(values@)[i], nats(widths@)[i]),
            ),
            views(cells@) == all.take(i as int),
        decreases values.len() - i,
    {
        let ghost had = views(cells@);
        let cell = widened(&values[i], widths[i]);
        cells.push(cell);
        assert(cell@ == all[i as int]);
        assert(views(cells@) =~= had.push(cell@));
        assert(views(cells@) =~= all.take(i as int + 1));
        i += 1;
    }
    assert(views(cells@) =~= all);
    trim_end(&join(&cells, "  "))
}

/// The lines of the first rows of a table.
pub open spec fn table_lines(rows: Seq<JsonView>, columns: Seq<Seq<char>>, widths: Seq<nat>, upto: nat) -> Seq<
    char,
>
    decreases upto,
{
    if upto == 0 {
        Seq::empty()
    } else {
        table_lines(rows, columns, widths, (upto - 1) as nat) + "    "@ + padded_line(
            row_cells(rows[upto - 1], columns),
            widths,
        ) + "\n"@
    }
}

/// An entity's kept rows as a table.
pub open spec fn table(entity: Entity) -> Seq<char> {
    let rows = items_view(entity.rows@);
    let columns = views(entity.columns@);
    if rows.len() == 0 {
        "    (no rows)\n"@
    } else {
        "    "@ + padded_line(columns, widths(rows, columns)) + "\n"@ + table_lines(
            rows,
            columns,
            widths(rows, columns),
            rows.len(),
        ) + (if entity.is_truncated() {
            "    ... and "@ + grouped((entity.row_count - entity.rows.len()) as nat)
                + " more row(s)\n"@
        } else {
            Seq::empty()
        })
    }
}

fn cells_of(row: &Json, columns: &Vec<String>) -> (r: Vec<String>)
    requires
        forall|name: Seq<char>| plain_value(#[trigger] row@.member(name)),
    ensures
        r.len() == columns.len(),
        views(r@) == row_cells(row@, views(columns@)),
{
    let ghost all = row_cells(row@, views(columns@));
    let mut out: Vec<String> = Vec::new();
    let mut i: usize = 0;
    assert(views(out@) =~= all.take(0));
    while i < columns.len()
        invariant
            i <= columns.len(),
            out.len() == i,
            forall|name: Seq<char>| plain_value(#[trigger] row@.member(name)),
            all == row_cells(row@, views(columns@)),
            views(out@) == all.take(i as int),
        decreases columns.len() - i,
    {
        let ghost had = views(out@);
        assert(plain_value(row@.member(columns@[i as int]@)));
        let text = cell(row, &columns[i]);
        out.push(text);
        assert(text@ == all[i as int]);
        assert(views(out@) =~= had.push(text@));
        assert(views(out@) =~= all.take(i as int + 1));
        i += 1;
    }
    assert(views(out@) =~= all);
    out
}

fn width_of(rows: &Vec<Json>, name: &str) -> (r: usize)
    requires
        plain_rows(rows@),
    ensures
        r == width(items_view(rows@), name@),
{
    let ghost all = items_view(rows@);
    let mut out: usize = name.unicode_len();
    let mut i: usize = 0;
    proof {
        lemma_items(rows@);
        assert(all.take(0) =~= Seq::empty());
    }
    while i < rows.len()
        invariant
            i <= rows.len(),
            plain_rows(rows@),
            all == items_view(rows@),
            all.len() == rows.len(),
            out == width(all.take(i as int), name@),
        decreases rows.len() - i,
    {
        proof {
            lemma_items(rows@);
            assert(all.take(i as int + 1).drop_last() =~= all.take(i as int));
            assert(plain_value(rows@[i as int]@.member(name@)));
        }
        let here: usize = cell(&rows[i], name).as_str().unicode_len();
        if here > out {
            out = here;
        }
        i += 1;
    }
    assert(all.take(i as int) =~= all);
    out
}

fn widths_of(rows: &Vec<Json>, columns: &Vec<String>) -> (r: Vec<usize>)
    requires
        plain_rows(rows@),
    ensures
        r.len() == columns.len(),
        nats(r@) == widths(items_view(rows@), views(columns@)),
{
    let ghost all = widths(items_view(rows@), views(columns@));
    let mut out: Vec<usize> = Vec::new();
    let mut i: usize = 0;
    assert(nats(out@) =~= all.take(0));
    while i < columns.len()
        invariant
            i <= columns.len(),
            out.len() == i,
            plain_rows(rows@),
            all == widths(items_view(rows@), views(columns@)),
            nats(out@) == all.take(i as int),
        decreases columns.len() - i,
    {
        let ghost had = nats(out@);
        let wide = width_of(rows, &columns[i]);
        out.push(wide);
        assert(wide as nat == all[i as int]);
        assert(nats(out@) =~= had.push(wide as nat));
        assert(nats(out@) =~= all.take(i as int + 1));
        i += 1;
    }
    assert(nats(out@) =~= all);
    out
}

/// One entity's kept rows as an aligned table, its widths taken from what it holds.
fn render_rows(entity: &Entity) -> (r: String)
    requires
        plain_rows(entity.rows@),
    ensures
        r@ == table(*entity),
{
    let ghost rows = items_view(entity.rows@);
    let ghost columns = views(entity.columns@);
    proof {
        lemma_items(entity.rows@);
    }
    if entity.rows.len() == 0 {
        return "    (no rows)\n".to_owned();
    }
    let wide = widths_of(&entity.rows, &entity.columns);
    let mut lines = String::new();
    let mut i: usize = 0;
    while i < entity.rows.len()
        invariant
            i <= entity.rows.len(),
            rows == items_view(entity.rows@),
            rows.len() == entity.rows.len(),
            columns == views(entity.columns@),
            wide.len() == entity.columns.len(),
            nats(wide@) == widths(rows, columns),
            plain_rows(entity.rows@),
            lines@ == table_lines(rows, columns, widths(rows, columns), i as nat),
        decreases entity.rows.len() - i,
    {
        proof {
            lemma_items(entity.rows@);
            assert forall|name: Seq<char>| plain_value(
                #[trigger] entity.rows@[i as int]@.member(name),
            ) by {}
        }
        let cells = cells_of(&entity.rows[i], &entity.columns);
        lines.append("    ");
        lines.append(&padded(&cells, &wide));
        lines.append("\n");
        i += 1;
    }
    let mut out = join4("    ", &padded(&entity.columns, &wide), "\n", &lines);
    let mut more = String::new();
    if entity.truncated() {
        more = join3(
            "    ... and ",
            &thousands(entity.row_count - entity.rows.len() as u64),
            " more row(s)\n",
        );
    }
    assert(more@ =~= if entity.is_truncated() {
        "    ... and "@ + grouped((entity.row_count - entity.rows.len()) as nat) + " more row(s)\n"@
    } else {
        Seq::empty()
    });
    out.append(&more);
    out
}

/// A length of time as std's `Debug` of a duration writes it, to two places.
pub uninterp spec fn elapsed_text(nanoseconds: u64) -> Seq<char>;

/// Writes a length of time as std's `Debug` of `Duration` does, to two places. How it
/// picks the unit and rounds is left to std; claimed is that it depends on the length
/// alone.
#[verifier::external_body]
fn elapsed_string(nanoseconds: u64) -> (r: String)
    ensures
        r@ == elapsed_text(nanoseconds),
{
    format!("{:.2?}", std::time::Duration::from_nanos(nanoseconds))
}

/// The lines on the sealed columns of an entity.
pub open spec fn sealed_lines(sealed: Seq<(Seq<char>, Seq<char>)>) -> Seq<char>
    decreases sealed.len(),
{
    if sealed.len() == 0 {
        Seq::empty()
    } else {
        sealed_lines(sealed.drop_last()) + "    sealed: "@ + sealed.last().0 + " under "@
            + sealed.last().1 + "\n"@
    }
}

fn sealed_text(sealed: &Vec<(String, String)>) -> (r: String)
    ensures
        r@ == sealed_lines(pair_views(sealed@)),
{
    let ghost all = pair_views(sealed@);
    let mut out = String::new();
    let mut i: usize = 0;
    assert(all.take(0) =~= Seq::empty());
    while i < sealed.len()
        invariant
            i <= sealed.len(),
            all == pair_views(sealed@),
            out@ == sealed_lines(all.take(i as int)),
        decreases sealed.len() - i,
    {
        assert(all.take(i as int + 1).drop_last() =~= all.take(i as int));
        assert(all.take(i as int + 1).last() == (sealed@[i as int].0@, sealed@[i as int].1@));
        out.append("    sealed: ");
        out.append(&sealed[i].0);
        out.append(" under ");
        out.append(&sealed[i].1);
        out.append("\n");
        i += 1;
    }
    assert(all.take(i as int) =~= all);
    out
}

/// The lines on an entity. Only the rows that are shown were opened, so the count of stale
/// cells says what it is out of.
pub open spec fn entity_lines(entity: Entity) -> Seq<char> {
    "  entity "@ + entity.name@ + ", key "@ + entity.key@ + ", "@ + grouped(entity.row_count as nat)
        + " row(s)\n"@ + sealed_lines(pair_views(entity.sealed@)) + table(entity) + (if entity.stale
        > 0 {
        "    "@ + grouped(entity.stale as nat) + " cell(s) of the "@ + grouped(
            entity.rows.len() as nat,
        ) + " row(s) shown were written under a superseded key and will not open\n"@
    } else {
        Seq::empty()
    })
}

fn entity_text(entity: &Entity) -> (r: String)
    requires
        plain_rows(entity.rows@),
    ensures
        r@ == entity_lines(*entity),
{
    let mut out = join5("  entity ", &entity.name, ", key ", &entity.key, ", ");
    out.append(&thousands(entity.row_count));
    out.append(" row(s)\n");
    out.append(&sealed_text(&entity.sealed));
    out.append(&render_rows(entity));
    let mut stale = String::new();
    if entity.stale > 0 {
        stale = join5(
            "    ",
            &thousands(entity.stale as u64),
            " cell(s) of the ",
            &thousands(entity.rows.len() as u64),
            " row(s) shown were written under a superseded key and will not open\n",
        );
    }
    assert(stale@ =~= if entity.stale > 0 {
        "    "@ + grouped(entity.stale as nat) + " cell(s) of the "@ + grouped(
            entity.rows.len() as nat,
        ) + " row(s) shown were written under a superseded key and will not open\n"@
    } else {
        Seq::empty()
    });
    out.append(&stale);
    out
}

/// The lines on the first entities.
pub open spec fn entities_lines(entities: Seq<Entity>) -> Seq<char>
    decreases entities.len(),
{
    if entities.len() == 0 {
        Seq::empty()
    } else {
        entities_lines(entities.drop_last()) + entity_lines(entities.last())
    }
}

/// The rows of the first entities, kept or not.
pub open spec fn total_rows(entities: Seq<Entity>) -> nat
    decreases entities.len(),
{
    if entities.len() == 0 {
        0
    } else {
        total_rows(entities.drop_last()) + entities.last().row_count as nat
    }
}

proof fn lemma_total_rows(entities: Seq<Entity>, upto: int)
    requires
        0 <= upto <= entities.len(),
    ensures
        total_rows(entities.take(upto)) <= total_rows(entities),
    decreases entities.len(),
{
    if upto < entities.len() {
        lemma_total_rows(entities.drop_last(), upto);
        assert(entities.drop_last().take(upto) =~= entities.take(upto));
    } else {
        assert(entities.take(upto) =~= entities);
    }
}

/// Event types as they are declared.
pub open spec fn marked(types: Seq<Seq<char>>) -> Seq<Seq<char>> {
    types.map_values(|name: Seq<char>| "@"@ + name)
}

impl Projection {
    /// Whether the rows of all entities can be counted, and every row holds plain values
    /// only.
    pub open spec fn printable(self) -> bool {
        &&& total_rows(self.entities@) <= u64::MAX
        &&& forall|i: int| 0 <= i < self.entities.len() ==> plain_rows((#[trigger] self.entities@[i]).rows@)
    }

    /// What was folded.
    pub open spec fn folded_line(self) -> Seq<char> {
        "folded "@ + grouped(self.events as nat) + " event(s) of "@ + joined(
            marked(views(self.sources@)),
            ", "@,
        ) + " into `projector "@ + self.projector@ + "` in "@ + elapsed_text(self.elapsed) + "\n"@
    }

    /// Everything that bounded the answer.
    pub open spec fn bounds_lines(self) -> Seq<char> {
        (if self.from > 0 {
            "the window starts at position "@ + grouped(self.from as nat)
                + ", so a row whose first event is below that is missing or partial\n"@
        } else {
            Seq::empty()
        }) + (if self.upto < self.head {
            "bounded at position "@ + grouped(self.upto as nat) + ", so "@ + grouped(
                (self.head - self.upto) as nat,
            ) + " position(s) below the pinned tip were not folded\n"@
        } else {
            Seq::empty()
        }) + (if self.shredded.writes > 0 {
            grouped(self.shredded.writes as nat) + " sealed column write(s) dropped across "@
                + grouped(self.shredded.subjects as nat)
                + " erased subject(s), so those cells read absent\n"@
        } else {
            Seq::empty()
        })
    }

    /// What the rows are the answer as of. Only a fold that reached the tip is a snapshot
    /// at the tip.
    pub open spec fn snapshot_line(self) -> Seq<char> {
        if self.stopped is None && self.upto == self.head {
            "a snapshot at position "@ + grouped(self.position as nat)
                + ", the tip pinned when this opened; anything appended since is not in it\n"@
        } else {
            "these rows are the answer as of position "@ + grouped(self.position as nat)
                + ", out of "@ + grouped(self.head as nat) + " the log held when this opened\n"@
        }
    }

    /// The answer in one line: never `ok` of a fold that stopped short.
    pub open spec fn summary_line(self) -> Seq<char> {
        match self.stopped {
            None => "ok: "@ + grouped(total_rows(self.entities@)) + " row(s) from "@ + grouped(
                self.events as nat,
            ) + " event(s)"@,
            Some(Stopped::MaxEvents) => "partial: "@ + grouped(total_rows(self.entities@))
                + " row(s) from "@ + grouped(self.events as nat)
                + " event(s); stopped at the --max-events budget with "@ + grouped(
                if self.upto >= self.position {
                    (self.upto - self.position) as nat
                } else {
                    0
                },
            ) + " position(s) of the window unread"@,
        }
    }

    /// The result, for a reader.
    pub open spec fn display_view(self) -> Seq<char> {
        self.folded_line() + entities_lines(self.entities@) + self.bounds_lines()
            + self.snapshot_line() + self.summary_line()
    }

    fn rows(&self) -> (r: u64)
        requires
            total_rows(self.entities@) <= u64::MAX,
        ensures
            r == total_rows(self.entities@),
    {
        let mut out: u64 = 0;
        let mut i: usize = 0;
        assert(self.entities@.take(0) =~= Seq::empty());
        while i < self.entities.len()
            invariant
                i <= self.entities.len(),
                total_rows(self.entities@) <= u64::MAX,
                out == total_rows(self.entities@.take(i as int)),
            decreases self.entities.len() - i,
        {
            proof {
                lemma_total_rows(self.entities@, i as int + 1);
                assert(self.entities@.take(i as int + 1).drop_last() =~= self.entities@.take(
                    i as int,
                ));
            }
            out = out + self.entities[i].row_count;
            i += 1;
        }
        assert(self.entities@.take(i as int) =~= self.entities@);
        out
    }

    fn folded_text(&self) -> (r: String)
        ensures
            r@ == self.folded_line(),
    {
        let ghost all = marked(views(self.sources@));
        let mut types: Vec<String> = Vec::new();
        let mut i: usize = 0;
        assert(views(types@) =~= all.take(0));
        while i < self.sources.len()
            invariant
                i <= self.sources.len(),
                all == marked(views(self.sources@)),
                views(types@) == all.take(i as int),
            decreases self.sources.len() - i,
        {
            let ghost had = views(types@);
            let one = join2("@", &self.sources[i]);
            types.push(one);
            assert(one@ == all[i as int]);
            assert(views(types@) =~= had.push(one@));
            assert(views(types@) =~= all.take(i as int + 1));
            i += 1;
        }
        assert(views(types@) =~= all);
        let mut out = join5(
            "folded ",
            &thousands(self.events as u64),
            " event(s) of ",
            &join(&types, ", "),
            " into `projector ",
        );
        out.append(&self.projector);
        out.append("` in ");
        out.append(&elapsed_string(self.elapsed));
        out.append("\n");
        out
    }

    fn bounds_text(&self) -> (r: String)
        ensures
            r@ == self.bounds_lines(),
    {
        let mut start = String::new();
        if self.from > 0 {
            start = join3(
                "the window starts at position ",
                &thousands(self.from),
                ", so a row whose first event is below that is missing or partial\n",
            );
        }
        assert(start@ =~= if self.from > 0 {
            "the window starts at position "@ + grouped(self.from as nat)
                + ", so a row whose first event is below that is missing or partial\n"@
        } else {
            Seq::empty()
        });
        let mut end = String::new();
        if self.upto < self.head {
            end = join5(
                "bounded at position ",
                &thousands(self.upto),
                ", so ",
                &thousands(self.head - self.upto),
                " position(s) below the pinned tip were not folded\n",
            );
        }
        assert(end@ =~= if self.upto < self.head {
            "bounded at position "@ + grouped(self.upto as nat) + ", so "@ + grouped(
                (self.head - self.upto) as nat,
            ) + " position(s) below the pinned tip were not folded\n"@
        } else {
            Seq::empty()
        });
        let mut dropped = String::new();
        if self.shredded.writes > 0 {
            dropped = join4(
                &thousands(self.shredded.writes),
                " sealed column write(s) dropped across ",
                &thousands(self.shredded.subjects as u64),
                " erased subject(s), so those cells read absent\n",
            );
        }
        assert(dropped@ =~= if self.shredded.writes > 0 {
            grouped(self.shredded.writes as nat) + " sealed column write(s) dropped across "@
                + grouped(self.shredded.subjects as nat)
                + " erased subject(s), so those cells read absent\n"@
        } else {
            Seq::empty()
        });
        join3(&start, &end, &dropped)
    }

    fn snapshot_text(&self) -> (r: String)
        ensures
            r@ == self.snapshot_line(),
    {
        if self.stopped.is_none() && self.upto == self.head {
            join3(
                "a snapshot at position ",
                &thousands(self.position),
                ", the tip pinned when this opened; anything appended since is not in it\n",
            )
        } else {
            join5(
                "these rows are the answer as of position ",
                &thousands(self.position),
                ", out of ",
                &thousands(self.head),
                " the log held when this opened\n",
            )
        }
    }

    fn summary_text(&self) -> (r: String)
        requires
            total_rows(self.entities@) <= u64::MAX,
        ensures
            r@ == self.summary_line(),
    {
        match self.stopped {
            None => join5(
                "ok: ",
                &thousands(self.rows()),
                " row(s) from ",
                &thousands(self.events as u64),
                " event(s)",
            ),
            Some(Stopped::MaxEvents) => {
                let unread: u64 = if self.upto >= self.position {
                    self.upto - self.position
                } else {
                    0
                };
                let mut out = join5(
                    "partial: ",
                    &thousands(self.rows()),
                    " row(s) from ",
                    &thousands(self.events as u64),
                    " event(s); stopped at the --max-events budget with ",
                );
                out.append(&thousands(unread));
                out.append(" position(s) of the window unread");
                out
            },
        }
    }

    /// The result, for a reader: what was folded, each entity's rows, everything that
    /// bounded the answer, and the answer in one line.
    pub fn display(&self) -> (r: String)
        requires
            self.printable(),
        ensures
            r@ == self.display_view(),
    {
        let mut entities = String::new();
        let mut i: usize = 0;
        assert(self.entities@.take(0) =~= Seq::empty());
        while i < self.entities.len()
            invariant
                i <= self.entities.len(),
                self.printable(),
                entities@ == entities_lines(self.entities@.take(i as int)),
            decreases self.entities.len() - i,
        {
            assert(self.entities@.take(i as int + 1).drop_last() =~= self.entities@.take(i as int));
            assert(plain_rows(self.entities@[i as int].rows@));
            entities.append(&entity_text(&self.entities[i]));
            i += 1;
        }
        assert(self.entities@.take(i as int) =~= self.entities@);
        join5(
            &self.folded_text(),
            &entities,
            &self.bounds_text(),
            &self.snapshot_text(),
            &self.summary_text(),
        )
    }
}

/// A row as it is read from a read model holds plain values only.
pub proof fn law_a_read_row_is_plain(entity: EntityDef, row: Seq<Stored>, upto: nat)
    requires
        upto <= entity.fields.len(),
        upto <= row.len(),
    ensures
        match row_json(entity, row, upto) {
            Ok(object) => object is Object && forall|name: Seq<char>|
                plain_value(#[trigger] object.member(name)),
            Err(_) => true,
        },
    decreases upto,
{
    if upto > 0 {
        law_a_read_row_is_plain(entity, row, (upto - 1) as nat);
        if let (Ok(rest), Ok(object)) = (
            row_json(entity, row, (upto - 1) as nat),
            row_json(entity, row, upto),
        ) {
            assert forall|name: Seq<char>| plain_value(#[trigger] object.member(name)) by {
                assert(plain_value(rest.member(name)));
            }
        }
    }
}

/// Opening a column of a plain row leaves it plain.
pub proof fn law_an_opened_row_stays_plain(entity: EntityDef, row: JsonView, at: int, opened: Opened)
    requires
        0 <= at < entity.fields.len(),
        forall|name: Seq<char>| plain_value(#[trigger] row.member(name)),
    ensures
        forall|name: Seq<char>| plain_value(#[trigger] opened_row(entity, row, at, opened).member(name)),
{
    let (column, meta) = entity.fields@[at];
    assert forall|name: Seq<char>| plain_value(
        #[trigger] opened_row(entity, row, at, opened).member(name),
    ) by {
        assert(plain_value(row.member(name)));
    }
}

/// A fold that stopped short is never reported as a complete answer.
pub proof fn law_only_a_covered_window_is_ok(projection: Projection)
    ensures
        projection.summary_line().len() > 0,
        (projection.summary_line()[0] == 'o') == (projection.stopped is None),
{
    reveal_strlit("ok: ");
    reveal_strlit("partial: ");
    assert("ok: "@[0] == 'o');
    assert("partial: "@[0] == 'p');
}

/// Whether a row holds plain values only.
fn is_plain(row: &Json) -> (r: bool)
    ensures
        r == forall|name: Seq<char>| plain_value(#[trigger] row@.member(name)),
{
    if let Json::Object(members) = row {
        let mut i: usize = 0;
        while i < members.len()
            invariant
                i <= members.len(),
                *row == Json::Object(*members),
                forall|k: int| 0 <= k < i ==> plain_value(row@.member((#[trigger] members@[k]).0@)),
            decreases members.len() - i,
        {
            if let Some(value) = row.get(&members[i].0) {
                match value {
                    Json::Array(_) => {
                        assert(!plain_value(row@.member(members@[i as int].0@)));
                        return false;
                    },
                    Json::Object(_) => {
                        assert(!plain_value(row@.member(members@[i as int].0@)));
                        return false;
                    },
                    _ => {},
                }
            }
            i += 1;
        }
        assert forall|name: Seq<char>| plain_value(#[trigger] row@.member(name)) by {
            if row@.member(name) is Some {
                lemma_member_is_named(members@, name);
            }
        }
    }
    true
}

impl Projection {
    /// Whether the result can be printed: the rows of all entities can be counted, and
    /// every row holds plain values only, as one that was read from a read model does.
    pub fn is_printable(&self) -> (r: bool)
        ensures
            r == self.printable(),
    {
        let mut total: u64 = 0;
        let mut i: usize = 0;
        assert(self.entities@.take(0) =~= Seq::empty());
        while i < self.entities.len()
            invariant
                i <= self.entities.len(),
                total == total_rows(self.entities@.take(i as int)),
                forall|k: int| 0 <= k < i ==> plain_rows((#[trigger] self.entities@[k]).rows@),
            decreases self.entities.len() - i,
        {
            let entity = &self.entities[i];
            let mut j: usize = 0;
            while j < entity.rows.len()
                invariant
                    j <= entity.rows.len(),
                    i < self.entities.len(),
                    *entity == self.entities@[i as int],
                    forall|k: int, name: Seq<char>|
                        0 <= k < j ==> plain_value(#[trigger] entity.rows@[k]@.member(name)),
                decreases entity.rows.len() - j,
            {
                if !is_plain(&entity.rows[j]) {
                    assert(!plain_rows(self.entities@[i as int].rows@));
                    return false;
                }
                j += 1;
            }
            proof {
                assert(self.entities@.take(i as int + 1).drop_last() =~= self.entities@.take(
                    i as int,
                ));
                lemma_total_rows(self.entities@, i as int + 1);
            }
            if entity.row_count > u64::MAX - total {
                return false;
            }
            total = total + entity.row_count;
            i += 1;
        }
        assert(self.entities@.take(i as int) =~= self.entities@);
        true
    }
}

} // verus!
