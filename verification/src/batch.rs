//! Applying one batch of events to a read model: which arms of the projector run for which
//! event, what their operations come to as statements, and the checkpoint that commits
//! with them.
//!
//! Running an arm and executing a statement belong to the caller, on one connection and in
//! one transaction, so that an arm reads what an earlier one wrote.

use vstd::prelude::*;

use crate::read_api::{entity_named, find_entity};
use crate::read_model::{
    apply_error_view, apply_message, apply_one, checkpoint_statement, flat_columns, is_usable, op_statement,
    statement_view, usable, write_checkpoint, ApplyError, ApplyErrorView, Statement, StatementView,
};
use crate::schema::{field_named, EntityDef, EntityOpKind};
use crate::text::join4;

verus! {

/// An operation that an arm asked for, on an entity by name.
#[derive(Debug)]
pub struct EntityOp {
    pub entity: String,
    pub kind: EntityOpKind,
}

/// Why an operation cannot be applied.
pub enum BatchError {
    /// It is on an entity that the projector did not declare.
    Undeclared,
    /// Its row or changes do not fit the entity.
    Apply { entity: String, error: ApplyError },
}

pub enum BatchErrorView {
    Undeclared,
    Apply { entity: Seq<char>, error: ApplyErrorView },
}

pub open spec fn batch_error_view(error: BatchError) -> BatchErrorView {
    match error {
        BatchError::Undeclared => BatchErrorView::Undeclared,
        BatchError::Apply { entity, error } => BatchErrorView::Apply {
            entity: entity@,
            error: apply_error_view(error),
        },
    }
}

impl BatchError {
    /// What went wrong, and on which entity.
    pub fn message(&self) -> (r: String)
        ensures
            r@ == match *self {
                BatchError::Undeclared => "op references an entity the projector didn't declare"@,
                BatchError::Apply { entity, error } => "applying an op to entity `"@ + entity@
                    + "`: "@ + apply_message(apply_error_view(error)),
            },
    {
        match self {
            BatchError::Undeclared => "op references an entity the projector didn't declare".to_owned(),
            BatchError::Apply { entity, error } => join4(
                "applying an op to entity `",
                entity,
                "`: ",
                &error.message(),
            ),
        }
    }
}

pub open spec fn statement_views(statements: Seq<Statement>) -> Seq<StatementView> {
    statements.map_values(|statement: Statement| statement_view(statement))
}

/// Whether entities can be written to.
pub open spec fn writable(entities: Seq<EntityDef>) -> bool {
    forall|i: int| 0 <= i < entities.len() ==> usable(#[trigger] entities[i])
}

/// Whether entities can be written to.
pub fn is_writable(entities: &Vec<EntityDef>) -> (r: bool)
    ensures
        r == writable(entities@),
{
    let mut i: usize = 0;
    while i < entities.len()
        invariant
            i <= entities.len(),
            forall|k: int| 0 <= k < i ==> usable(#[trigger] entities@[k]),
        decreases entities.len() - i,
    {
        if !is_usable(&entities[i]) {
            return false;
        }
        i += 1;
    }
    true
}

/// Whether operations can be applied to entities: their columns have kinds that are stored,
/// and what is patched or deleted is found by a declared key.
pub open spec fn applicable(entities: Seq<EntityDef>, ops: Seq<EntityOp>) -> bool {
    &&& forall|i: int| 0 <= i < entities.len() ==> flat_columns(#[trigger] entities[i])
    &&& forall|k: int|
        0 <= k < ops.len() && !((#[trigger] ops[k]).kind is Put) ==> match entity_named(
            entities,
            ops[k].entity@,
        ) {
            Some(entity) => field_named(entity.fields@, entity.key@) is Some,
            None => true,
        }
}

/// Any operations can be applied to entities that can be written to.
pub proof fn law_writable_entities_take_any_operation(entities: Seq<EntityDef>, ops: Seq<EntityOp>)
    requires
        writable(entities),
    ensures
        applicable(entities, ops),
{
    assert forall|i: int| 0 <= i < entities.len() implies flat_columns(#[trigger] entities[i]) by {
        assert(usable(entities[i]));
    }
    assert forall|k: int| 0 <= k < ops.len() && !((#[trigger] ops[k]).kind is Put) implies match entity_named(
        entities,
        ops[k].entity@,
    ) {
        Some(entity) => field_named(entity.fields@, entity.key@) is Some,
        None => true,
    } by {
        lemma_entity_named(entities, ops[k].entity@);
        if let Some(entity) = entity_named(entities, ops[k].entity@) {
            let i = choose|i: int| 0 <= i < entities.len() && #[trigger] entities[i] == entity;
            assert(usable(entities[i]));
        }
    }
}

/// What the first operations of an arm come to: their statements in order, or why the
/// first that cannot be applied cannot.
pub open spec fn ops_statements(entities: Seq<EntityDef>, ops: Seq<EntityOp>) -> Result<
    Seq<StatementView>,
    BatchErrorView,
>
    decreases ops.len(),
{
    if ops.len() == 0 {
        Ok(Seq::empty())
    } else {
        match ops_statements(entities, ops.drop_last()) {
            Err(error) => Err(error),
            Ok(earlier) => match entity_named(entities, ops.last().entity@) {
                None => Err(BatchErrorView::Undeclared),
                Some(entity) => match op_statement(entity, ops.last().kind) {
                    Ok(Some(statement)) => Ok(earlier.push(statement)),
                    Ok(None) => Ok(earlier),
                    Err(error) => Err(BatchErrorView::Apply { entity: entity.name@, error }),
                },
            },
        }
    }
}

proof fn lemma_ops_error(entities: Seq<EntityDef>, ops: Seq<EntityOp>, at: int)
    requires
        0 <= at <= ops.len(),
        ops_statements(entities, ops.take(at)) is Err,
    ensures
        ops_statements(entities, ops) == ops_statements(entities, ops.take(at)),
    decreases ops.len(),
{
    if at == ops.len() {
        assert(ops.take(at) =~= ops);
    } else {
        assert(ops.drop_last().take(at) =~= ops.take(at));
        lemma_ops_error(entities, ops.drop_last(), at);
    }
}

proof fn lemma_entity_named(entities: Seq<EntityDef>, name: Seq<char>)
    ensures
        match entity_named(entities, name) {
            Some(entity) => exists|i: int| 0 <= i < entities.len() && #[trigger] entities[i] == entity,
            None => true,
        },
    decreases entities.len(),
{
    if entities.len() > 0 {
        if entities[0].name@ == name {
            assert(entities[0] == entity_named(entities, name)->0);
        } else {
            lemma_entity_named(entities.skip(1), name);
            if let Some(entity) = entity_named(entities, name) {
                let i = choose|i: int|
                    0 <= i < entities.skip(1).len() && #[trigger] entities.skip(1)[i] == entity;
                assert(entities[i + 1] == entity);
            }
        }
    }
}

pub open spec fn ops_view(r: Result<Vec<Statement>, BatchError>) -> Result<
    Seq<StatementView>,
    BatchErrorView,
> {
    match r {
        Ok(statements) => Ok(statement_views(statements@)),
        Err(error) => Err(batch_error_view(error)),
    }
}

/// What the operations of an arm come to: their statements in order, or why the first that
/// cannot be applied cannot.
pub fn apply_ops(entities: &Vec<EntityDef>, ops: &Vec<EntityOp>) -> (r: Result<
    Vec<Statement>,
    BatchError,
>)
    requires
        applicable(entities@, ops@),
    ensures
        ops_view(r) == ops_statements(entities@, ops@),
{
    let mut out: Vec<Statement> = Vec::new();
    let mut i: usize = 0;
    assert(ops@.take(0) =~= Seq::empty());
    assert(statement_views(out@) =~= Seq::empty());
    while i < ops.len()
        invariant
            i <= ops.len(),
            applicable(entities@, ops@),
            ops_statements(entities@, ops@.take(i as int)) == Ok::<
                Seq<StatementView>,
                BatchErrorView,
            >(statement_views(out@)),
        decreases ops.len() - i,
    {
        proof {
            assert(ops@.take(i as int + 1).drop_last() =~= ops@.take(i as int));
            assert(ops@.take(i as int + 1).last() == ops@[i as int]);
            lemma_entity_named(entities@, ops@[i as int].entity@);
        }
        let entity = match find_entity(&entities, &ops[i].entity) {
            Some(entity) => entity,
            None => {
                proof {
                    lemma_ops_error(entities@, ops@, i as int + 1);
                }
                return Err(BatchError::Undeclared);
            },
        };
        match apply_one(entity, &ops[i].kind) {
            Ok(Some(statement)) => {
                let ghost had = statement_views(out@);
                let ghost said = statement_view(statement);
                out.push(statement);
                assert(statement_views(out@) =~= had.push(said));
            },
            Ok(None) => {},
            Err(error) => {
                proof {
                    lemma_ops_error(entities@, ops@, i as int + 1);
                }
                return Err(BatchError::Apply { entity: entity.name.clone(), error });
            },
        }
        i += 1;
    }
    assert(ops@.take(i as int) =~= ops@);
    Ok(out)
}

// ---------------------------------------------------------------------------
// Going through a batch
// ---------------------------------------------------------------------------

/// What is to be done next with a batch.
pub enum BatchStep {
    /// Find which arms select an event.
    Select { event: usize },
    /// Run one arm on an event.
    Run { event: usize, arm: usize },
    /// Move the checkpoint, and commit.
    Commit(Statement),
}

/// How far a batch has been applied.
pub struct Batch {
    /// How many events it holds.
    pub events: usize,
    /// The position behind it.
    pub checkpoint: u64,
    /// The event that is being applied.
    pub event: usize,
    /// The arms that select it, once they are known.
    pub arms: Option<Vec<usize>>,
    /// Which of them runs next.
    pub next: usize,
}

/// The places of a list that are true.
pub open spec fn places(selects: Seq<bool>) -> Seq<usize>
    decreases selects.len(),
{
    if selects.len() == 0 {
        Seq::empty()
    } else if selects.last() {
        places(selects.drop_last()).push((selects.len() - 1) as usize)
    } else {
        places(selects.drop_last())
    }
}

fn selected_arms(selects: &Vec<bool>) -> (r: Vec<usize>)
    ensures
        r@ == places(selects@),
{
    let mut out: Vec<usize> = Vec::new();
    let mut i: usize = 0;
    assert(selects@.take(0) =~= Seq::empty());
    while i < selects.len()
        invariant
            i <= selects.len(),
            out@ == places(selects@.take(i as int)),
        decreases selects.len() - i,
    {
        assert(selects@.take(i as int + 1).drop_last() =~= selects@.take(i as int));
        if selects[i] {
            out.push(i);
        }
        i += 1;
    }
    assert(selects@.take(i as int) =~= selects@);
    out
}

/// Where a batch stands: the event, the arms that are run on it once they are known, and which
/// of them is next.
pub type BatchPlace = (nat, Option<Seq<usize>>, nat);

/// Where a batch stands.
pub open spec fn batch_place(batch: Batch) -> BatchPlace {
    (
        batch.event as nat,
        match batch.arms {
            Some(arms) => Some(arms@),
            None => None,
        },
        if batch.arms is Some {
            batch.next as nat
        } else {
            0
        },
    )
}

/// Where a batch stands once it is known which arms select its event.
pub open spec fn after_selecting(place: BatchPlace, selects: Seq<bool>) -> BatchPlace {
    if places(selects).len() == 0 {
        (place.0 + 1, None, 0)
    } else {
        (place.0, Some(places(selects)), 0)
    }
}

/// Where a batch stands once the next arm has run.
pub open spec fn after_running(place: BatchPlace) -> BatchPlace {
    match place.1 {
        Some(arms) => if place.2 + 1 == arms.len() {
            (place.0 + 1, None, 0)
        } else {
            (place.0, place.1, place.2 + 1)
        },
        None => place,
    }
}

impl Batch {
    /// Whether the batch stands somewhere: at its end, in front of an event, or in front
    /// of an arm that selects one.
    pub open spec fn well_formed(self) -> bool {
        &&& self.event <= self.events
        &&& match self.arms {
            Some(arms) => self.event < self.events && self.next < arms.len(),
            None => self.next == 0,
        }
    }

    /// A batch of which nothing was applied yet.
    pub fn new(events: usize, checkpoint: u64) -> (r: Batch)
        ensures
            r.well_formed(),
            r.events == events,
            r.checkpoint == checkpoint,
            r.event == 0,
            r.arms is None,
    {
        Batch { events, checkpoint, event: 0, arms: None, next: 0 }
    }

    /// What is to be done next.
    pub fn step(&self) -> (r: BatchStep)
        requires
            self.well_formed(),
        ensures
            match self.arms {
                Some(arms) => r == (BatchStep::Run {
                    event: self.event,
                    arm: arms@[self.next as int],
                }),
                None => if self.event < self.events {
                    r == (BatchStep::Select { event: self.event })
                } else {
                    r matches BatchStep::Commit(statement) && statement_view(statement)
                        == checkpoint_statement(self.checkpoint)
                },
            },
    {
        match &self.arms {
            Some(arms) => BatchStep::Run { event: self.event, arm: arms[self.next] },
            None => {
                if self.event < self.events {
                    BatchStep::Select { event: self.event }
                } else {
                    BatchStep::Commit(write_checkpoint(self.checkpoint))
                }
            },
        }
    }

    /// Takes note of which arms select the event. One that none selects costs nothing, and
    /// the checkpoint still moves past it.
    pub fn selected(&mut self, selects: &Vec<bool>)
        requires
            old(self).well_formed(),
            old(self).arms is None,
            old(self).event < old(self).events,
        ensures
            final(self).well_formed(),
            final(self).events == old(self).events,
            final(self).checkpoint == old(self).checkpoint,
            final(self).next == 0,
            if places(selects@).len() == 0 {
                final(self).arms is None && final(self).event == old(self).event + 1
            } else {
                &&& final(self).event == old(self).event
                &&& final(self).arms is Some
                &&& final(self).arms->0@ == places(selects@)
            },
            batch_place(*final(self)) == after_selecting(batch_place(*old(self)), selects@),
    {
        let arms = selected_arms(selects);
        if arms.len() == 0 {
            self.event = self.event + 1;
        } else {
            self.arms = Some(arms);
        }
    }

    /// Takes note of what an arm asked for: the statements to execute, or why it cannot be
    /// applied, which ends the batch.
    pub fn ran(&mut self, entities: &Vec<EntityDef>, ops: &Vec<EntityOp>) -> (r: Result<
        Vec<Statement>,
        BatchError,
    >)
        requires
            old(self).well_formed(),
            old(self).arms is Some,
            applicable(entities@, ops@),
        ensures
            ops_view(r) == ops_statements(entities@, ops@),
            final(self).well_formed(),
            final(self).events == old(self).events,
            final(self).checkpoint == old(self).checkpoint,
            match r {
                Err(_) => *final(self) == *old(self),
                Ok(_) => if old(self).next + 1 == old(self).arms->0.len() {
                    &&& final(self).event == old(self).event + 1
                    &&& final(self).arms is None
                } else {
                    &&& final(self).event == old(self).event
                    &&& final(self).arms == old(self).arms
                    &&& final(self).next == old(self).next + 1
                },
            },
            batch_place(*final(self)) == if r is Ok {
                after_running(batch_place(*old(self)))
            } else {
                batch_place(*old(self))
            },
    {
        let statements = match apply_ops(entities, ops) {
            Ok(statements) => statements,
            Err(error) => {
                return Err(error);
            },
        };
        let last: bool = match &self.arms {
            Some(arms) => self.next + 1 == arms.len(),
            None => true,
        };
        if last {
            self.event = self.event + 1;
            self.arms = None;
            self.next = 0;
        } else {
            self.next = self.next + 1;
        }
        Ok(statements)
    }
}

/// Every arm that selects an event is named once, in the order they are declared.
pub proof fn law_every_selecting_arm_runs_once(selects: Seq<bool>)
    requires
        selects.len() <= usize::MAX,
    ensures
        forall|k: int|
            0 <= k < places(selects).len() ==> #[trigger] places(selects)[k] < selects.len()
                && selects[places(selects)[k] as int],
        forall|j: int, k: int|
            0 <= j < k < places(selects).len() ==> #[trigger] places(selects)[j]
                < #[trigger] places(selects)[k],
        forall|i: int| 0 <= i < selects.len() && #[trigger] selects[i] ==> places(selects).contains(i as usize),
    decreases selects.len(),
{
    if selects.len() > 0 {
        let rest = selects.drop_last();
        law_every_selecting_arm_runs_once(rest);
        let all = places(selects);
        assert forall|i: int| 0 <= i < selects.len() && #[trigger] selects[i] implies all.contains(
            i as usize,
        ) by {
            if i < rest.len() {
                assert(rest[i]);
                assert(places(rest).contains(i as usize));
                let k = choose|k: int| 0 <= k < places(rest).len() && places(rest)[k] == i as usize;
                assert(all[k] == i as usize);
            } else {
                assert(all[places(rest).len() as int] == i as usize);
            }
        }
    }
}

} // verus!
