//! Projectors: what their loop does, and what their definition tells apart.

use vstd::prelude::*;

use crate::laws::texts::{
    lemma_joined_part, lemma_part_at_the_end, lemma_part_behind, lemma_part_in_front, lemma_part_of_itself,
    lemma_part_within,
};
use crate::projector::{
    action_of, columns_form, constraints_form, definition_form, entities_form, entity_form, fetched_of,
    indexes_form, kind_form, left_readiness, planned_readiness, readiness_code, readiness_label, readiness_of,
    reconciled, sources_form, spec_form, started, takes_batches, EventSpec, Fetched, ProjectorShared, Readiness,
};
use crate::schema::{EntityDef, FieldKind};
use crate::text::{debug_all, decimal, has_part, joined, views};

verus! {

// ---------------------------------------------------------------------------
// The loop
// ---------------------------------------------------------------------------

/// A projector takes batches at once only where its model is at the current definition. One that has
/// to be rebuilt is, before any batch lands, and one that may not be is only warned of.
pub proof fn law_a_projector_starts_by_what_its_model_is(
    previous: Option<Seq<char>>,
    checkpoint: u64,
    definition: Seq<char>,
    auto_rebuild: bool,
)
    ensures
        ({
            let plan = reconciled(previous, checkpoint, definition, auto_rebuild);
            let current = previous == Some(definition);
            let fresh = previous is None && checkpoint == 0;
            &&& started(plan) is Resume <==> current
            &&& started(plan) is Stamp <==> fresh
            &&& started(plan) is Rebuild <==> !current && !fresh && auto_rebuild
            &&& started(plan) is Warn <==> !current && !fresh && !auto_rebuild
            &&& planned_readiness(plan) is Ready <==> current || fresh
            &&& planned_readiness(plan) is Stale <==> started(plan) is Warn
            &&& takes_batches(planned_readiness(plan)) <==> !(started(plan) is Warn)
        }),
{
}

/// A replay that was asked for comes before anything else. Without one a batch is fetched exactly
/// where the model can take it, and a model that cannot waits, until it is asked to stop.
pub proof fn law_the_loop_never_feeds_an_outdated_model(shared: ProjectorShared)
    ensures
        action_of(shared) is Rebuild <==> shared.replay,
        action_of(shared) is Poll ==> readiness_of(shared.readiness) is Ready || readiness_of(
            shared.readiness,
        ) is Rebuilding,
        readiness_of(shared.readiness) is Stale || readiness_of(shared.readiness) is Failed ==> !(action_of(
            shared,
        ) is Poll),
        action_of(shared) is Stop ==> shared.shutdown,
        action_of(shared) is Idle ==> !shared.shutdown,
        !shared.replay && (readiness_of(shared.readiness) is Ready || readiness_of(shared.readiness) is Rebuilding)
            ==> action_of(shared) is Poll,
{
}

/// A projector that is asked to stop still drains the log: it leaves only where a fetch brought
/// nothing. What it went past by then is kept, and its position never goes back.
pub proof fn law_a_stopping_projector_drains_the_log(shared: ProjectorShared, events: usize, watermark: u64)
    ensures
        fetched_of(shared, events, watermark) is Apply <==> events > 0,
        fetched_of(shared, events, watermark) matches Fetched::CaughtUp { advance, stop } ==> {
            &&& stop <==> shared.shutdown
            &&& advance matches Some(position) ==> position == watermark && position > shared.position
            &&& advance is None ==> watermark <= shared.position
        },
{
}

/// A model whose rebuild failed is served exactly where what is on disk is at the current definition,
/// or holds nothing yet.
pub proof fn law_a_failed_rebuild_leaves_what_is_on_disk(
    recorded: Option<Seq<char>>,
    checkpoint: u64,
    definition: Seq<char>,
)
    ensures
        left_readiness(recorded, checkpoint, definition) is Ready <==> recorded == Some(definition) || (
        recorded is None && checkpoint == 0),
        left_readiness(recorded, checkpoint, definition) is Ready || left_readiness(
            recorded,
            checkpoint,
            definition,
        ) is Failed,
{
}

/// A readiness is told apart by its number and by its word.
pub proof fn law_a_readiness_is_told_apart(a: Readiness, b: Readiness)
    ensures
        readiness_code(a) == readiness_code(b) <==> a == b,
        readiness_label(a) == readiness_label(b) <==> a == b,
        readiness_of(readiness_code(a)) == a,
{
    reveal_strlit("ready");
    reveal_strlit("rebuilding");
    reveal_strlit("stale");
    reveal_strlit("rebuild_failed");
    assert("ready"@.len() == 5 && "rebuilding"@.len() == 10 && "stale"@.len() == 5 && "rebuild_failed"@.len()
        == 14);
    assert("ready"@[0] == 'r' && "stale"@[0] == 's');
}

// ---------------------------------------------------------------------------
// Definitions
// ---------------------------------------------------------------------------

/// How a column stands in a definition: its name, its kind, and the subject it is sealed under.
pub open spec fn column_part(entity: EntityDef, at: int) -> Seq<char> {
    let (name, meta) = entity.fields@[at];
    name@ + "="@ + kind_form(meta.kind) + (match meta.subject {
        Some(subject) => "@"@ + subject@,
        None => ""@,
    }) + ","@
}

/// How an index stands in a definition: its name and its columns.
pub open spec fn index_part(entity: EntityDef, at: int) -> Seq<char> {
    entity.indexes@[at].name@ + "("@ + joined(views(entity.indexes@[at].columns@), ","@) + ")"@
}

proof fn lemma_columns(entity: EntityDef, upto: nat, at: int)
    requires
        0 <= at < upto <= entity.fields.len(),
    ensures
        has_part(columns_form(entity, upto), column_part(entity, at)),
    decreases upto,
{
    let before = columns_form(entity, (upto - 1) as nat);
    let own = column_part(entity, upto - 1);
    assert(columns_form(entity, upto) =~= before + own);
    if at == upto - 1 {
        lemma_part_at_the_end(before, own);
    } else {
        lemma_columns(entity, (upto - 1) as nat, at);
        lemma_part_in_front(before, own, column_part(entity, at));
    }
}

proof fn lemma_indexes(entity: EntityDef, upto: nat, at: int)
    requires
        0 <= at < upto <= entity.indexes.len(),
    ensures
        has_part(indexes_form(entity, upto), index_part(entity, at)),
    decreases upto,
{
    let before = indexes_form(entity, (upto - 1) as nat);
    let own = index_part(entity, upto - 1);
    assert(indexes_form(entity, upto) =~= before + own);
    if at == upto - 1 {
        lemma_part_at_the_end(before, own);
    } else {
        lemma_indexes(entity, (upto - 1) as nat, at);
        lemma_part_in_front(before, own, index_part(entity, at));
    }
}

proof fn lemma_entities(entities: Seq<EntityDef>, at: int)
    requires
        0 <= at < entities.len(),
    ensures
        has_part(entities_form(entities), entity_form(entities[at])),
    decreases entities.len(),
{
    let rest = entities.drop_last();
    if at == rest.len() {
        lemma_part_at_the_end(entities_form(rest), entity_form(entities[at]));
    } else {
        lemma_entities(rest, at);
        lemma_part_in_front(entities_form(rest), entity_form(entities.last()), entity_form(entities[at]));
    }
}

proof fn lemma_sources(sources: Seq<EventSpec>, at: int)
    requires
        0 <= at < sources.len(),
    ensures
        has_part(sources_form(sources), spec_form(sources[at])),
    decreases sources.len(),
{
    let rest = sources.drop_last();
    if at == rest.len() {
        lemma_part_at_the_end(sources_form(rest), spec_form(sources[at]));
    } else {
        lemma_sources(rest, at);
        lemma_part_in_front(sources_form(rest), spec_form(sources.last()), spec_form(sources[at]));
    }
}

proof fn lemma_constraints(constraints: Seq<(String, String)>, at: int)
    requires
        0 <= at < constraints.len(),
    ensures
        has_part(constraints_form(constraints), constraints[at].0@ + "="@ + constraints[at].1@ + ","@),
    decreases constraints.len(),
{
    let rest = constraints.drop_last();
    let own = constraints[at].0@ + "="@ + constraints[at].1@ + ","@;
    if at == rest.len() {
        assert(constraints_form(constraints) =~= constraints_form(rest) + own);
        lemma_part_at_the_end(constraints_form(rest), own);
    } else {
        lemma_constraints(rest, at);
        let last = constraints.last();
        lemma_part_in_front(constraints_form(rest), last.0@ + "="@ + last.1@ + ","@, own);
        assert(constraints_form(constraints) =~= constraints_form(rest) + (last.0@ + "="@ + last.1@ + ","@));
    }
}

/// A definition holds every entity with its key and every column of it: the column's name, its kind
/// and the subject it is sealed under, and every index with its columns.
pub proof fn law_a_definition_holds_its_schema(
    sources: Seq<EventSpec>,
    entities: Seq<EntityDef>,
    at: int,
    column: int,
    index: int,
)
    requires
        0 <= at < entities.len(),
        0 <= column < entities[at].fields.len(),
        0 <= index < entities[at].indexes.len(),
    ensures
        ({
            let form = definition_form(sources, entities);
            let entity = entities[at];
            &&& has_part(form, entity.name@ + ":"@ + entity.key@ + "{"@)
            &&& has_part(form, column_part(entity, column))
            &&& has_part(form, index_part(entity, index))
        }),
{
    let entity = entities[at];
    let form = definition_form(sources, entities);
    let head = entity.name@ + ":"@ + entity.key@ + "{"@;
    let columns = columns_form(entity, entity.fields.len() as nat);
    let indexes = indexes_form(entity, entity.indexes.len() as nat);
    let whole = entity_form(entity);
    assert(whole =~= head + columns + "}"@ + indexes + ";"@);
    lemma_part_of_itself(head);
    lemma_part_in_front(head, columns, head);
    lemma_part_in_front(head + columns, "}"@, head);
    lemma_part_in_front(head + columns + "}"@, indexes, head);
    lemma_part_in_front(head + columns + "}"@ + indexes, ";"@, head);
    let column_text = column_part(entity, column);
    lemma_columns(entity, entity.fields.len() as nat, column);
    lemma_part_behind(head, columns, column_text);
    lemma_part_in_front(head + columns, "}"@, column_text);
    lemma_part_in_front(head + columns + "}"@, indexes, column_text);
    lemma_part_in_front(head + columns + "}"@ + indexes, ";"@, column_text);
    let index_text = index_part(entity, index);
    lemma_indexes(entity, entity.indexes.len() as nat, index);
    lemma_part_behind(head + columns + "}"@, indexes, index_text);
    lemma_part_in_front(head + columns + "}"@ + indexes, ";"@, index_text);
    lemma_entities(entities, at);
    lemma_part_through(sources, entities, whole, head);
    lemma_part_through(sources, entities, whole, column_text);
    lemma_part_through(sources, entities, whole, index_text);
}

proof fn lemma_part_through(sources: Seq<EventSpec>, entities: Seq<EntityDef>, whole: Seq<char>, part: Seq<char>)
    requires
        has_part(whole, part),
        has_part(entities_form(entities), whole),
    ensures
        has_part(definition_form(sources, entities), part),
{
    let text = entities_form(entities);
    let at = choose|at: int| crate::text::stands_at(text, whole, at);
    let before = text.take(at);
    let after = text.skip(at + whole.len());
    assert(text =~= before + whole + after);
    lemma_part_within(before, whole, after, part);
    lemma_part_behind(sources_form(sources) + "|"@, text, part);
    assert(definition_form(sources, entities) =~= sources_form(sources) + "|"@ + text);
}

/// A definition holds every clause of the subscription: the event's type, and each field that is held
/// to a value.
pub proof fn law_a_definition_holds_its_subscription(
    sources: Seq<EventSpec>,
    entities: Seq<EntityDef>,
    at: int,
    constraint: int,
)
    requires
        0 <= at < sources.len(),
    ensures
        has_part(definition_form(sources, entities), spec_form(sources[at])),
        sources[at] is All ==> spec_form(sources[at]) == "all;"@,
        sources[at] matches EventSpec::Filter { event_type, constraints } ==> {
            &&& has_part(spec_form(sources[at]), event_type@ + "("@)
            &&& 0 <= constraint < constraints.len() ==> has_part(
                spec_form(sources[at]),
                constraints@[constraint].0@ + "="@ + constraints@[constraint].1@ + ","@,
            )
        },
{
    lemma_sources(sources, at);
    let own = spec_form(sources[at]);
    lemma_part_in_front(sources_form(sources), "|"@, own);
    lemma_part_in_front(sources_form(sources) + "|"@, entities_form(entities), own);
    if let EventSpec::Filter { event_type, constraints } = sources[at] {
        let head = event_type@ + "("@;
        lemma_part_of_itself(head);
        lemma_part_in_front(head, constraints_form(constraints@), head);
        lemma_part_in_front(head + constraints_form(constraints@), ");"@, head);
        if 0 <= constraint < constraints.len() {
            let part = constraints@[constraint].0@ + "="@ + constraints@[constraint].1@ + ","@;
            lemma_constraints(constraints@, constraint);
            lemma_part_behind(head, constraints_form(constraints@), part);
            lemma_part_in_front(head + constraints_form(constraints@), ");"@, part);
        }
    }
}

proof fn lemma_decimals_differ(a: nat, b: nat)
    requires
        a != b,
    ensures
        decimal(a) != decimal(b),
{
    crate::text::lemma_decimal_value(a);
    crate::text::lemma_decimal_value(b);
}

proof fn lemma_between(front: Seq<char>, a: Seq<char>, b: Seq<char>, back: Seq<char>)
    requires
        a != b,
    ensures
        front + a + back != front + b + back,
{
    if front + a + back == front + b + back {
        assert((front + a + back).len() == (front + b + back).len());
        assert((front + a + back).subrange(front.len() as int, (front.len() + a.len()) as int) =~= a);
        assert((front + b + back).subrange(front.len() as int, (front.len() + b.len()) as int) =~= b);
    }
}

/// A kind is spelled with all that it carries: another bound on a text, another scale of an amount
/// and an optional one in place of a required one are spelled differently.
pub proof fn law_a_kind_is_spelled_with_what_it_carries(a: u32, b: u32, c: u8, d: u8, kind: FieldKind, other: FieldKind)
    ensures
        a != b ==> kind_form(FieldKind::Text { max_length: Some(a) }) != kind_form(
            FieldKind::Text { max_length: Some(b) },
        ),
        kind_form(FieldKind::Text { max_length: Some(a) }) != kind_form(FieldKind::Text { max_length: None }),
        c != d ==> kind_form(FieldKind::Money { scale: c }) != kind_form(FieldKind::Money { scale: d }),
        kind_form(FieldKind::Optional(Box::new(kind))) != kind_form(kind),
        kind_form(kind) != kind_form(other) ==> kind_form(FieldKind::Optional(Box::new(kind))) != kind_form(
            FieldKind::Optional(Box::new(other)),
        ),
{
    if a != b {
        lemma_decimals_differ(a as nat, b as nat);
        lemma_between("Text { max_length: Some("@, decimal(a as nat), decimal(b as nat), ") }"@);
    }
    if c != d {
        lemma_decimals_differ(c as nat, d as nat);
        lemma_between("Money { scale: "@, decimal(c as nat), decimal(d as nat), " }"@);
    }
    reveal_strlit("Text { max_length: Some(");
    reveal_strlit("Text { max_length: None }");
    let bounded = kind_form(FieldKind::Text { max_length: Some(a) });
    let free = kind_form(FieldKind::Text { max_length: None });
    assert(bounded[19] == "Text { max_length: Some("@[19]);
    assert("Text { max_length: Some("@[19] == 'S');
    assert(free[19] == 'N');
    reveal_strlit("Optional(");
    reveal_strlit(")");
    reveal_with_fuel(kind_form, 2);
    assert(kind_form(FieldKind::Optional(Box::new(kind))).len() == kind_form(kind).len() + 10);
    if kind_form(kind) != kind_form(other) {
        lemma_between("Optional("@, kind_form(kind), kind_form(other), ")"@);
    }
}

/// An enumeration is spelled with every one of its values.
pub proof fn law_an_enumeration_is_spelled_with_its_values(values: Vec<String>, at: int)
    requires
        0 <= at < values.len(),
    ensures
        has_part(kind_form(FieldKind::OneOf(values)), debug_all(views(values@))[at]),
{
    let list = debug_all(views(values@));
    lemma_joined_part(list, ", "@, at);
    lemma_part_behind("OneOf(["@, joined(list, ", "@), list[at]);
    lemma_part_in_front("OneOf(["@ + joined(list, ", "@), "])"@, list[at]);
}

} // verus!
