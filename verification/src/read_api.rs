//! The read API over projector read models: which filters an index can serve, how a page
//! is cut, and how a cursor is written.

use vstd::prelude::*;

use crate::json::{items_view, json_view, lemma_items, Json, JsonView};
use crate::list::picked;
use crate::read_model::{
    coerce_value, coerced, document_scalar, document_text, document_value, read_document, utf8_text,
    utf8_view,
};
use crate::schema::{
    base_kind, comparable, description, field_named, find_field, scalar_text, scalar_to_string,
    EntityDef, FieldKind,
};
use crate::text::{
    option_view, parse_i64, parsed_i64, same, signed_decimal, views, wide_number,
};

verus! {

/// The page size of a scan where the request does not set one.
pub const DEFAULT_LIMIT: usize = 50;

/// The largest page a scan returns.
pub const MAX_LIMIT: usize = 500;

/// The query parameters that the read endpoints take as controls, never as a filter.
pub const RESERVED_QUERY_PARAMS: [&'static str; 4] = ["limit", "cursor", "after", "timeout_ms"];

/// The query parameters that the read endpoints take as controls, never as a filter.
pub open spec fn reserved_params() -> Seq<Seq<char>> {
    seq!["limit"@, "cursor"@, "after"@, "timeout_ms"@]
}

/// The reserved query parameters as a list.
pub fn reserved_list() -> (r: Vec<String>)
    ensures
        views(r@) == reserved_params(),
{
    let mut out: Vec<String> = Vec::new();
    out.push(RESERVED_QUERY_PARAMS[0].to_owned());
    out.push(RESERVED_QUERY_PARAMS[1].to_owned());
    out.push(RESERVED_QUERY_PARAMS[2].to_owned());
    out.push(RESERVED_QUERY_PARAMS[3].to_owned());
    assert(views(out@) =~= reserved_params());
    out
}

// ---------------------------------------------------------------------------
// Entities and filterable fields
// ---------------------------------------------------------------------------

/// The first entity of that name.
pub open spec fn entity_named(entities: Seq<EntityDef>, name: Seq<char>) -> Option<EntityDef>
    decreases entities.len(),
{
    if entities.len() == 0 {
        None
    } else if entities[0].name@ == name {
        Some(entities[0])
    } else {
        entity_named(entities.skip(1), name)
    }
}

/// The entity named `name` in a projector's declared set.
pub fn find_entity<'a>(entities: &'a Vec<EntityDef>, name: &str) -> (r: Option<&'a EntityDef>)
    ensures
        match r {
            Some(entity) => entity_named(entities@, name@) == Some(*entity),
            None => entity_named(entities@, name@) is None,
        },
{
    let mut i: usize = 0;
    assert(entities@.skip(0) =~= entities@);
    while i < entities.len()
        invariant
            i <= entities.len(),
            entity_named(entities@.skip(i as int), name@) == entity_named(entities@, name@),
        decreases entities.len() - i,
    {
        if same(&entities[i].name, name) {
            assert(entities@.skip(i as int)[0] == entities@[i as int]);
            return Some(&entities[i]);
        }
        assert(entities@.skip(i as int).skip(1) =~= entities@.skip(i as int + 1));
        i += 1;
    }
    None
}

/// The columns of the first indexes, one index after the other.
pub open spec fn indexed_columns(entity: EntityDef, upto: nat) -> Seq<Seq<char>>
    decreases upto,
{
    if upto == 0 {
        Seq::empty()
    } else {
        indexed_columns(entity, (upto - 1) as nat) + views(entity.indexes@[upto - 1].columns@)
    }
}

/// Where a column of the first indexes stands: its index and its place in it.
pub proof fn lemma_indexed_column(entity: EntityDef, upto: nat, at: int) -> (r: (int, int))
    requires
        upto <= entity.indexes.len(),
        0 <= at < indexed_columns(entity, upto).len(),
    ensures
        0 <= r.0 < upto,
        0 <= r.1 < entity.indexes@[r.0].columns.len(),
        entity.indexes@[r.0].columns@[r.1]@ == indexed_columns(entity, upto)[at],
    decreases upto,
{
    let before = indexed_columns(entity, (upto - 1) as nat).len();
    if at < before {
        lemma_indexed_column(entity, (upto - 1) as nat, at)
    } else {
        (upto - 1, at - before)
    }
}

/// Every field that a filter may name: the key, then every column of every index.
pub open spec fn filterable(entity: EntityDef) -> Seq<Seq<char>> {
    seq![entity.key@] + indexed_columns(entity, entity.indexes.len() as nat)
}

/// Every field a scan may name in a filter, in declaration order: the key, then every
/// column of every declared index. A name may repeat.
///
/// Naming a column here does not mean that it can be filtered alone: a filter has to be a
/// prefix of one index, see [`choose_index`].
pub fn filterable_fields(entity: &EntityDef) -> (r: Vec<String>)
    ensures
        views(r@) == filterable(*entity),
{
    let mut out: Vec<String> = Vec::new();
    out.push(entity.key.clone());
    let ghost first = seq![entity.key@];
    assert(views(out@) =~= first + indexed_columns(*entity, 0));
    let mut i: usize = 0;
    while i < entity.indexes.len()
        invariant
            i <= entity.indexes.len(),
            views(out@) == first + indexed_columns(*entity, i as nat),
        decreases entity.indexes.len() - i,
    {
        let columns = &entity.indexes[i].columns;
        let ghost start = views(out@);
        let mut j: usize = 0;
        assert(start + views(columns@).take(0) =~= start);
        while j < columns.len()
            invariant
                j <= columns.len(),
                views(out@) == start + views(columns@).take(j as int),
            decreases columns.len() - j,
        {
            let ghost had = views(out@);
            out.push(columns[j].clone());
            assert(views(out@) =~= had.push(columns@[j as int]@));
            assert(views(columns@).take(j as int + 1) =~= views(columns@).take(j as int).push(
                columns@[j as int]@,
            ));
            assert(had.push(columns@[j as int]@) =~= start + views(columns@).take(j as int + 1));
            j += 1;
        }
        assert(views(columns@).take(columns@.len() as int) =~= views(columns@));
        assert(start + views(columns@) =~= first + indexed_columns(*entity, i as nat + 1));
        i += 1;
    }
    out
}

/// Whether `field` may appear in a filter at all: the key, or a column of some declared
/// index. A column that no index covers would be a table scan. Being filterable is
/// necessary and not sufficient: [`choose_index`] decides whether the combination that is
/// asked for can be served.
pub fn is_filterable(entity: &EntityDef, field: &str) -> (r: bool)
    ensures
        r == filterable(*entity).contains(field@),
{
    crate::text::holds(&filterable_fields(entity), field)
}

// ---------------------------------------------------------------------------
// Filters
// ---------------------------------------------------------------------------

/// One end of a range, and whether it includes its own value.
#[derive(Debug, Clone, Copy, PartialEq, Eq, Structural)]
pub enum Bound {
    Inclusive,
    Exclusive,
}

/// The SQL comparison of a bound at one end.
pub open spec fn bound_operator(bound: Bound, lower: bool) -> Seq<char> {
    match (lower, bound) {
        (true, Bound::Inclusive) => ">="@,
        (true, Bound::Exclusive) => ">"@,
        (false, Bound::Inclusive) => "<="@,
        (false, Bound::Exclusive) => "<"@,
    }
}

impl Bound {
    /// The SQL comparison for this bound at the given end.
    pub fn operator(self, lower: bool) -> (r: &'static str)
        ensures
            r@ == bound_operator(self, lower),
    {
        match (lower, self) {
            (true, Bound::Inclusive) => ">=",
            (true, Bound::Exclusive) => ">",
            (false, Bound::Inclusive) => "<=",
            (false, Bound::Exclusive) => "<",
        }
    }
}

/// The suffixes that spell a range bound in a query string, with the end and the bound
/// that each one means. No column can carry a dot, so none of these can collide with one.
pub const RANGE_OPERATORS: [(&'static str, bool, Bound); 4] = [
    ("gte", true, Bound::Inclusive),
    ("gt", true, Bound::Exclusive),
    ("lte", false, Bound::Inclusive),
    ("lt", false, Bound::Exclusive),
];

/// A range over one column: either end, both, or neither.
#[derive(Debug, Clone)]
pub struct Range {
    pub lower: Option<(Bound, String)>,
    pub upper: Option<(Bound, String)>,
}

/// One end of a range: which end, the bound, and its value.
pub type EndView = (bool, Bound, Seq<char>);

/// The ends a range has, the lower first.
pub open spec fn range_bounds(range: Range) -> Seq<EndView> {
    (match range.lower {
        Some(end) => seq![(true, end.0, end.1@)],
        None => Seq::empty(),
    }) + (match range.upper {
        Some(end) => seq![(false, end.0, end.1@)],
        None => Seq::empty(),
    })
}

impl Range {
    /// The ends this range has, the lower first, which is the order that a statement
    /// binds them in.
    pub fn bounds(&self) -> (r: Vec<(bool, Bound, String)>)
        ensures
            end_views(r@) == range_bounds(*self),
    {
        let mut out: Vec<(bool, Bound, String)> = Vec::new();
        if let Some(end) = &self.lower {
            out.push((true, end.0, end.1.clone()));
        }
        if let Some(end) = &self.upper {
            out.push((false, end.0, end.1.clone()));
        }
        assert(end_views(out@) =~= range_bounds(*self));
        out
    }
}

pub open spec fn end_views(ends: Seq<(bool, Bound, String)>) -> Seq<EndView> {
    Seq::new(ends.len(), |i: int| (ends[i].0, ends[i].1, ends[i].2@))
}

/// What a scan is asked to match: equality on some columns, and at most one column with a
/// range. That is the shape an index serves: equality on its first columns seeks to a
/// contiguous run, and a range on the next one walks a slice of it.
#[derive(Debug, Clone)]
pub struct Filter {
    pub equals: Vec<(String, String)>,
    pub range: Option<(String, Range)>,
}

/// The columns that a filter compares for equality.
pub open spec fn equal_columns(filter: Filter) -> Seq<Seq<char>> {
    Seq::new(filter.equals.len() as nat, |i: int| filter.equals@[i].0@)
}

/// The column that a filter ranges over.
pub open spec fn ranged_column(filter: Filter) -> Option<Seq<char>> {
    match filter.range {
        Some(range) => Some(range.0@),
        None => None,
    }
}

/// Every column that a filter names, the range last.
pub open spec fn filter_columns(filter: Filter) -> Seq<Seq<char>> {
    match ranged_column(filter) {
        Some(column) => equal_columns(filter).push(column),
        None => equal_columns(filter),
    }
}

impl Filter {
    pub fn is_empty(&self) -> (r: bool)
        ensures
            r == (filter_columns(*self).len() == 0),
    {
        self.equals.len() == 0 && self.range.is_none()
    }

    /// The range column, if one was asked for.
    pub fn range_column(&self) -> (r: Option<&str>)
        ensures
            match r {
                Some(column) => ranged_column(*self) == Some(column@),
                None => ranged_column(*self) is None,
            },
    {
        match &self.range {
            Some(range) => Some(range.0.as_str()),
            None => None,
        }
    }

    /// Every column that is named, equality first and then the range, for a message that
    /// has to say what was asked.
    pub fn columns(&self) -> (r: Vec<String>)
        ensures
            views(r@) == filter_columns(*self),
    {
        let mut out: Vec<String> = Vec::new();
        let mut i: usize = 0;
        while i < self.equals.len()
            invariant
                i <= self.equals.len(),
                out.len() == i,
                forall|k: int| 0 <= k < i ==> (#[trigger] out@[k])@ == self.equals@[k].0@,
            decreases self.equals.len() - i,
        {
            out.push(self.equals[i].0.clone());
            i += 1;
        }
        assert(views(out@) =~= equal_columns(*self));
        if let Some(range) = &self.range {
            out.push(range.0.clone());
            assert(views(out@) =~= equal_columns(*self).push(range.0@));
        }
        out
    }
}

/// How a scan reaches its rows.
#[derive(Debug, Clone, Copy)]
pub enum Access<'a> {
    /// Through the primary key, which has no index to name.
    Key,
    /// Through a declared index of this name.
    Index(&'a str),
}

pub enum AccessView {
    Key,
    Index(Seq<char>),
}

pub open spec fn access_view(access: Access) -> AccessView {
    match access {
        Access::Key => AccessView::Key,
        Access::Index(name) => AccessView::Index(name@),
    }
}

/// Whether a filter asks about the key alone, or about nothing.
pub open spec fn key_alone(entity: EntityDef, filter: Filter) -> bool {
    &&& forall|i: int|
        0 <= i < filter.equals.len() ==> (#[trigger] equal_columns(filter)[i]) == entity.key@
    &&& ranged_column(filter) matches Some(column) ==> column == entity.key@
}

/// Whether an index over `columns` serves a filter: the equality columns are among its
/// first ones, as many as there are of them, and the range column is the next.
pub open spec fn serves(columns: Seq<Seq<char>>, filter: Filter) -> bool {
    let n = filter.equals.len();
    &&& n <= columns.len()
    &&& forall|i: int|
        0 <= i < n ==> columns.take(n as int).contains(#[trigger] equal_columns(filter)[i])
    &&& ranged_column(filter) matches Some(column) ==> n < columns.len() && columns[n as int]
        == column
}

/// Whether one of an entity's indexes serves a filter.
pub open spec fn index_serves(entity: EntityDef, at: int, filter: Filter) -> bool {
    serves(views(entity.indexes@[at].columns@), filter)
}

/// The best index among the first ones: the narrowest that serves, the earliest of those.
pub open spec fn best_index(entity: EntityDef, filter: Filter, upto: nat) -> Option<int>
    decreases upto,
{
    if upto == 0 {
        None
    } else {
        let best = best_index(entity, filter, (upto - 1) as nat);
        let at = upto - 1;
        if !index_serves(entity, at, filter) {
            best
        } else {
            match best {
                Some(held) => if entity.indexes@[at].columns.len()
                    < entity.indexes@[held].columns.len() {
                    Some(at)
                } else {
                    best
                },
                None => Some(at),
            }
        }
    }
}

/// How a filter is served, if it can be.
pub open spec fn chosen_index(entity: EntityDef, filter: Filter) -> Option<AccessView> {
    if key_alone(entity, filter) {
        Some(AccessView::Key)
    } else {
        match best_index(entity, filter, entity.indexes.len() as nat) {
            Some(at) => Some(AccessView::Index(entity.indexes@[at].name@)),
            None => None,
        }
    }
}

/// Whether an index over these columns serves a filter.
fn serves_filter(columns: &Vec<String>, filter: &Filter) -> (r: bool)
    ensures
        r == serves(views(columns@), *filter),
{
    let n: usize = filter.equals.len();
    let ghost all = views(columns@);
    if n > columns.len() {
        return false;
    }
    let mut i: usize = 0;
    while i < n
        invariant
            i <= n <= columns.len(),
            n == filter.equals.len(),
            all == views(columns@),
            forall|k: int|
                0 <= k < i ==> all.take(n as int).contains(#[trigger] equal_columns(*filter)[k]),
        decreases n - i,
    {
        let column = &filter.equals[i].0;
        let mut found = false;
        let mut j: usize = 0;
        while j < n && !found
            invariant
                j <= n <= columns.len(),
                all == views(columns@),
                found ==> all.take(n as int).contains(column@),
                !found ==> forall|k: int| 0 <= k < j ==> all[k] != column@,
            decreases n - j + if found { 0int } else { 1int },
        {
            assert(all[j as int] == columns@[j as int]@);
            if same(&columns[j], column) {
                assert(all.take(n as int)[j as int] == column@);
                found = true;
            } else {
                j += 1;
            }
        }
        assert(equal_columns(*filter)[i as int] == column@);
        if !found {
            assert(!all.take(n as int).contains(column@));
            return false;
        }
        i += 1;
    }
    match filter.range_column() {
        Some(column) => n < columns.len() && same(&columns[n], column),
        None => true,
    }
}

/// The index a filter is served by, or nothing where nothing declared can serve it.
///
/// The equality columns must be a prefix of the index, in any order, and the range column
/// the one right behind that prefix: anything else means visiting rows that do not match,
/// which is the table scan that this API refuses. The key is tried first. Where several
/// indexes serve, the narrowest wins, because the rows arrive in key order only where the
/// filter uses up an index's declared columns; ties go to declaration order.
pub fn choose_index<'a>(entity: &'a EntityDef, filter: &Filter) -> (r: Option<Access<'a>>)
    ensures
        match r {
            Some(access) => chosen_index(*entity, *filter) == Some(access_view(access)),
            None => chosen_index(*entity, *filter) is None,
        },
{
    let mut key_only = match filter.range_column() {
        Some(column) => same(column, &entity.key),
        None => true,
    };
    let mut i: usize = 0;
    while i < filter.equals.len()
        invariant
            i <= filter.equals.len(),
            key_only == ((ranged_column(*filter) matches Some(column) ==> column == entity.key@)
                && forall|k: int|
                    0 <= k < i ==> (#[trigger] equal_columns(*filter)[k]) == entity.key@),
        decreases filter.equals.len() - i,
    {
        assert(equal_columns(*filter)[i as int] == filter.equals@[i as int].0@);
        if !same(&filter.equals[i].0, &entity.key) {
            key_only = false;
        }
        i += 1;
    }
    if key_only {
        return Some(Access::Key);
    }
    let mut best: Option<usize> = None;
    let mut i: usize = 0;
    while i < entity.indexes.len()
        invariant
            i <= entity.indexes.len(),
            match best {
                Some(at) => at < i && best_index(*entity, *filter, i as nat) == Some(at as int),
                None => best_index(*entity, *filter, i as nat) is None,
            },
        decreases entity.indexes.len() - i,
    {
        if serves_filter(&entity.indexes[i].columns, filter) {
            match best {
                Some(at) => {
                    if entity.indexes[i].columns.len() < entity.indexes[at].columns.len() {
                        best = Some(i);
                    }
                },
                None => {
                    best = Some(i);
                },
            }
        }
        i += 1;
    }
    match best {
        Some(at) => Some(Access::Index(entity.indexes[at].name.as_str())),
        None => None,
    }
}


impl Default for Range {
    fn default() -> (r: Range)
        ensures
            r.lower is None,
            r.upper is None,
    {
        Range { lower: None, upper: None }
    }
}

impl Default for Filter {
    fn default() -> (r: Filter)
        ensures
            r.equals.len() == 0,
            r.range is None,
    {
        Filter { equals: Vec::new(), range: None }
    }
}

// ---------------------------------------------------------------------------
// What the choice of an index promises
// ---------------------------------------------------------------------------

proof fn lemma_best(entity: EntityDef, filter: Filter, upto: nat)
    requires
        upto <= entity.indexes.len(),
    ensures
        match best_index(entity, filter, upto) {
            Some(at) => {
                &&& 0 <= at < upto
                &&& index_serves(entity, at, filter)
                &&& forall|i: int|
                    0 <= i < upto && #[trigger] index_serves(entity, i, filter)
                        ==> entity.indexes@[at].columns.len() <= entity.indexes@[i].columns.len()
                &&& forall|i: int|
                    0 <= i < at && #[trigger] index_serves(entity, i, filter)
                        ==> entity.indexes@[at].columns.len() < entity.indexes@[i].columns.len()
            },
            None => forall|i: int| 0 <= i < upto ==> !#[trigger] index_serves(entity, i, filter),
        },
    decreases upto,
{
    if upto > 0 {
        lemma_best(entity, filter, (upto - 1) as nat);
    }
}

/// A filter is refused if and only if it asks about more than the key and no declared
/// index serves it. One that is served by an index is served by the narrowest that can,
/// the first declared of those.
pub proof fn law_the_narrowest_index_is_chosen(entity: EntityDef, filter: Filter)
    ensures
        chosen_index(entity, filter) is None <==> !key_alone(entity, filter) && forall|i: int|
            0 <= i < entity.indexes.len() ==> !#[trigger] index_serves(entity, i, filter),
        chosen_index(entity, filter) is Some && !key_alone(entity, filter) ==> exists|at: int|
            {
                &&& 0 <= at < entity.indexes.len()
                &&& #[trigger] index_serves(entity, at, filter)
                &&& chosen_index(entity, filter) == Some(
                    AccessView::Index(entity.indexes@[at].name@),
                )
                &&& forall|i: int|
                    0 <= i < entity.indexes.len() && #[trigger] index_serves(entity, i, filter)
                        ==> entity.indexes@[at].columns.len() <= entity.indexes@[i].columns.len()
                &&& forall|i: int|
                    0 <= i < at && #[trigger] index_serves(entity, i, filter)
                        ==> entity.indexes@[at].columns.len() < entity.indexes@[i].columns.len()
            },
{
    lemma_best(entity, filter, entity.indexes.len() as nat);
}

proof fn lemma_indexed_columns(entity: EntityDef, upto: nat, index: int, column: int)
    requires
        upto <= entity.indexes.len(),
        0 <= index < upto,
        0 <= column < entity.indexes@[index].columns.len(),
    ensures
        indexed_columns(entity, upto).contains(entity.indexes@[index].columns@[column]@),
    decreases upto,
{
    let rest = indexed_columns(entity, (upto - 1) as nat);
    let own = views(entity.indexes@[upto - 1].columns@);
    if index == upto - 1 {
        assert((rest + own)[rest.len() + column] == own[column]);
    } else {
        lemma_indexed_columns(entity, (upto - 1) as nat, index, column);
        let k = choose|k: int|
            0 <= k < rest.len() && rest[k] == entity.indexes@[index].columns@[column]@;
        assert((rest + own)[k] == rest[k]);
    }
}

/// A filter that can be served names filterable fields only.
pub proof fn law_a_served_filter_is_filterable(entity: EntityDef, filter: Filter, at: int)
    requires
        chosen_index(entity, filter) is Some,
        0 <= at < filter_columns(filter).len(),
    ensures
        filterable(entity).contains(filter_columns(filter)[at]),
{
    let column = filter_columns(filter)[at];
    let all = filterable(entity);
    let indexed = indexed_columns(entity, entity.indexes.len() as nat);
    if key_alone(entity, filter) {
        if at < filter.equals.len() {
            assert(equal_columns(filter)[at] == entity.key@);
        }
        assert(all[0] == entity.key@);
    } else {
        lemma_best(entity, filter, entity.indexes.len() as nat);
        let index = best_index(entity, filter, entity.indexes.len() as nat)->0;
        let columns = views(entity.indexes@[index].columns@);
        let n = filter.equals.len() as int;
        assert(serves(columns, filter));
        let j = if at < n {
            assert(columns.take(n).contains(equal_columns(filter)[at]));
            choose|j: int| 0 <= j < n && columns.take(n)[j] == equal_columns(filter)[at]
        } else {
            n
        };
        assert(columns[j] == column);
        lemma_indexed_columns(entity, entity.indexes.len() as nat, index, j);
        let k = choose|k: int| 0 <= k < indexed.len() && indexed[k] == column;
        assert(all[k + 1] == column);
    }
}

/// A query string carries no order: two filters that compare the same columns for
/// equality, as many of them, and range over the same column are served alike.
pub proof fn law_the_order_of_equalities_is_free(entity: EntityDef, a: Filter, b: Filter)
    requires
        a.equals.len() == b.equals.len(),
        forall|c: Seq<char>| equal_columns(a).contains(c) == equal_columns(b).contains(c),
        ranged_column(a) == ranged_column(b),
    ensures
        chosen_index(entity, a) == chosen_index(entity, b),
{
    if key_alone(entity, a) {
        lemma_key_alone(entity, a, b);
    }
    if key_alone(entity, b) {
        lemma_key_alone(entity, b, a);
    }
    lemma_same_best(entity, a, b, entity.indexes.len() as nat);
}

proof fn lemma_key_alone(entity: EntityDef, a: Filter, b: Filter)
    requires
        forall|c: Seq<char>| equal_columns(a).contains(c) == equal_columns(b).contains(c),
        ranged_column(a) == ranged_column(b),
        key_alone(entity, a),
    ensures
        key_alone(entity, b),
{
    assert forall|i: int| 0 <= i < b.equals.len() implies (#[trigger] equal_columns(b)[i])
        == entity.key@ by {
        assert(equal_columns(b).contains(equal_columns(b)[i]));
        let k = choose|k: int|
            0 <= k < equal_columns(a).len() && equal_columns(a)[k] == equal_columns(b)[i];
    }
}

proof fn lemma_serves(columns: Seq<Seq<char>>, a: Filter, b: Filter)
    requires
        a.equals.len() == b.equals.len(),
        forall|c: Seq<char>| equal_columns(a).contains(c) == equal_columns(b).contains(c),
        ranged_column(a) == ranged_column(b),
        serves(columns, a),
    ensures
        serves(columns, b),
{
    let n = a.equals.len() as int;
    assert forall|i: int| 0 <= i < n implies columns.take(n).contains(
        #[trigger] equal_columns(b)[i],
    ) by {
        assert(equal_columns(b).contains(equal_columns(b)[i]));
        let k = choose|k: int|
            0 <= k < equal_columns(a).len() && equal_columns(a)[k] == equal_columns(b)[i];
        assert(columns.take(n).contains(equal_columns(a)[k]));
    }
}

proof fn lemma_same_best(entity: EntityDef, a: Filter, b: Filter, upto: nat)
    requires
        a.equals.len() == b.equals.len(),
        forall|c: Seq<char>| equal_columns(a).contains(c) == equal_columns(b).contains(c),
        ranged_column(a) == ranged_column(b),
        upto <= entity.indexes.len(),
    ensures
        best_index(entity, a, upto) == best_index(entity, b, upto),
    decreases upto,
{
    if upto > 0 {
        lemma_same_best(entity, a, b, (upto - 1) as nat);
        let columns = views(entity.indexes@[upto - 1].columns@);
        if serves(columns, a) {
            lemma_serves(columns, a, b);
        }
        if serves(columns, b) {
            lemma_serves(columns, b, a);
        }
    }
}

// ---------------------------------------------------------------------------
// Checking a filter's values
// ---------------------------------------------------------------------------

/// Why a filter's values are refused.
pub enum FilterError {
    /// A value is not of its column's type.
    Value { field: String, reason: &'static str },
    /// A range over a column whose order means nothing.
    Unordered { field: String, kind: String },
}

pub enum FilterErrorView {
    Value(Seq<char>, Seq<char>),
    Unordered(Seq<char>, Seq<char>),
}

pub open spec fn filter_error_view(err: FilterError) -> FilterErrorView {
    match err {
        FilterError::Value { field, reason } => FilterErrorView::Value(field@, reason@),
        FilterError::Unordered { field, kind } => FilterErrorView::Unordered(field@, kind@),
    }
}

pub open spec fn filter_message(err: FilterErrorView) -> Seq<char> {
    match err {
        FilterErrorView::Value(field, reason) => "filter `"@ + field + "`: "@ + reason,
        FilterErrorView::Unordered(field, kind) => "filter `"@ + field + "` is "@ + kind
            + ", which has no order a range could use; filter it for equality instead"@,
    }
}

impl FilterError {
    pub fn message(&self) -> (r: String)
        ensures
            r@ == filter_message(filter_error_view(*self)),
    {
        match self {
            FilterError::Value { field, reason } => {
                let mut out = "filter `".to_owned();
                out.append(field);
                out.append("`: ");
                out.append(reason);
                out
            },
            FilterError::Unordered { field, kind } => {
                let mut out = "filter `".to_owned();
                out.append(field);
                out.append("` is ");
                out.append(kind);
                out.append(
                    ", which has no order a range could use; filter it for equality instead",
                );
                out
            },
        }
    }
}

/// What is wrong with one value of a filter. A column that is not declared is left to
/// whoever decides what can be filtered.
pub open spec fn value_error(entity: EntityDef, field: Seq<char>, value: Seq<char>) -> Option<
    FilterErrorView,
> {
    match field_named(entity.fields@, field) {
        Some(meta) => match coerced(meta.kind, value) {
            Ok(_) => None,
            Err(reason) => Some(FilterErrorView::Value(field, reason)),
        },
        None => None,
    }
}

/// The first error in the equalities from `from` on.
pub open spec fn equals_error(entity: EntityDef, filter: Filter, from: nat) -> Option<FilterErrorView>
    decreases filter.equals.len() - from,
{
    if from >= filter.equals.len() {
        None
    } else {
        let (field, value) = filter.equals@[from as int];
        match value_error(entity, field@, value@) {
            Some(err) => Some(err),
            None => equals_error(entity, filter, from + 1),
        }
    }
}

/// The first error in the ends of a range from `from` on.
pub open spec fn ends_error(entity: EntityDef, field: Seq<char>, ends: Seq<EndView>, from: nat) -> Option<
    FilterErrorView,
>
    decreases ends.len() - from,
{
    if from >= ends.len() {
        None
    } else {
        match value_error(entity, field, ends[from as int].2) {
            Some(err) => Some(err),
            None => ends_error(entity, field, ends, from + 1),
        }
    }
}

/// What is wrong with a filter's values, the first thing that is: its equalities, then
/// whether its range column has an order, then the ends of the range.
pub open spec fn filter_error(entity: EntityDef, filter: Filter) -> Option<FilterErrorView> {
    if equals_error(entity, filter, 0) is Some {
        equals_error(entity, filter, 0)
    } else {
        match filter.range {
            None => None,
            Some(range) => match field_named(entity.fields@, range.0@) {
                None => None,
                Some(meta) => if !comparable(meta.kind) {
                    Some(FilterErrorView::Unordered(range.0@, description(meta.kind)))
                } else {
                    ends_error(entity, range.0@, range_bounds(range.1), 0)
                },
            },
        }
    }
}

fn check_value(entity: &EntityDef, field: &str, value: &str) -> (r: Option<FilterError>)
    ensures
        match r {
            Some(err) => value_error(*entity, field@, value@) == Some(filter_error_view(err)),
            None => value_error(*entity, field@, value@) is None,
        },
{
    match find_field(&entity.fields, field) {
        Some(meta) => match coerce_value(&meta.kind, value) {
            Ok(_) => None,
            Err(reason) => Some(FilterError::Value { field: field.to_owned(), reason }),
        },
        None => None,
    }
}

/// Checks that a filter's values are of their columns' declared types, so that a mismatch
/// is refused up front rather than a scan that matches nothing. A range has one more
/// requirement: the column's order has to mean what was declared.
pub fn check_filter(entity: &EntityDef, filter: &Filter) -> (r: Result<(), FilterError>)
    ensures
        match r {
            Ok(()) => filter_error(*entity, *filter) is None,
            Err(err) => filter_error(*entity, *filter) == Some(filter_error_view(err)),
        },
{
    let mut i: usize = 0;
    while i < filter.equals.len()
        invariant
            i <= filter.equals.len(),
            equals_error(*entity, *filter, 0) == equals_error(*entity, *filter, i as nat),
        decreases filter.equals.len() - i,
    {
        if let Some(err) = check_value(entity, &filter.equals[i].0, &filter.equals[i].1) {
            return Err(err);
        }
        i += 1;
    }
    if let Some(range) = &filter.range {
        if let Some(meta) = find_field(&entity.fields, &range.0) {
            if !meta.kind.is_comparable() {
                return Err(
                    FilterError::Unordered { field: range.0.clone(), kind: meta.kind.describe() },
                );
            }
            let ends = range.1.bounds();
            let mut i: usize = 0;
            while i < ends.len()
                invariant
                    i <= ends.len(),
                    end_views(ends@) == range_bounds(range.1),
                    filter.range == Some(*range),
                    equals_error(*entity, *filter, 0) is None,
                    field_named(entity.fields@, range.0@) == Some(*meta),
                    comparable(meta.kind),
                    ends_error(*entity, range.0@, range_bounds(range.1), 0) == ends_error(
                        *entity,
                        range.0@,
                        range_bounds(range.1),
                        i as nat,
                    ),
                decreases ends.len() - i,
            {
                assert(range_bounds(range.1)[i as int] == (ends@[i as int].0, ends@[i as int].1, ends@[i as int].2@));
                if let Some(err) = check_value(entity, &range.0, &ends[i].2) {
                    return Err(err);
                }
                i += 1;
            }
        }
    }
    Ok(())
}

// ---------------------------------------------------------------------------
// Cursors
// ---------------------------------------------------------------------------

/// The character that stands for six bits in the url-safe alphabet of base64.
pub open spec fn symbol(n: int) -> char {
    if n < 26 {
        (65 + n) as char
    } else if n < 52 {
        (71 + n) as char
    } else if n < 62 {
        (n - 4) as char
    } else if n == 62 {
        '-'
    } else {
        '_'
    }
}

/// Bytes in url-safe base64 without padding: every three bytes are four characters, and
/// what is left at the end is filled up with zero bits.
pub open spec fn base64url(bytes: Seq<u8>) -> Seq<char>
    decreases bytes.len(),
{
    let (a, b, c) = (bytes[0] as int, bytes[1] as int, bytes[2] as int);
    if bytes.len() == 0 {
        Seq::empty()
    } else if bytes.len() == 1 {
        seq![symbol(a / 4), symbol(a % 4 * 16)]
    } else if bytes.len() == 2 {
        seq![symbol(a / 4), symbol(a % 4 * 16 + b / 16), symbol(b % 16 * 4)]
    } else {
        seq![symbol(a / 4), symbol(a % 4 * 16 + b / 16), symbol(b % 16 * 4 + c / 64), symbol(c % 64)]
            + base64url(bytes.skip(3))
    }
}

/// The bytes that a text is in url-safe base64, where it is any.
pub open spec fn base64url_bytes(text: Seq<char>) -> Option<Seq<u8>> {
    if exists|bytes: Seq<u8>| #[trigger] base64url(bytes) == text {
        Some(choose|bytes: Seq<u8>| #[trigger] base64url(bytes) == text)
    } else {
        None
    }
}

proof fn lemma_symbols_differ(m: int, n: int)
    requires
        0 <= m < 64,
        0 <= n < 64,
        symbol(m) == symbol(n),
    ensures
        m == n,
{
}

/// No two sequences of bytes are the same text.
proof fn lemma_base64url_is_injective(x: Seq<u8>, y: Seq<u8>)
    requires
        base64url(x) == base64url(y),
    ensures
        x == y,
    decreases x.len(),
{
    let (s, t) = (base64url(x), base64url(y));
    if x.len() >= 3 {
        assert(s.len() >= 4);
    }
    if y.len() >= 3 {
        assert(t.len() >= 4);
    }
    if x.len() > 0 && y.len() > 0 {
        assert(s[0] == t[0] && s[1] == t[1]);
        lemma_symbols_differ(x[0] as int / 4, y[0] as int / 4);
        if x.len() == 1 {
            lemma_symbols_differ(x[0] as int % 4 * 16, y[0] as int % 4 * 16);
        } else {
            lemma_symbols_differ(
                x[0] as int % 4 * 16 + x[1] as int / 16,
                y[0] as int % 4 * 16 + y[1] as int / 16,
            );
            assert(s[2] == t[2]);
            if x.len() == 2 {
                lemma_symbols_differ(x[1] as int % 16 * 4, y[1] as int % 16 * 4);
            } else {
                lemma_symbols_differ(
                    x[1] as int % 16 * 4 + x[2] as int / 64,
                    y[1] as int % 16 * 4 + y[2] as int / 64,
                );
                assert(s[3] == t[3]);
                lemma_symbols_differ(x[2] as int % 64, y[2] as int % 64);
                assert(s.skip(4) =~= base64url(x.skip(3)));
                assert(t.skip(4) =~= base64url(y.skip(3)));
                lemma_base64url_is_injective(x.skip(3), y.skip(3));
                assert(x =~= x.take(3) + x.skip(3));
                assert(y =~= y.take(3) + y.skip(3));
                assert(x.take(3) =~= y.take(3));
            }
        }
    }
    assert(x =~= y);
}

/// Encodes bytes with `base64`'s url-safe alphabet, without padding.
#[verifier::external_body]
fn base64url_encode(bytes: &[u8]) -> (r: String)
    ensures
        r@ == base64url(bytes@),
{
    base64::Engine::encode(&base64::engine::general_purpose::URL_SAFE_NO_PAD, bytes)
}

/// Decodes a text of `base64`'s url-safe alphabet, without padding: the bytes that are
/// encoded as that text. A text that no bytes are encoded as is refused: one with padding,
/// another character, a character too many, or bits set that belong to no byte.
#[verifier::external_body]
fn base64url_decode(text: &str) -> (r: Option<Vec<u8>>)
    ensures
        match r {
            Some(bytes) => base64url(bytes@) == text@,
            None => forall|bytes: Seq<u8>| #[trigger] base64url(bytes) != text@,
        },
{
    base64::Engine::decode(&base64::engine::general_purpose::URL_SAFE_NO_PAD, text).ok()
}

/// What bytes are encoded as stands for them, and for no others.
pub proof fn law_base64url_reads_back(bytes: Seq<u8>)
    ensures
        base64url_bytes(base64url(bytes)) == Some(bytes),
{
    let text = base64url(bytes);
    assert(base64url(bytes) == text);
    let found = choose|found: Seq<u8>| #[trigger] base64url(found) == text;
    lemma_base64url_is_injective(found, bytes);
}

/// The key a cursor stands for, or why it stands for none.
pub open spec fn cursor_key(cursor: Seq<char>) -> Result<Seq<char>, Seq<char>> {
    match base64url_bytes(cursor) {
        None => Err("cursor is not valid base64url"@),
        Some(bytes) => decoded_key(bytes),
    }
}

/// The key that a cursor's bytes are.
pub open spec fn decoded_key(bytes: Seq<u8>) -> Result<Seq<char>, Seq<char>> {
    match utf8_view(bytes) {
        None => Err("cursor is not valid UTF-8"@),
        Some(key) => Ok(key),
    }
}

pub open spec fn key_result(r: Result<String, &'static str>) -> Result<Seq<char>, Seq<char>> {
    match r {
        Ok(key) => Ok(key@),
        Err(reason) => Err(reason@),
    }
}

/// The cursor of a row key.
pub open spec fn cursor_of(key: Seq<char>) -> Seq<char> {
    base64url(vstd::utf8::encode_utf8(key))
}

/// Encodes a row key as an opaque forward cursor. Decoding the cursor gives the key back.
pub fn encode_cursor(key: &str) -> (r: String)
    ensures
        r@ == cursor_of(key@),
        cursor_key(r@) == Ok::<Seq<char>, Seq<char>>(key@),
{
    proof {
        vstd::utf8::encode_utf8_valid_utf8(key@);
        vstd::utf8::encode_utf8_decode_utf8(key@);
        law_base64url_reads_back(vstd::utf8::encode_utf8(key@));
    }
    base64url_encode(key.as_bytes())
}

/// The key that a cursor's decoded bytes are.
pub fn cursor_text(bytes: Vec<u8>) -> (r: Result<String, &'static str>)
    ensures
        key_result(r) == decoded_key(bytes@),
{
    match utf8_text(bytes) {
        Some(key) => Ok(key),
        None => Err("cursor is not valid UTF-8"),
    }
}

/// Decodes an opaque cursor back to a row key.
pub fn decode_cursor(cursor: &str) -> (r: Result<String, &'static str>)
    ensures
        key_result(r) == cursor_key(cursor@),
{
    match base64url_decode(cursor) {
        None => Err("cursor is not valid base64url"),
        Some(bytes) => {
            proof {
                law_base64url_reads_back(bytes@);
            }
            cursor_text(bytes)
        },
    }
}

// ---------------------------------------------------------------------------
// Pages
// ---------------------------------------------------------------------------

/// One page of a scan: the rows, the cursor to resume behind them where another page
/// follows, and the projector's log position at the time of reading.
pub struct Page {
    pub items: Vec<Json>,
    pub next_cursor: Option<String>,
    pub position: u64,
}

/// The text of a key value: a string as it is, a number in its canonical form.
pub open spec fn key_text(value: JsonView) -> Option<Seq<char>> {
    match value {
        JsonView::Text(text) => Some(text),
        JsonView::Int(n) => Some(signed_decimal(n)),
        JsonView::Decimal(text) => Some(text),
        JsonView::Embedded(text) => document_scalar(text, false),
        _ => None,
    }
}

/// The text of a key value for a cursor.
pub fn key_string(value: &Json) -> (r: Option<String>)
    ensures
        option_view(r) == key_text(value@),
{
    match value {
        Json::Text(text) => Some(text.clone()),
        Json::Int(n) => Some(wide_number(*n)),
        Json::Decimal(text) => Some(text.clone()),
        Json::Embedded(text) => document_text(text, false),
        _ => None,
    }
}

/// The key of a row, where it has one that a cursor can hold.
pub open spec fn row_key(entity: EntityDef, row: JsonView) -> Option<Seq<char>> {
    match row.member(entity.key@) {
        Some(value) => key_text(value),
        None => None,
    }
}

/// How many rows a scan has to fetch to learn whether another page follows.
pub open spec fn rows_to_fetch(limit: usize) -> int {
    limit + 1
}

/// How many rows a scan has to fetch to learn whether another page follows.
pub fn fetch_limit(limit: usize) -> (r: usize)
    requires
        limit < usize::MAX,
    ensures
        r == limit + 1,
        r == rows_to_fetch(limit),
{
    limit + 1
}

/// The rows of a page that is cut off the rows that were fetched, and the cursor to resume
/// behind them where another page follows.
pub open spec fn page_of(entity: EntityDef, fetched: Seq<JsonView>, limit: usize) -> (
    Seq<JsonView>,
    Option<Seq<char>>,
) {
    if fetched.len() <= limit {
        (fetched, None)
    } else {
        (
            fetched.take(limit as int),
            if limit == 0 {
                None
            } else {
                match row_key(entity, fetched[limit - 1]) {
                    Some(key) => Some(cursor_of(key)),
                    None => None,
                }
            },
        )
    }
}

/// Cuts a page off the rows that were fetched, one more than the page holds where there
/// are that many. The cursor is made from the key of the last row that the page keeps,
/// which is never encrypted.
pub fn page(entity: &EntityDef, fetched: Vec<Json>, limit: usize, position: u64) -> (r: Page)
    ensures
        r.position == position,
        items_view(r.items@) == if fetched.len() > limit {
            items_view(fetched@).take(limit as int)
        } else {
            items_view(fetched@)
        },
        match r.next_cursor {
            Some(cursor) => {
                &&& 0 < limit < fetched.len()
                &&& row_key(*entity, json_view(fetched@[limit - 1])) is Some
                &&& cursor@ == cursor_of(row_key(*entity, json_view(fetched@[limit - 1]))->0)
                &&& cursor_key(cursor@) == Ok::<Seq<char>, Seq<char>>(
                    row_key(*entity, json_view(fetched@[limit - 1]))->0,
                )
            },
            None => fetched.len() <= limit || limit == 0 || row_key(
                *entity,
                json_view(fetched@[limit - 1]),
            ) is None,
        },
        (items_view(r.items@), option_view(r.next_cursor)) == page_of(
            *entity,
            items_view(fetched@),
            limit,
        ),
{
    proof {
        lemma_items(fetched@);
    }
    let mut items = fetched;
    let mut next_cursor: Option<String> = None;
    if items.len() > limit {
        items.truncate(limit);
        proof {
            lemma_items(fetched@);
            lemma_items(items@);
            assert(items_view(items@) =~= items_view(fetched@).take(limit as int));
        }
        if limit > 0 {
            if let Some(value) = items[limit - 1].get(&entity.key) {
                if let Some(key) = key_string(value) {
                    next_cursor = Some(encode_cursor(&key));
                }
            }
        }
    }
    Page { items, next_cursor, position }
}

/// The page size a request asks for, held to what a scan returns.
pub open spec fn held_limit(requested: Option<usize>) -> usize {
    match requested {
        None => DEFAULT_LIMIT,
        Some(limit) => if limit < 1 {
            1
        } else if limit > MAX_LIMIT {
            MAX_LIMIT
        } else {
            limit
        },
    }
}

/// The page size a request asks for, held to what a scan returns.
pub fn page_limit(requested: Option<usize>) -> (r: usize)
    ensures
        r == match requested {
            None => DEFAULT_LIMIT,
            Some(limit) => if limit < 1 {
                1
            } else if limit > MAX_LIMIT {
                MAX_LIMIT
            } else {
                limit
            },
        },
        r == held_limit(requested),
{
    match requested {
        None => DEFAULT_LIMIT,
        Some(limit) => {
            if limit < 1 {
                1
            } else if limit > MAX_LIMIT {
                MAX_LIMIT
            } else {
                limit
            }
        },
    }
}

// ---------------------------------------------------------------------------
// Encrypted columns
// ---------------------------------------------------------------------------

/// What a decrypted column reads as: by the kind of its field, and as text where it is
/// not of that kind.
pub open spec fn retyped(kind: FieldKind, text: Seq<char>) -> JsonView {
    match base_kind(kind) {
        FieldKind::I64 | FieldKind::U64 => match parsed_i64(text) {
            Some(n) => JsonView::Int(n as int),
            None => JsonView::Text(text),
        },
        FieldKind::Bool => if text == "true"@ {
            JsonView::Bool(true)
        } else if text == "false"@ {
            JsonView::Bool(false)
        } else {
            JsonView::Text(text)
        },
        FieldKind::Json => document_value(text),
        _ => JsonView::Text(text),
    }
}

/// Types a decrypted column by its field's declared kind, so that an encrypted integer
/// reads back as a number. An amount of money stays a decimal string.
pub fn typed_from_string(kind: &FieldKind, text: String) -> (r: Json)
    ensures
        r@ == retyped(*kind, text@),
{
    match kind.base() {
        FieldKind::I64 | FieldKind::U64 => {
            match parse_i64(&text) {
                Some(n) => Json::Int(n as i128),
                None => Json::Text(text),
            }
        },
        FieldKind::Bool => {
            if same(&text, "true") {
                Json::Bool(true)
            } else if same(&text, "false") {
                Json::Bool(false)
            } else {
                Json::Text(text)
            }
        },
        FieldKind::Json => {
            read_document(text)
        },
        _ => Json::Text(text),
    }
}

/// A column to be decrypted: which field it is, under which subject, and its ciphertext.
/// Without a subject id there is no key to open it with.
pub struct SealedCell {
    pub field: usize,
    pub subject_field: String,
    pub subject_value: Option<String>,
    pub ciphertext: String,
}

/// Whether a field of a row holds ciphertext.
pub open spec fn is_sealed(entity: EntityDef, row: JsonView, at: int) -> bool {
    let (name, meta) = entity.fields@[at];
    meta.subject is Some && (row.member(name@) matches Some(value) && value is Text)
}

/// The first field from `from` on that holds ciphertext, or the number of fields.
pub open spec fn next_sealed_at(entity: EntityDef, row: JsonView, from: nat) -> nat
    decreases entity.fields.len() - from,
{
    if from >= entity.fields.len() {
        entity.fields.len() as nat
    } else if is_sealed(entity, row, from as int) {
        from
    } else {
        next_sealed_at(entity, row, from + 1)
    }
}

/// The id of the subject that a field of a row is encrypted under, where the row has one.
pub open spec fn subject_of(entity: EntityDef, row: JsonView, at: int) -> Option<Seq<char>> {
    match entity.fields@[at].1.subject {
        Some(subject) => match row.member(subject@) {
            Some(value) => scalar_text(value),
            None => None,
        },
        None => None,
    }
}

/// The next column of a row to decrypt, from the field `from` on.
pub fn next_sealed(entity: &EntityDef, row: &Json, from: usize) -> (r: Option<SealedCell>)
    requires
        from <= entity.fields.len(),
    ensures
        match r {
            Some(cell) => {
                let (name, meta) = entity.fields@[cell.field as int];
                &&& cell.field < entity.fields.len()
                &&& cell.field == next_sealed_at(*entity, row@, from as nat)
                &&& row@.member(name@) == Some(JsonView::Text(cell.ciphertext@))
                &&& option_view(meta.subject) == Some(cell.subject_field@)
                &&& option_view(cell.subject_value) == match row@.member(cell.subject_field@) {
                    Some(value) => scalar_text(value),
                    None => None,
                }
                &&& option_view(cell.subject_value) == subject_of(*entity, row@, cell.field as int)
            },
            None => next_sealed_at(*entity, row@, from as nat) == entity.fields.len(),
        },
{
    let mut i: usize = from;
    while i < entity.fields.len()
        invariant
            from <= i <= entity.fields.len(),
            next_sealed_at(*entity, row@, from as nat) == next_sealed_at(*entity, row@, i as nat),
        decreases entity.fields.len() - i,
    {
        if let Some(subject) = &entity.fields[i].1.subject {
            if let Some(value) = row.get(&entity.fields[i].0) {
                if let Json::Text(ciphertext) = value {
                    let subject_value = match row.get(subject) {
                        Some(id) => scalar_to_string(id),
                        None => None,
                    };
                    return Some(
                        SealedCell {
                            field: i,
                            subject_field: subject.clone(),
                            subject_value,
                            ciphertext: ciphertext.clone(),
                        },
                    );
                }
            }
        }
        i += 1;
    }
    None
}

/// What came of decrypting a column.
pub enum Opened {
    Plain(String),
    /// It cannot be read. `key_present` says that its key is still there, so that it was
    /// written under one that has been superseded; otherwise the key is gone, or there
    /// never was one.
    Unreadable { key_present: bool },
}

/// What one decrypting pass found, for a caller that has to report on it.
pub struct Revealed {
    /// Cells opened.
    pub decrypted: usize,
    /// Cells that would not open under a key that is still there.
    pub stale: usize,
}

impl Default for Revealed {
    fn default() -> (r: Revealed)
        ensures
            r.decrypted == 0,
            r.stale == 0,
    {
        Revealed { decrypted: 0, stale: 0 }
    }
}

/// A row with one column opened: its plaintext by the field's kind, or nothing where it
/// cannot be read.
pub open spec fn opened_row(entity: EntityDef, row: JsonView, at: int, opened: Opened) -> JsonView {
    let (name, meta) = entity.fields@[at];
    match opened {
        Opened::Plain(text) => row.with(name@, retyped(meta.kind, text@)),
        Opened::Unreadable { .. } => row.without(name@),
    }
}

/// What decrypting one column adds to the cells that were opened, and to those that would
/// not open under a key that is still there.
pub open spec fn tallied(opened: Opened) -> (int, int) {
    match opened {
        Opened::Plain(_) => (1, 0),
        Opened::Unreadable { key_present } => if key_present {
            (0, 1)
        } else {
            (0, 0)
        },
    }
}

/// Puts what came of decrypting one column into its row, and counts it. A column that
/// cannot be read is left out rather than failing the read.
pub fn open_cell(entity: &EntityDef, row: Json, at: usize, opened: Opened, tally: &mut Revealed) -> (r: Json)
    requires
        at < entity.fields.len(),
        old(tally).decrypted < usize::MAX,
        old(tally).stale < usize::MAX,
    ensures
        r@ == opened_row(*entity, row@, at as int, opened),
        final(tally).decrypted == old(tally).decrypted + if opened is Plain { 1int } else { 0 },
        final(tally).stale == old(tally).stale + match opened {
            Opened::Unreadable { key_present } => if key_present { 1int } else { 0 },
            _ => 0,
        },
        final(tally).decrypted - old(tally).decrypted == tallied(opened).0,
        final(tally).stale - old(tally).stale == tallied(opened).1,
{
    match opened {
        Opened::Plain(text) => {
            tally.decrypted = tally.decrypted + 1;
            row.with(&entity.fields[at].0, typed_from_string(&entity.fields[at].1.kind, text))
        },
        Opened::Unreadable { key_present } => {
            if key_present {
                tally.stale = tally.stale + 1;
            }
            row.without(&entity.fields[at].0)
        },
    }
}

/// A column that cannot be read is not in the row.
pub proof fn law_an_unreadable_column_is_absent(entity: EntityDef, row: JsonView, at: int, key_present: bool)
    requires
        0 <= at < entity.fields.len(),
    ensures
        opened_row(entity, row, at, Opened::Unreadable { key_present }).member(
            entity.fields@[at].0@,
        ) is None,
{
}

/// A row once its first columns were gone through: one that holds ciphertext is opened with
/// what came of it, and any other is left alone.
pub open spec fn opened_through(
    entity: EntityDef,
    row: JsonView,
    outcomes: Seq<Opened>,
    upto: nat,
) -> JsonView
    decreases upto,
{
    if upto == 0 {
        row
    } else {
        let had = opened_through(entity, row, outcomes, (upto - 1) as nat);
        if is_sealed(entity, had, upto - 1) {
            opened_row(entity, had, upto - 1, outcomes[upto - 1])
        } else {
            had
        }
    }
}

/// A row with its encrypted columns opened, by what came of decrypting each column.
pub open spec fn decrypted_row(entity: EntityDef, row: JsonView, outcomes: Seq<Opened>) -> JsonView {
    opened_through(entity, row, outcomes, entity.fields.len() as nat)
}

/// What a column of a decrypted row holds.
pub open spec fn opened_column(entity: EntityDef, row: JsonView, outcomes: Seq<Opened>, at: int) -> Option<
    JsonView,
> {
    let (name, meta) = entity.fields@[at];
    if is_sealed(entity, row, at) {
        match outcomes[at] {
            Opened::Plain(text) => Some(retyped(meta.kind, text@)),
            Opened::Unreadable { .. } => None,
        }
    } else {
        row.member(name@)
    }
}

/// Opening the next column that holds ciphertext, time after time, opens the row: between
/// one and the next nothing changes, and where there is none left the row is open.
pub proof fn law_opening_column_by_column_opens_the_row(
    entity: EntityDef,
    row: JsonView,
    outcomes: Seq<Opened>,
    from: nat,
)
    requires
        from <= entity.fields.len(),
    ensures
        ({
            let here = opened_through(entity, row, outcomes, from);
            let at = next_sealed_at(entity, here, from);
            if at < entity.fields.len() {
                &&& from <= at
                &&& opened_through(entity, row, outcomes, at + 1) == opened_row(
                    entity,
                    here,
                    at as int,
                    outcomes[at as int],
                )
            } else {
                decrypted_row(entity, row, outcomes) == here
            }
        }),
    decreases entity.fields.len() - from,
{
    let here = opened_through(entity, row, outcomes, from);
    if from < entity.fields.len() && !is_sealed(entity, here, from as int) {
        assert(opened_through(entity, row, outcomes, from + 1) == here);
        law_opening_column_by_column_opens_the_row(entity, row, outcomes, from + 1);
    }
}

/// Decrypting a row opens its ciphertext and does nothing else. A column that holds
/// ciphertext becomes the value that its plaintext is by the column's kind, or leaves the
/// row where it cannot be read. A column without a subject, one that holds no text, and
/// what is no column of the entity stay as they were, and nothing is added.
pub proof fn law_decrypting_a_row_opens_its_ciphertext(
    entity: EntityDef,
    row: JsonView,
    outcomes: Seq<Opened>,
)
    requires
        row is Object,
        outcomes.len() == entity.fields.len(),
        forall|i: int, j: int|
            0 <= i < j < entity.fields.len() ==> (#[trigger] entity.fields@[i]).0@ != (
            #[trigger] entity.fields@[j]).0@,
    ensures
        decrypted_row(entity, row, outcomes) is Object,
        forall|i: int|
            0 <= i < entity.fields.len() ==> decrypted_row(entity, row, outcomes).member(
                (#[trigger] entity.fields@[i]).0@,
            ) == opened_column(entity, row, outcomes, i),
        forall|i: int|
            0 <= i < entity.fields.len() && (#[trigger] entity.fields@[i]).1.subject is None
                ==> decrypted_row(entity, row, outcomes).member(entity.fields@[i].0@) == row.member(
                entity.fields@[i].0@,
            ),
        forall|name: Seq<char>|
            (forall|i: int| 0 <= i < entity.fields.len() ==> (#[trigger] entity.fields@[i]).0@ != name)
                ==> #[trigger] decrypted_row(entity, row, outcomes).member(name) == row.member(name),
        forall|name: Seq<char>|
            #[trigger] decrypted_row(entity, row, outcomes).member(name) is Some ==> row.member(
                name,
            ) is Some,
{
    lemma_opened_through(entity, row, outcomes, entity.fields.len() as nat);
}

proof fn lemma_opened_through(entity: EntityDef, row: JsonView, outcomes: Seq<Opened>, upto: nat)
    requires
        row is Object,
        upto <= entity.fields.len(),
        forall|i: int, j: int|
            0 <= i < j < entity.fields.len() ==> (#[trigger] entity.fields@[i]).0@ != (
            #[trigger] entity.fields@[j]).0@,
    ensures
        ({
            let open = opened_through(entity, row, outcomes, upto);
            &&& open is Object
            &&& forall|i: int|
                0 <= i < upto ==> open.member((#[trigger] entity.fields@[i]).0@) == opened_column(
                    entity,
                    row,
                    outcomes,
                    i,
                )
            &&& forall|name: Seq<char>|
                (forall|i: int| 0 <= i < upto ==> (#[trigger] entity.fields@[i]).0@ != name)
                    ==> #[trigger] open.member(name) == row.member(name)
            &&& forall|name: Seq<char>|
                #[trigger] open.member(name) is Some ==> row.member(name) is Some
        }),
    decreases upto,
{
    if upto > 0 {
        let at = upto - 1;
        lemma_opened_through(entity, row, outcomes, at as nat);
        let had = opened_through(entity, row, outcomes, at as nat);
        let open = opened_through(entity, row, outcomes, upto);
        let column = entity.fields@[at].0@;
        assert(had.member(column) == row.member(column)) by {
            assert forall|i: int| 0 <= i < at implies (#[trigger] entity.fields@[i]).0@ != column by {
                assert(entity.fields@[at].0@ == column);
            }
        }
        assert(is_sealed(entity, had, at) == is_sealed(entity, row, at));
        assert forall|name: Seq<char>| name != column implies #[trigger] open.member(name)
            == had.member(name) by {}
        assert forall|i: int| 0 <= i < upto implies open.member((#[trigger] entity.fields@[i]).0@)
            == opened_column(entity, row, outcomes, i) by {
            if i < at {
                assert(entity.fields@[i].0@ != entity.fields@[at].0@);
                assert(open.member(entity.fields@[i].0@) == had.member(entity.fields@[i].0@));
            }
        }
        assert forall|name: Seq<char>|
            (forall|i: int| 0 <= i < upto ==> (#[trigger] entity.fields@[i]).0@ != name)
                implies #[trigger] open.member(name) == row.member(name) by {
            assert(entity.fields@[at].0@ != name);
            assert(had.member(name) == row.member(name));
        }
        assert forall|name: Seq<char>| #[trigger] open.member(name) is Some implies row.member(
            name,
        ) is Some by {
            if name != column {
                assert(had.member(name) is Some);
            }
        }
    }
}

/// Whether keys stand in the order of their column, each once.
pub open spec fn in_key_order<K>(keys: Seq<K>, before: spec_fn(K, K) -> bool) -> bool {
    forall|i: int, j: int|
        0 <= i < keys.len() && 0 <= j < keys.len() ==> (before(
            #[trigger] keys[i],
            #[trigger] keys[j],
        ) == (i < j))
}

/// Pages neither skip a row nor repeat one: what stands behind the last key of a page is
/// exactly what that page and those in front of it did not hold, whatever the order of the
/// key column is.
pub proof fn law_pages_neither_skip_nor_repeat<K>(
    keys: Seq<K>,
    before: spec_fn(K, K) -> bool,
    held: int,
)
    requires
        in_key_order(keys, before),
        0 < held <= keys.len(),
    ensures
        picked(keys, |key: K| before(keys[held - 1], key)) == keys.skip(held),
{
    lemma_picked_behind(keys, before, keys[held - 1], held, keys.len() as int);
    assert(keys.take(keys.len() as int) =~= keys);
    assert(keys.subrange(held, keys.len() as int) =~= keys.skip(held));
}

proof fn lemma_picked_behind<K>(
    keys: Seq<K>,
    before: spec_fn(K, K) -> bool,
    last: K,
    held: int,
    upto: int,
)
    requires
        in_key_order(keys, before),
        0 < held <= keys.len(),
        last == keys[held - 1],
        0 <= upto <= keys.len(),
    ensures
        picked(keys.take(upto), |key: K| before(last, key)) == if upto <= held {
            Seq::<K>::empty()
        } else {
            keys.subrange(held, upto)
        },
    decreases upto,
{
    let wanted = |key: K| before(last, key);
    if upto > 0 {
        lemma_picked_behind(keys, before, last, held, upto - 1);
        assert(keys.take(upto).drop_last() =~= keys.take(upto - 1));
        assert(before(keys[held - 1], keys[upto - 1]) == (held - 1 < upto - 1));
        if upto > held {
            let rest = if upto - 1 <= held {
                Seq::<K>::empty()
            } else {
                keys.subrange(held, upto - 1)
            };
            assert(keys.subrange(held, upto) =~= rest.push(keys[upto - 1]));
        }
    } else {
        assert(keys.take(0) =~= Seq::<K>::empty());
    }
}

} // verus!
