//! A JSON value of the library's own: what a generated document, a response body or a
//! report is built as, before anything prints it.

use vstd::prelude::*;

use crate::text::same;

verus! {

/// A JSON value. An object keeps its members in the order they were first written.
pub enum Json {
    Null,
    Bool(bool),
    Int(i128),
    /// A number as JSON writes it, which need not be an integer.
    Decimal(String),
    Text(String),
    /// A JSON document inside this one, as the text it was stored as.
    Embedded(String),
    Array(Vec<Json>),
    Object(Vec<(String, Json)>),
}

/// What a JSON value says: an object is a map from names to values.
pub enum JsonView {
    Null,
    Bool(bool),
    Int(int),
    Decimal(Seq<char>),
    Text(Seq<char>),
    Embedded(Seq<char>),
    Array(Seq<JsonView>),
    Object(Map<Seq<char>, JsonView>),
}

pub open spec fn json_view(json: Json) -> JsonView
    decreases json,
{
    match json {
        Json::Null => JsonView::Null,
        Json::Bool(b) => JsonView::Bool(b),
        Json::Int(n) => JsonView::Int(n as int),
        Json::Decimal(t) => JsonView::Decimal(t@),
        Json::Text(t) => JsonView::Text(t@),
        Json::Embedded(t) => JsonView::Embedded(t@),
        Json::Array(items) => JsonView::Array(items_view(items@)),
        Json::Object(members) => JsonView::Object(members_view(members@)),
    }
}

pub open spec fn items_view(items: Seq<Json>) -> Seq<JsonView>
    decreases items,
{
    if items.len() == 0 {
        Seq::empty()
    } else {
        items_view(items.drop_last()).push(json_view(items.last()))
    }
}

/// A later member of the same name stands in for an earlier one.
pub open spec fn members_view(members: Seq<(String, Json)>) -> Map<Seq<char>, JsonView>
    decreases members,
{
    if members.len() == 0 {
        Map::empty()
    } else {
        members_view(members.drop_last()).insert(members.last().0@, json_view(members.last().1))
    }
}

impl View for Json {
    type V = JsonView;

    open spec fn view(&self) -> JsonView {
        json_view(*self)
    }
}

impl JsonView {
    /// The object without members.
    pub open spec fn object() -> JsonView {
        JsonView::Object(Map::empty())
    }

    /// This object with one member set. Anything but an object stays as it is.
    pub open spec fn with(self, name: Seq<char>, value: JsonView) -> JsonView {
        match self {
            JsonView::Object(members) => JsonView::Object(members.insert(name, value)),
            other => other,
        }
    }

    /// The member of that name, if this is an object and has one.
    pub open spec fn member(self, name: Seq<char>) -> Option<JsonView> {
        match self {
            JsonView::Object(members) => if members.contains_key(name) {
                Some(members[name])
            } else {
                None
            },
            _ => None,
        }
    }

    /// A text that may be absent: absence is null.
    pub open spec fn text_or_null(text: Option<Seq<char>>) -> JsonView {
        match text {
            Some(inner) => JsonView::Text(inner),
            None => JsonView::Null,
        }
    }

    /// A list of texts.
    pub open spec fn texts(list: Seq<Seq<char>>) -> JsonView {
        JsonView::Array(Seq::new(list.len(), |i: int| JsonView::Text(list[i])))
    }
}

proof fn lemma_items_push(items: Seq<Json>, item: Json)
    ensures
        items_view(items.push(item)) == items_view(items).push(json_view(item)),
{
    assert(items.push(item).drop_last() =~= items);
}

pub proof fn lemma_items(items: Seq<Json>)
    ensures
        items_view(items).len() == items.len(),
        forall|i: int| 0 <= i < items.len() ==> #[trigger] items_view(items)[i] == json_view(items[i]),
    decreases items.len(),
{
    if items.len() > 0 {
        lemma_items(items.drop_last());
    }
}

proof fn lemma_members_push(members: Seq<(String, Json)>, member: (String, Json))
    ensures
        members_view(members.push(member)) == members_view(members).insert(
            member.0@,
            json_view(member.1),
        ),
{
    assert(members.push(member).drop_last() =~= members);
}

/// Writing over the last member of a name sets that name.
proof fn lemma_members_update(members: Seq<(String, Json)>, at: int, member: (String, Json))
    requires
        0 <= at < members.len(),
        members[at].0@ == member.0@,
        forall|k: int| at < k < members.len() ==> members[k].0@ != member.0@,
    ensures
        members_view(members.update(at, member)) == members_view(members).insert(
            member.0@,
            json_view(member.1),
        ),
    decreases members.len(),
{
    let last = members.len() - 1;
    if at == last {
        assert(members.update(at, member).drop_last() =~= members.drop_last());
        assert(members_view(members.update(at, member)) =~= members_view(members).insert(
            member.0@,
            json_view(member.1),
        ));
    } else {
        assert(members.update(at, member).drop_last() =~= members.drop_last().update(at, member));
        lemma_members_update(members.drop_last(), at, member);
        assert(members_view(members.update(at, member)) =~= members_view(members).insert(
            member.0@,
            json_view(member.1),
        ));
    }
}

/// The last member of a name is what the object says of it, and a name without a member
/// is not in the object.
proof fn lemma_members_last(members: Seq<(String, Json)>, at: int, name: Seq<char>)
    requires
        -1 <= at < members.len(),
        at >= 0 ==> members[at].0@ == name,
        forall|k: int| at < k < members.len() ==> members[k].0@ != name,
    ensures
        members_view(members).contains_key(name) == (at >= 0),
        at >= 0 ==> members_view(members)[name] == json_view(members[at].1),
    decreases members.len(),
{
    if members.len() > 0 && at != members.len() - 1 {
        lemma_members_last(members.drop_last(), at, name);
    }
}

/// A name that an object says something of is the name of one of its members.
pub proof fn lemma_member_is_named(members: Seq<(String, Json)>, name: Seq<char>)
    requires
        members_view(members).contains_key(name),
    ensures
        exists|i: int| 0 <= i < members.len() && (#[trigger] members[i]).0@ == name,
    decreases members.len(),
{
    if members.len() > 0 {
        if members.last().0@ == name {
            assert(members[members.len() - 1].0@ == name);
        } else {
            lemma_member_is_named(members.drop_last(), name);
            let i = choose|i: int|
                0 <= i < members.drop_last().len() && (#[trigger] members.drop_last()[i]).0@ == name;
            assert(members[i].0@ == name);
        }
    }
}

impl Json {
    /// The object without members.
    pub fn object() -> (r: Json)
        ensures
            r@ == JsonView::object(),
    {
        Json::Object(Vec::new())
    }

    /// This object with one member set.
    pub fn with(self, name: &str, value: Json) -> (r: Json)
        ensures
            r@ == self@.with(name@, value@),
    {
        match self {
            Json::Object(members) => {
                let mut members = members;
                let at = Json::position(&members, name);
                match at {
                    Some(i) => {
                        proof {
                            lemma_members_update(members@, i as int, (members@[i as int].0, value));
                        }
                        let key = members[i].0.clone();
                        members.set(i, (key, value));
                    },
                    None => {
                        let key = name.to_owned();
                        proof {
                            lemma_members_push(members@, (key, value));
                        }
                        members.push((key, value));
                    },
                }
                Json::Object(members)
            },
            other => other,
        }
    }

    /// Where the last member of a name stands.
    fn position(members: &Vec<(String, Json)>, name: &str) -> (r: Option<usize>)
        ensures
            match r {
                Some(i) => i < members.len() && members@[i as int].0@ == name@ && forall|k: int|
                    i < k < members.len() ==> members@[k].0@ != name@,
                None => forall|k: int| 0 <= k < members.len() ==> members@[k].0@ != name@,
            },
    {
        let mut i: usize = members.len();
        while i > 0
            invariant
                i <= members.len(),
                forall|k: int| i <= k < members.len() ==> members@[k].0@ != name@,
            decreases i,
        {
            i -= 1;
            if same(&members[i].0, name) {
                return Some(i);
            }
        }
        None
    }

    /// The member of that name, if this is an object and has one.
    pub fn get(&self, name: &str) -> (r: Option<&Json>)
        ensures
            match r {
                Some(found) => self@.member(name@) == Some(found@),
                None => self@.member(name@) is None,
            },
    {
        match self {
            Json::Object(members) => {
                match Json::position(members, name) {
                    Some(i) => {
                        proof {
                            lemma_members_last(members@, i as int, name@);
                        }
                        Some(&members[i].1)
                    },
                    None => {
                        proof {
                            lemma_members_last(members@, -1, name@);
                        }
                        None
                    },
                }
            },
            _ => None,
        }
    }

    /// A text.
    pub fn text(text: &str) -> (r: Json)
        ensures
            r@ == JsonView::Text(text@),
    {
        Json::Text(text.to_owned())
    }

    /// A number that is never negative.
    pub fn uint(n: u64) -> (r: Json)
        ensures
            r@ == JsonView::Int(n as int),
    {
        Json::Int(n as i128)
    }

    /// A size.
    pub fn size(n: usize) -> (r: Json)
        ensures
            r@ == JsonView::Int(n as int),
    {
        Json::Int(n as i128)
    }

    /// A text that may be absent: absence is null.
    pub fn text_or_null(text: &Option<String>) -> (r: Json)
        ensures
            r@ == JsonView::text_or_null(crate::text::option_view(*text)),
    {
        match text {
            Some(inner) => Json::Text(inner.clone()),
            None => Json::Null,
        }
    }

    /// A list of texts.
    pub fn texts(list: &Vec<String>) -> (r: Json)
        ensures
            r@ == JsonView::texts(crate::text::views(list@)),
    {
        let mut out: Vec<Json> = Vec::new();
        let mut i: usize = 0;
        while i < list.len()
            invariant
                i <= list.len(),
                out.len() == i,
                forall|k: int| 0 <= k < i ==> json_view(#[trigger] out@[k]) == JsonView::Text(list@[k]@),
            decreases list.len() - i,
        {
            out.push(Json::Text(list[i].clone()));
            i += 1;
        }
        proof {
            lemma_items(out@);
            assert(items_view(out@) =~= Seq::new(
                list.len() as nat,
                |i: int| JsonView::Text(crate::text::views(list@)[i]),
            ));
        }
        Json::Array(out)
    }
}


impl JsonView {
    /// This object without a member.
    pub open spec fn without(self, name: Seq<char>) -> JsonView {
        match self {
            JsonView::Object(members) => JsonView::Object(members.remove(name)),
            other => other,
        }
    }
}

/// Leaving out every member of a name takes that name out of the object.
spec fn kept(members: Seq<(String, Json)>, name: Seq<char>) -> Seq<(String, Json)>
    decreases members.len(),
{
    if members.len() == 0 {
        members
    } else if members.last().0@ == name {
        kept(members.drop_last(), name)
    } else {
        kept(members.drop_last(), name).push(members.last())
    }
}

proof fn lemma_kept(members: Seq<(String, Json)>, name: Seq<char>)
    ensures
        members_view(kept(members, name)) == members_view(members).remove(name),
    decreases members.len(),
{
    if members.len() > 0 {
        lemma_kept(members.drop_last(), name);
        let last = members.last();
        if last.0@ == name {
            assert(members_view(members).remove(name) =~= members_view(members.drop_last()).remove(name));
        } else {
            lemma_members_push(kept(members.drop_last(), name), last);
            assert(members_view(members).remove(name) =~= members_view(members.drop_last()).remove(name).insert(
                last.0@,
                json_view(last.1),
            ));
        }
    } else {
        assert(members_view(members).remove(name) =~= members_view(members));
    }
}

impl Json {
    /// This object without a member.
    pub fn without(self, name: &str) -> (r: Json)
        ensures
            r@ == self@.without(name@),
    {
        match self {
            Json::Object(members) => {
                let mut rest = members;
                let mut back: Vec<(String, Json)> = Vec::new();
                while rest.len() > 0
                    invariant
                        kept(members@, name@) == kept(rest@, name@) + back@.reverse(),
                    decreases rest.len(),
                {
                    let ghost was = rest@;
                    let ghost had = back@;
                    let member = rest.pop().unwrap();
                    assert(was.drop_last() =~= rest@);
                    if !same(&member.0, name) {
                        back.push(member);
                        assert(back@.reverse() =~= seq![member] + had.reverse());
                        assert(kept(rest@, name@) + (seq![member] + had.reverse()) =~= kept(rest@, name@).push(member)
                            + had.reverse());
                    }
                }
                let mut out: Vec<(String, Json)> = Vec::new();
                assert(kept(rest@, name@) + back@.reverse() =~= back@.reverse());
                assert(out@ + back@.reverse() =~= back@.reverse());
                while back.len() > 0
                    invariant
                        kept(members@, name@) == out@ + back@.reverse(),
                    decreases back.len(),
                {
                    let ghost was = back@;
                    let ghost had = out@;
                    let member = back.pop().unwrap();
                    out.push(member);
                    assert(was.reverse() =~= seq![member] + back@.reverse());
                    assert(had + (seq![member] + back@.reverse()) =~= out@ + back@.reverse());
                }
                proof {
                    assert(out@ =~= kept(members@, name@));
                    lemma_kept(members@, name@);
                }
                Json::Object(out)
            },
            other => other,
        }
    }
}


impl JsonView {
    /// The array without items.
    pub open spec fn array() -> JsonView {
        JsonView::Array(Seq::empty())
    }

    /// This array with one more item. Anything but an array stays as it is.
    pub open spec fn item(self, value: JsonView) -> JsonView {
        match self {
            JsonView::Array(items) => JsonView::Array(items.push(value)),
            other => other,
        }
    }

    /// This array with the items of a list behind its own.
    pub open spec fn items(self, values: Seq<JsonView>) -> JsonView {
        match self {
            JsonView::Array(items) => JsonView::Array(items + values),
            other => other,
        }
    }
}

impl Json {
    /// The array without items.
    pub fn array() -> (r: Json)
        ensures
            r@ == JsonView::array(),
    {
        Json::Array(Vec::new())
    }

    /// This array with one more item.
    pub fn item(self, value: Json) -> (r: Json)
        ensures
            r@ == self@.item(value@),
    {
        match self {
            Json::Array(items) => {
                proof {
                    lemma_items_push(items@, value);
                }
                let mut items = items;
                items.push(value);
                Json::Array(items)
            },
            other => other,
        }
    }
}


impl Json {
    /// A copy.
    pub fn copy(&self) -> (r: Json)
        ensures
            r@ == self@,
        decreases *self,
    {
        match self {
            Json::Null => Json::Null,
            Json::Bool(flag) => Json::Bool(*flag),
            Json::Int(n) => Json::Int(*n),
            Json::Decimal(text) => Json::Decimal(text.clone()),
            Json::Text(text) => Json::Text(text.clone()),
            Json::Embedded(text) => Json::Embedded(text.clone()),
            Json::Array(items) => {
                let mut out: Vec<Json> = Vec::new();
                let mut i: usize = 0;
                assert(items@.take(0) =~= Seq::empty());
                while i < items.len()
                    invariant
                        i <= items.len(),
                        decreases_to!(*self => items@),
                        items_view(out@) == items_view(items@.take(i as int)),
                    decreases items.len() - i,
                {
                    let item = items[i].copy();
                    proof {
                        lemma_items_push(out@, item);
                        assert(items@.take(i as int + 1) =~= items@.take(i as int).push(items@[i as int]));
                        lemma_items_push(items@.take(i as int), items@[i as int]);
                    }
                    out.push(item);
                    i += 1;
                }
                assert(items@.take(i as int) =~= items@);
                Json::Array(out)
            },
            Json::Object(members) => {
                let mut out: Vec<(String, Json)> = Vec::new();
                let mut i: usize = 0;
                assert(members@.take(0) =~= Seq::empty());
                while i < members.len()
                    invariant
                        i <= members.len(),
                        decreases_to!(*self => members@),
                        members_view(out@) == members_view(members@.take(i as int)),
                    decreases members.len() - i,
                {
                    assert(decreases_to!(members@ => members@[i as int]));
                    assert(decreases_to!(members@[i as int] => members@[i as int].1));
                    let value = members[i].1.copy();
                    let name = members[i].0.clone();
                    proof {
                        lemma_members_push(out@, (name, value));
                        assert(members@.take(i as int + 1) =~= members@.take(i as int).push(members@[i as int]));
                        lemma_members_push(members@.take(i as int), members@[i as int]);
                    }
                    out.push((name, value));
                    i += 1;
                }
                assert(members@.take(i as int) =~= members@);
                Json::Object(out)
            },
        }
    }
}

} // verus!
