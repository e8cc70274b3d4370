//! Generated values: what a draw comes to, that every edge can be drawn, and what no generated
//! value is.

use vstd::prelude::*;

use crate::ir::Type;
use crate::json::JsonView;
use crate::propgen::{
    below, char_of, chars_drawn, head, int_drawn, items_drawn, json_drawn, key_name, leaf_type_drawn, letters_drawn,
    members_drawn, micros_drawn, name_drawn, number_drawn, record_drawn, signed, tail, ten_to, text_drawn,
    text_edge, type_drawn, units_bound, units_drawn, uuid_edge, value_drawn, Draws, TypeView, ValueView,
};
use crate::text::{precedes, signed_decimal};

verus! {

// ---------------------------------------------------------------------------
// Draws
// ---------------------------------------------------------------------------

/// Draws yield the numbers of a stream one behind the other, and zero once there are no more.
pub proof fn law_draws_follow_their_stream(draws: Draws)
    ensures
        tail(draws).numbers == draws.numbers,
        draws.at < draws.numbers@.len() ==> head(draws) == draws.numbers@[draws.at as int] && tail(draws).at == draws.at
            + 1,
        draws.at >= draws.numbers@.len() ==> head(draws) == 0 && tail(draws) == draws,
{
}

/// A number that is drawn below a bound is below it, and is the drawn one where that is.
pub proof fn law_a_picked_number_is_below_its_bound(draws: Draws, n: int)
    requires
        n > 0,
    ensures
        0 <= below(draws, n) < n,
        head(draws) < n ==> below(draws, n) == head(draws),
        (head(draws) - below(draws, n)) % n == 0,
{
    let h = head(draws) as int;
    vstd::arithmetic::div_mod::lemma_fundamental_div_mod(h, n);
    vstd::arithmetic::div_mod::lemma_mod_multiples_basic(h / n, n);
    assert(h - h % n == n * (h / n));
    assert(n * (h / n) == (h / n) * n) by (nonlinear_arith);
    if h < n {
        vstd::arithmetic::div_mod::lemma_small_mod(h as nat, n as nat);
    }
}

/// A number with a sign is the drawn one, or that less two to the sixty-fourth.
pub proof fn law_a_sign_is_the_highest_bit(n: u64)
    ensures
        signed(n) == n || signed(n) == n - 0x1_0000_0000_0000_0000,
        signed(n) >= 0 <==> n < 0x8000_0000_0000_0000,
{
}

// ---------------------------------------------------------------------------
// Numbers
// ---------------------------------------------------------------------------

/// Whether a number is one of the edges of an integer.
pub open spec fn is_int_edge(n: int) -> bool {
    n == -0x8000_0000_0000_0000 || n == 0x7fff_ffff_ffff_ffff || n == -1 || n == 0 || n == 1 || n == 0x8000_0000
}

/// Four times of five an integer is an edge, and different edges come of different draws, so that
/// each of the six can be drawn. Otherwise any integer can be.
pub proof fn law_an_integer_leans_on_its_edges(draws: Draws, other: Draws)
    ensures
        head(draws) % 5 != 4 ==> is_int_edge(int_drawn(draws).0 as int),
        head(draws) % 5 != 4 && head(other) % 5 != 4 ==> (int_drawn(draws).0 == int_drawn(other).0 <==> head(
            tail(draws),
        ) % 6 == head(tail(other)) % 6),
        head(draws) % 5 == 4 ==> int_drawn(draws).0 == head(tail(draws)) || int_drawn(draws).0 == head(tail(draws))
            - 0x1_0000_0000_0000_0000,
        int_drawn(draws).1 == tail(tail(draws)),
{
}

/// What an amount's units stay below is one at the widest scale, and ten times as much at each
/// narrower one.
pub proof fn law_a_bound_is_tenfold_at_a_narrower_scale(scale: u8)
    ensures
        scale >= 18 ==> units_bound(scale) == 1,
        scale < 18 ==> units_bound(scale) == 10 * units_bound((scale + 1) as u8),
        1 <= units_bound(scale) <= 1_000_000_000_000_000_000,
{
    reveal_with_fuel(ten_to, 2);
    if scale < 18 {
        assert(ten_to((18 - scale) as nat) == 10 * ten_to((17 - scale) as nat));
        assert((18 - (scale + 1) as u8) as nat == (17 - scale) as nat);
        lemma_powers((18 - scale) as nat);
    }
}

proof fn lemma_powers(n: nat)
    requires
        n <= 18,
    ensures
        1 <= ten_to(n),
        ten_to(n) <= 1_000_000_000_000_000_000,
{
    reveal_with_fuel(ten_to, 19);
    assert(ten_to(0) == 1);
    assert(ten_to(1) == 10);
    assert(ten_to(2) == 100);
    assert(ten_to(3) == 1_000);
    assert(ten_to(4) == 10_000);
    assert(ten_to(5) == 100_000);
    assert(ten_to(6) == 1_000_000);
    assert(ten_to(7) == 10_000_000);
    assert(ten_to(8) == 100_000_000);
    assert(ten_to(9) == 1_000_000_000);
    assert(ten_to(10) == 10_000_000_000);
    assert(ten_to(11) == 100_000_000_000);
    assert(ten_to(12) == 1_000_000_000_000);
    assert(ten_to(13) == 10_000_000_000_000);
    assert(ten_to(14) == 100_000_000_000_000);
    assert(ten_to(15) == 1_000_000_000_000_000);
    assert(ten_to(16) == 10_000_000_000_000_000);
    assert(ten_to(17) == 100_000_000_000_000_000);
    assert(ten_to(18) == 1_000_000_000_000_000_000);
}

/// Four times of five the units of an amount are an edge: zero, one to either side of it, or the
/// last below the bound to either side. Otherwise they are the drawn number, moved to lie around
/// zero.
pub proof fn law_units_lean_on_their_edges(scale: u8, draws: Draws)
    ensures
        -units_bound(scale) <= units_drawn(scale, draws).0 <= units_bound(scale),
        head(draws) % 5 != 4 ==> ({
            let units = units_drawn(scale, draws).0;
            units == 0 || units == 1 || units == -1 || units == units_bound(scale) - 1 || units == 1 - units_bound(scale)
        }),
        head(draws) % 5 != 4 && head(tail(draws)) % 5 == 3 ==> units_drawn(scale, draws).0 == units_bound(scale) - 1,
        head(draws) % 5 != 4 && head(tail(draws)) % 5 == 4 ==> units_drawn(scale, draws).0 == 1 - units_bound(scale),
        head(draws) % 5 == 4 && head(tail(draws)) < 2 * units_bound(scale) ==> units_drawn(scale, draws).0 == head(
            tail(draws),
        ) - units_bound(scale),
        units_drawn(scale, draws).1 == tail(tail(draws)),
{
    law_a_bound_is_tenfold_at_a_narrower_scale(scale);
    let bound = units_bound(scale);
    law_a_picked_number_is_below_its_bound(tail(draws), 2 * bound);
}

/// An instant always has a written form: it lies in the years from zero to 9999. Four times of
/// five it is an edge, the first and the last of them among these.
pub proof fn law_an_instant_has_a_written_form(draws: Draws)
    ensures
        -62_167_219_200_000_000 <= micros_drawn(draws).0 <= 253_402_300_799_999_999,
        head(draws) % 5 != 4 ==> ({
            let micros = micros_drawn(draws).0;
            micros == 0 || micros == 1 || micros == -1 || micros == -62_167_219_200_000_000 || micros
                == 253_402_300_799_999_999 || micros == 1_700_000_000_000_000
        }),
        head(draws) % 5 != 4 && head(tail(draws)) % 6 == 3 ==> micros_drawn(draws).0 == -62_167_219_200_000_000,
        head(draws) % 5 != 4 && head(tail(draws)) % 6 == 4 ==> micros_drawn(draws).0 == 253_402_300_799_999_999,
        head(draws) % 5 == 4 && head(tail(draws)) <= 315_569_519_999_999_999 ==> micros_drawn(draws).0 == head(
            tail(draws),
        ) - 62_167_219_200_000_000,
        micros_drawn(draws).1 == tail(tail(draws)),
{
    law_a_picked_number_is_below_its_bound(tail(draws), 315_569_520_000_000_000);
}

// ---------------------------------------------------------------------------
// Texts
// ---------------------------------------------------------------------------

/// Any character can be drawn but a line's end, which none is.
pub proof fn law_any_character_but_a_lines_end_can_be_drawn(n: u64, c: char)
    requires
        c != '\n',
    ensures
        char_of(n) != '\n',
        char_of(c as u64) == c,
{
}

proof fn lemma_chars(n: nat, draws: Draws)
    ensures
        chars_drawn(n, draws).0.len() == n,
        !chars_drawn(n, draws).0.contains('\n'),
    decreases n,
{
    if n > 0 {
        lemma_chars((n - 1) as nat, draws);
        let (text, rest) = chars_drawn((n - 1) as nat, draws);
        let all = chars_drawn(n, draws).0;
        assert(char_of(head(rest)) != '\n');
        assert forall|i: int| 0 <= i < all.len() implies all[i] != '\n' by {
            if i < text.len() {
                assert(all[i] == text[i]);
                assert(text.contains(text[i]));
            }
        }
    }
}

/// One time of five a text is of up to thirty-two characters on one line, as many as were drawn.
pub proof fn law_a_text_is_short_and_of_one_line(draws: Draws)
    requires
        head(draws) % 5 == 4,
    ensures
        text_drawn(draws).0.len() == head(tail(draws)) % 33,
        text_drawn(draws).0.len() <= 32,
        !text_drawn(draws).0.contains('\n'),
{
    lemma_chars(below(tail(draws), 33) as nat, tail(tail(draws)));
}

/// Among the edges of a text are the empty one, and texts that hold a quote, a backslash, a line's
/// end and a null.
pub proof fn law_a_text_has_edges_that_are_escaped(draws: Draws)
    requires
        head(draws) % 5 != 4,
    ensures
        text_drawn(draws).0 == text_edge((head(tail(draws)) % 13) as int),
        head(tail(draws)) % 13 == 0 ==> text_drawn(draws).0.len() == 0,
        head(tail(draws)) % 13 == 2 ==> text_drawn(draws).0 == seq!['"'],
        head(tail(draws)) % 13 == 3 ==> text_drawn(draws).0 == seq!['\\'],
        head(tail(draws)) % 13 == 4 ==> text_drawn(draws).0.contains('\n'),
        head(tail(draws)) % 13 == 5 ==> text_drawn(draws).0 == seq!['\u{0}'],
{
    reveal_strlit("\"");
    reveal_strlit("\\");
    reveal_strlit("\n\r\t");
    reveal_strlit("\u{0}");
    assert("\""@ =~= seq!['"']);
    assert("\\"@ =~= seq!['\\']);
    assert("\u{0}"@ =~= seq!['\u{0}']);
    assert("\n\r\t"@[0] == '\n');
}

/// A member's name is one to three small letters.
pub proof fn law_a_member_has_a_short_name(draws: Draws)
    ensures
        1 <= name_drawn(draws).0.len() <= 3,
        forall|i: int| 0 <= i < name_drawn(draws).0.len() ==> 'a' <= #[trigger] name_drawn(draws).0[i] <= 'z',
{
    lemma_letters((below(draws, 3) + 1) as nat, tail(draws));
}

proof fn lemma_letters(n: nat, draws: Draws)
    ensures
        letters_drawn(n, draws).0.len() == n,
        forall|i: int| 0 <= i < n ==> 'a' <= #[trigger] letters_drawn(n, draws).0[i] <= 'z',
    decreases n,
{
    if n > 0 {
        lemma_letters((n - 1) as nat, draws);
        let (text, rest) = letters_drawn((n - 1) as nat, draws);
        let all = letters_drawn(n, draws).0;
        assert forall|i: int| 0 <= i < n implies 'a' <= #[trigger] all[i] <= 'z' by {
            if i < text.len() {
                assert(all[i] == text[i]);
            }
        }
    }
}

// ---------------------------------------------------------------------------
// Documents
// ---------------------------------------------------------------------------

/// Whether a document is at most so many containers deep, with at most two items or members in
/// each.
pub open spec fn nests_within(json: JsonView, depth: nat) -> bool
    decreases depth,
{
    match json {
        JsonView::Array(items) => depth > 0 && items.len() <= 2 && forall|i: int|
            0 <= i < items.len() ==> nests_within(#[trigger] items[i], (depth - 1) as nat),
        JsonView::Object(members) => depth > 0 && forall|name: Seq<char>| #[trigger]
            members.contains_key(name) ==> nests_within(members[name], (depth - 1) as nat),
        _ => true,
    }
}

/// A document is at most as deep as asked for, and half the time, or at no depth at all, it is no
/// container.
pub proof fn law_a_document_is_no_deeper_than_asked_for(depth: nat, draws: Draws)
    ensures
        nests_within(json_drawn(depth, draws).0, depth),
        depth == 0 || head(draws) % 2 == 0 ==> !(json_drawn(depth, draws).0 is Array) && !(json_drawn(
            depth,
            draws,
        ).0 is Object),
        depth > 0 && head(draws) % 2 == 1 && head(tail(draws)) % 2 == 0 ==> (json_drawn(
            depth,
            draws,
        ).0 matches JsonView::Array(items) && items.len() == head(tail(tail(draws))) % 3),
        depth > 0 && head(draws) % 2 == 1 && head(tail(draws)) % 2 == 1 ==> json_drawn(depth, draws).0 is Object,
    decreases depth, 0nat,
{
    if depth > 0 && below(draws, 2) != 0 {
        let inner = tail(tail(draws));
        let n = below(inner, 3) as nat;
        lemma_items_nest((depth - 1) as nat, n, tail(inner));
        lemma_members_nest((depth - 1) as nat, n, tail(inner));
    }
}

proof fn lemma_items_nest(depth: nat, n: nat, draws: Draws)
    ensures
        items_drawn(depth, n, draws).0 is Array,
        items_drawn(depth, n, draws).0->Array_0.len() == n,
        forall|i: int| 0 <= i < n ==> nests_within(#[trigger] items_drawn(depth, n, draws).0->Array_0[i], depth),
    decreases depth, n + 1,
{
    if n > 0 {
        lemma_items_nest(depth, (n - 1) as nat, draws);
        let (list, rest) = items_drawn(depth, (n - 1) as nat, draws);
        law_a_document_is_no_deeper_than_asked_for(depth, rest);
        let all = items_drawn(depth, n, draws).0->Array_0;
        assert forall|i: int| 0 <= i < n implies nests_within(#[trigger] all[i], depth) by {
            if i < n - 1 {
                assert(all[i] == list->Array_0[i]);
            }
        }
    }
}

proof fn lemma_members_nest(depth: nat, n: nat, draws: Draws)
    ensures
        members_drawn(depth, n, draws).0 is Object,
        forall|name: Seq<char>| #[trigger]
            members_drawn(depth, n, draws).0->Object_0.contains_key(name) ==> nests_within(
                members_drawn(depth, n, draws).0->Object_0[name],
                depth,
            ),
    decreases depth, n + 1,
{
    if n > 0 {
        lemma_members_nest(depth, (n - 1) as nat, draws);
        let (object, rest) = members_drawn(depth, (n - 1) as nat, draws);
        law_a_document_is_no_deeper_than_asked_for(depth, name_drawn(rest).1);
    }
}

// ---------------------------------------------------------------------------
// Types
// ---------------------------------------------------------------------------

/// Whether a type is at most so many others deep.
pub open spec fn holds_within(ty: TypeView, depth: nat) -> bool
    decreases depth,
{
    match ty {
        TypeView::Opt(inner) => depth > 0 && holds_within(*inner, (depth - 1) as nat),
        TypeView::List(inner) => depth > 0 && holds_within(*inner, (depth - 1) as nat),
        TypeView::Table(key, value) => depth > 0 && *key is Text && holds_within(*value, (depth - 1) as nat),
        _ => true,
    }
}

proof fn lemma_holds_deeper(ty: TypeView, depth: nat)
    requires
        holds_within(ty, depth),
    ensures
        holds_within(ty, depth + 1),
    decreases depth,
{
    match ty {
        TypeView::Opt(inner) => lemma_holds_deeper(*inner, (depth - 1) as nat),
        TypeView::List(inner) => lemma_holds_deeper(*inner, (depth - 1) as nat),
        TypeView::Table(_, value) => lemma_holds_deeper(*value, (depth - 1) as nat),
        _ => {},
    }
}

/// A type is at most as deep as asked for, and holds another exactly where that was drawn.
pub proof fn law_a_type_is_no_deeper_than_asked_for(depth: nat, draws: Draws)
    ensures
        holds_within(type_drawn(depth, draws).0, depth),
        depth == 0 || head(draws) % 2 == 0 ==> type_drawn(depth, draws) == leaf_type_drawn(tail(draws)),
        depth > 0 && head(draws) % 2 == 1 && head(tail(draws)) % 4 < 2 ==> type_drawn(depth, draws).0 is Opt,
        depth > 0 && head(draws) % 2 == 1 && head(tail(draws)) % 4 == 2 ==> type_drawn(depth, draws).0 is List,
        depth > 0 && head(draws) % 2 == 1 && head(tail(draws)) % 4 == 3 ==> type_drawn(depth, draws).0 is Table,
    decreases depth,
{
    if depth > 0 && below(draws, 2) != 0 {
        law_a_type_is_no_deeper_than_asked_for((depth - 1) as nat, tail(tail(draws)));
        lemma_holds_deeper(type_drawn((depth - 1) as nat, tail(tail(draws))).0, (depth - 1) as nat);
    }
}

/// Ten types hold no other, and each of them can be drawn: different draws come to different
/// types. A scale is one of those from zero to eighteen.
pub proof fn law_every_plain_type_can_be_drawn(draws: Draws, other: Draws)
    ensures
        head(draws) % 10 == head(other) % 10 || leaf_type_drawn(draws).0 != leaf_type_drawn(other).0,
        head(draws) % 10 == 8 ==> leaf_type_drawn(draws).0 == TypeView::Money((head(tail(draws)) % 19) as u8),
        head(draws) % 10 == 9 ==> leaf_type_drawn(draws).0 == TypeView::Decimal((head(tail(draws)) % 19) as u8),
        !(leaf_type_drawn(draws).0 is Opt || leaf_type_drawn(draws).0 is List || leaf_type_drawn(draws).0 is Table
            || leaf_type_drawn(draws).0 is Other),
{
}

// ---------------------------------------------------------------------------
// Values
// ---------------------------------------------------------------------------

/// A flag is drawn either way, an enum as either variant, and an optional is absent once in four
/// times. What an optional holds was drawn as its inner type, and is no null.
pub proof fn law_an_optional_is_absent_once_in_four(inner: Type, draws: Draws)
    ensures
        value_drawn(Type::Bool, draws).0 == ValueView::Bool(head(draws) % 2 == 1),
        head(draws) % 4 == 0 ==> value_drawn(Type::Opt(Box::new(inner)), draws).0 == ValueView::Nothing,
        head(draws) % 4 != 0 ==> value_drawn(Type::Opt(Box::new(inner)), draws).0 == if value_drawn(
            inner,
            tail(draws),
        ).0 == ValueView::Json(JsonView::Null) {
            ValueView::Nothing
        } else {
            ValueView::Just(Box::new(value_drawn(inner, tail(draws)).0))
        },
{
}

/// A list holds none, one or two items, as drawn, one behind the other.
pub proof fn law_a_list_holds_as_many_as_drawn(inner: Type, draws: Draws)
    ensures
        value_drawn(Type::List(Box::new(inner)), draws).0 matches ValueView::List(items) && items.len() == head(draws) % 3
            && (items.len() >= 1 ==> items[0] == value_drawn(inner, tail(draws)).0) && (items.len() == 2 ==> items[1]
            == value_drawn(inner, value_drawn(inner, tail(draws)).1).0),
{
}

/// A table holds none, one or two entries, as drawn. Its keys differ and stand in order.
pub proof fn law_a_table_holds_as_many_as_drawn(key: Type, inner: Type, draws: Draws)
    ensures
        value_drawn(Type::Table(Box::new(key), Box::new(inner)), draws).0 matches ValueView::Table(entries)
            && entries.len() == head(draws) % 3 && (entries.len() == 2 ==> precedes(entries[0].0, entries[1].0)),
{
    let d0 = tail(draws);
    let at = below(d0, 3);
    let d1 = value_drawn(inner, tail(d0)).1;
    let next = (at + 1 + below(d1, 2)) % 3;
    assert(0 <= at < 3 && 0 <= next < 3 && at != next);
    lemma_keys_in_order(at, next);
}

proof fn lemma_keys_in_order(a: int, b: int)
    requires
        0 <= a < 3,
        0 <= b < 3,
    ensures
        a < b ==> precedes(key_name(a), key_name(b)),
        b < a ==> precedes(key_name(b), key_name(a)),
{
    reveal_strlit("a");
    reveal_strlit("b");
    reveal_strlit("c");
    assert("a"@[0] == 'a');
    assert("b"@[0] == 'b');
    assert("c"@[0] == 'c');
}

/// A line of an order is drawn field by field: a text, a count, an amount at scale three, and half
/// the time a note.
pub proof fn law_a_record_is_drawn_field_by_field(name: Seq<char>, draws: Draws)
    ensures
        record_drawn(name, draws).0 matches ValueView::Record { name: of, sku, qty, price, note } && {
            let d1 = text_drawn(draws).1;
            let d2 = int_drawn(d1).1;
            let d3 = units_drawn(3, d2).1;
            &&& of == name
            &&& sku == text_drawn(draws).0
            &&& qty == int_drawn(d1).0
            &&& price == units_drawn(3, d2).0
            &&& note is None <==> head(d3) % 2 == 0
            &&& note is Some ==> note == Some(text_drawn(tail(d3)).0)
        },
{
}

/// An identifier has thirty-two hexadecimal digits, in groups with a dash between them.
pub proof fn law_an_identifier_has_its_form(at: int)
    ensures
        uuid_edge(at).len() == 36,
        uuid_edge(at)[8] == '-',
        uuid_edge(at)[13] == '-',
        uuid_edge(at)[18] == '-',
        uuid_edge(at)[23] == '-',
{
    reveal_strlit("00000000-0000-0000-0000-000000000000");
    reveal_strlit("ffffffff-ffff-ffff-ffff-ffffffffffff");
    reveal_strlit("FFFFFFFF-FFFF-FFFF-FFFF-FFFFFFFFFFFF");
    reveal_strlit("aaaaaaaa-aaaa-aaaa-aaaa-aaaaaaaaaaaa");
    reveal_strlit("0190d1a1-0000-7000-8000-000000000001");
}

/// One time of ten a number is a drawn integer, written out, and otherwise one of nine written
/// forms.
pub proof fn law_a_number_is_written_as_drawn(draws: Draws)
    ensures
        head(draws) % 10 == 9 ==> number_drawn(draws).0 == signed_decimal(int_drawn(tail(draws)).0 as int)
            && number_drawn(draws).1 == int_drawn(tail(draws)).1,
        head(draws) % 10 != 9 ==> number_drawn(draws).1 == tail(draws) && is_number_edge(number_drawn(draws).0),
{
}

/// Whether a text is one of the numbers that conversions trip over.
pub open spec fn is_number_edge(text: Seq<char>) -> bool {
    text == "0"@ || text == "-1"@ || text == "10.50"@ || text == "1.0"@ || text == "1e+2"@ || text == "1e-2"@ || text
        == "-0.0"@ || text == "123456789012345678901234567890"@ || text == "0.123456789012345678901234567890"@
}

} // verus!
