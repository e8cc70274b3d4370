//! Type-directed generation of values, for properties of the conversion tables.
//!
//! Every conversion is keyed on a declaration, so a type is generated first and the value
//! is derived from it. Each kind mixes a list of edges with a uniform tail, and leans on
//! the edges: the widest integer, the empty text, a scale of zero. What is random comes
//! in from outside, as a stream of draws.

use vstd::prelude::*;

use crate::ir::{enum_named, EnumDef, Type};
use crate::json::{Json, JsonView};
use crate::schema::{kind_in, kind_view, stored_kind, variants_in, FieldKind, KindView};
use crate::text::{signed_decimal, signed_number, views};

verus! {

/// The widest scale that is generated, so that a value survives its own scale.
pub const MAX_SCALE: u8 = 18;

/// The first and the last instant that has a written form, in microseconds since the
/// epoch.
pub const MIN_MICROS: i64 = -62_167_219_200_000_000;

pub const MAX_MICROS: i64 = 253_402_300_799_999_999;

/// Makes a character of a number, as `char::from_u32` does: of every number that is a
/// Unicode scalar value, and of no other.
pub assume_specification[ char::from_u32 ](i: u32) -> (r: Option<char>)
    ensures
        r == if is_scalar(i) {
            Some(i as char)
        } else {
            None
        },
;

/// Whether a number is a Unicode scalar value.
pub open spec fn is_scalar(n: u32) -> bool {
    n < 0xd800 || 0xe000 <= n <= 0x10ffff
}

// ---------------------------------------------------------------------------
// Draws
// ---------------------------------------------------------------------------

/// A stream of random numbers. Once it is used up it yields zero.
#[derive(Debug)]
pub struct Draws {
    pub numbers: Vec<u64>,
    pub at: usize,
}

/// The number that is drawn next.
pub open spec fn head(draws: Draws) -> u64 {
    if draws.at < draws.numbers.len() {
        draws.numbers@[draws.at as int]
    } else {
        0
    }
}

/// The stream behind one draw.
pub open spec fn tail(draws: Draws) -> Draws {
    Draws {
        at: if draws.at < draws.numbers.len() {
            (draws.at + 1) as usize
        } else {
            draws.at
        },
        ..draws
    }
}

/// The number that is drawn next, below a bound.
pub open spec fn below(draws: Draws, n: int) -> int {
    head(draws) as int % n
}

impl Draws {
    /// Draws a number.
    pub fn draw(&mut self) -> (r: u64)
        ensures
            r == head(*old(self)),
            *final(self) == tail(*old(self)),
    {
        if self.at < self.numbers.len() {
            let number: u64 = self.numbers[self.at];
            self.at = self.at + 1;
            number
        } else {
            0
        }
    }

    /// Draws a number below a bound.
    pub fn pick(&mut self, n: u64) -> (r: u64)
        requires
            n > 0,
        ensures
            r == below(*old(self), n as int),
            r < n,
            *final(self) == tail(*old(self)),
    {
        let number: u64 = self.draw();
        number % n
    }
}

/// A number as one with a sign, by its bits.
pub open spec fn signed(n: u64) -> i64 {
    if n <= i64::MAX {
        n as i64
    } else {
        (n - 0x1_0000_0000_0000_0000) as i64
    }
}

fn with_sign(n: u64) -> (r: i64)
    ensures
        r == signed(n),
{
    if n <= 0x7fff_ffff_ffff_ffff {
        n as i64
    } else {
        -((u64::MAX - n) as i64) - 1
    }
}

// ---------------------------------------------------------------------------
// Numbers
// ---------------------------------------------------------------------------

/// An integer: four times of five an edge.
pub open spec fn int_drawn(draws: Draws) -> (i64, Draws) {
    let rest = tail(draws);
    if below(draws, 5) < 4 {
        let at = below(rest, 6);
        (
            if at == 0 {
                i64::MIN
            } else if at == 1 {
                i64::MAX
            } else if at == 2 {
                (-1) as i64
            } else if at == 3 {
                0
            } else if at == 4 {
                1
            } else {
                0x8000_0000
            },
            tail(rest),
        )
    } else {
        (signed(head(rest)), tail(rest))
    }
}

/// An integer.
pub fn int_value(draws: &mut Draws) -> (r: i64)
    ensures
        (r, *final(draws)) == int_drawn(*old(draws)),
{
    if draws.pick(5) < 4 {
        let at: u64 = draws.pick(6);
        if at == 0 {
            i64::MIN
        } else if at == 1 {
            i64::MAX
        } else if at == 2 {
            -1
        } else if at == 3 {
            0
        } else if at == 4 {
            1
        } else {
            0x8000_0000
        }
    } else {
        with_sign(draws.draw())
    }
}

/// A power of ten.
pub open spec fn ten_to(n: nat) -> int
    decreases n,
{
    if n == 0 {
        1
    } else {
        10 * ten_to((n - 1) as nat)
    }
}

/// What the units of an amount stay below, so that reading it back at its scale does not
/// overflow.
pub open spec fn units_bound(scale: u8) -> int {
    ten_to(
        (if scale <= 18 {
            18 - scale
        } else {
            0
        }) as nat,
    )
}

proof fn lemma_ten_to(n: nat)
    requires
        n <= 18,
    ensures
        1 <= ten_to(n) <= 1_000_000_000_000_000_000,
        n < 18 ==> ten_to(n) <= 100_000_000_000_000_000,
{
    reveal_with_fuel(ten_to, 19);
}

fn bound_of(scale: u8) -> (r: i64)
    ensures
        r == units_bound(scale),
        1 <= r <= 1_000_000_000_000_000_000,
{
    let digits: u8 = if scale <= 18 {
        18 - scale
    } else {
        0
    };
    let mut out: i64 = 1;
    let mut i: u8 = 0;
    while i < digits
        invariant
            i <= digits <= 18,
            out == ten_to(i as nat),
        decreases digits - i,
    {
        proof {
            lemma_ten_to(i as nat);
        }
        out = out * 10;
        i += 1;
    }
    proof {
        lemma_ten_to(digits as nat);
    }
    out
}

/// The units of an amount: four times of five an edge.
pub open spec fn units_drawn(scale: u8, draws: Draws) -> (i64, Draws) {
    let bound = units_bound(scale);
    let rest = tail(draws);
    if below(draws, 5) < 4 {
        let at = below(rest, 5);
        (
            (if at == 0 {
                0
            } else if at == 1 {
                1
            } else if at == 2 {
                -1
            } else if at == 3 {
                bound - 1
            } else {
                1 - bound
            }) as i64,
            tail(rest),
        )
    } else {
        ((below(rest, 2 * bound) - bound) as i64, tail(rest))
    }
}

/// The units of an amount at a scale.
pub fn units_value(scale: u8, draws: &mut Draws) -> (r: i64)
    ensures
        (r, *final(draws)) == units_drawn(scale, *old(draws)),
        -units_bound(scale) <= r <= units_bound(scale),
{
    let bound: i64 = bound_of(scale);
    if draws.pick(5) < 4 {
        let at: u64 = draws.pick(5);
        if at == 0 {
            0
        } else if at == 1 {
            1
        } else if at == 2 {
            -1
        } else if at == 3 {
            bound - 1
        } else {
            1 - bound
        }
    } else {
        let at: u64 = draws.pick(2 * (bound as u64));
        at as i64 - bound
    }
}

/// An instant: four times of five an edge.
pub open spec fn micros_drawn(draws: Draws) -> (i64, Draws) {
    let rest = tail(draws);
    if below(draws, 5) < 4 {
        let at = below(rest, 6);
        (
            if at == 0 {
                0
            } else if at == 1 {
                1
            } else if at == 2 {
                (-1) as i64
            } else if at == 3 {
                MIN_MICROS
            } else if at == 4 {
                MAX_MICROS
            } else {
                1_700_000_000_000_000
            },
            tail(rest),
        )
    } else {
        ((MIN_MICROS + below(rest, MAX_MICROS - MIN_MICROS + 1)) as i64, tail(rest))
    }
}

/// An instant that has a written form.
pub fn micros_value(draws: &mut Draws) -> (r: i64)
    ensures
        (r, *final(draws)) == micros_drawn(*old(draws)),
        MIN_MICROS <= r <= MAX_MICROS,
{
    if draws.pick(5) < 4 {
        let at: u64 = draws.pick(6);
        if at == 0 {
            0
        } else if at == 1 {
            1
        } else if at == 2 {
            -1
        } else if at == 3 {
            MIN_MICROS
        } else if at == 4 {
            MAX_MICROS
        } else {
            1_700_000_000_000_000
        }
    } else {
        let span: u64 = (MAX_MICROS - MIN_MICROS + 1) as u64;
        let at: u64 = draws.pick(span);
        MIN_MICROS + at as i64
    }
}

// ---------------------------------------------------------------------------
// Texts
// ---------------------------------------------------------------------------

/// Any character but a line's end.
pub open spec fn char_of(n: u64) -> char {
    let code = (n % 0x110000) as u32;
    if is_scalar(code) && code != 10 {
        code as char
    } else {
        ' '
    }
}

fn any_char(n: u64) -> (r: char)
    ensures
        r == char_of(n),
{
    let code: u32 = (n % 0x110000) as u32;
    if code == 10 {
        return ' ';
    }
    match char::from_u32(code) {
        Some(c) => c,
        None => ' ',
    }
}

/// Some characters, one draw each.
pub open spec fn chars_drawn(n: nat, draws: Draws) -> (Seq<char>, Draws)
    decreases n,
{
    if n == 0 {
        (Seq::empty(), draws)
    } else {
        let (text, rest) = chars_drawn((n - 1) as nat, draws);
        (text.push(char_of(head(rest))), tail(rest))
    }
}

/// The texts that conversions trip over: the empty one, what JSON and SQL escape, one
/// written character made of several, and texts that look like another JSON type.
pub open spec fn text_edge(at: int) -> Seq<char> {
    if at == 0 {
        Seq::empty()
    } else if at == 1 {
        " "@
    } else if at == 2 {
        "\""@
    } else if at == 3 {
        "\\"@
    } else if at == 4 {
        "\n\r\t"@
    } else if at == 5 {
        "\u{0}"@
    } else if at == 6 {
        "\u{65e5}\u{672c}\u{8a9e}"@
    } else if at == 7 {
        "\u{1f468}\u{200d}\u{1f469}\u{200d}\u{1f467}"@
    } else if at == 8 {
        "' OR 1=1--"@
    } else if at == 9 {
        "42"@
    } else if at == 10 {
        "true"@
    } else if at == 11 {
        "null"@
    } else {
        "[1]"@
    }
}

fn edge_text(at: u64) -> (r: String)
    ensures
        r@ == text_edge(at as int),
{
    if at == 0 {
        let none = String::new();
        assert(none@ =~= Seq::empty());
        none
    } else if at == 1 {
        " ".to_owned()
    } else if at == 2 {
        "\"".to_owned()
    } else if at == 3 {
        "\\".to_owned()
    } else if at == 4 {
        "\n\r\t".to_owned()
    } else if at == 5 {
        "\u{0}".to_owned()
    } else if at == 6 {
        "\u{65e5}\u{672c}\u{8a9e}".to_owned()
    } else if at == 7 {
        "\u{1f468}\u{200d}\u{1f469}\u{200d}\u{1f467}".to_owned()
    } else if at == 8 {
        "' OR 1=1--".to_owned()
    } else if at == 9 {
        "42".to_owned()
    } else if at == 10 {
        "true".to_owned()
    } else if at == 11 {
        "null".to_owned()
    } else {
        "[1]".to_owned()
    }
}

/// A text: four times of five an edge, and otherwise up to 32 characters of one line.
pub open spec fn text_drawn(draws: Draws) -> (Seq<char>, Draws) {
    let rest = tail(draws);
    if below(draws, 5) < 4 {
        (text_edge(below(rest, 13)), tail(rest))
    } else {
        chars_drawn(below(rest, 33) as nat, tail(rest))
    }
}

/// A text.
pub fn text_value(draws: &mut Draws) -> (r: String)
    ensures
        (r@, *final(draws)) == text_drawn(*old(draws)),
{
    if draws.pick(5) < 4 {
        edge_text(draws.pick(13))
    } else {
        let n: u64 = draws.pick(33);
        let ghost start = *draws;
        let mut out = String::new();
        let mut i: u64 = 0;
        assert(out@ =~= Seq::empty());
        while i < n
            invariant
                i <= n,
                (out@, *draws) == chars_drawn(i as nat, start),
            decreases n - i,
        {
            out.push(any_char(draws.draw()));
            i += 1;
        }
        out
    }
}

/// The identifiers that are generated: the smallest, the largest in both cases, one of a
/// single digit, and one that carries a time.
pub open spec fn uuid_edge(at: int) -> Seq<char> {
    if at == 0 {
        "00000000-0000-0000-0000-000000000000"@
    } else if at == 1 {
        "ffffffff-ffff-ffff-ffff-ffffffffffff"@
    } else if at == 2 {
        "FFFFFFFF-FFFF-FFFF-FFFF-FFFFFFFFFFFF"@
    } else if at == 3 {
        "aaaaaaaa-aaaa-aaaa-aaaa-aaaaaaaaaaaa"@
    } else {
        "0190d1a1-0000-7000-8000-000000000001"@
    }
}

/// An identifier.
pub fn uuid_value(draws: &mut Draws) -> (r: String)
    ensures
        r@ == uuid_edge(below(*old(draws), 5)),
        *final(draws) == tail(*old(draws)),
{
    let at: u64 = draws.pick(5);
    if at == 0 {
        "00000000-0000-0000-0000-000000000000".to_owned()
    } else if at == 1 {
        "ffffffff-ffff-ffff-ffff-ffffffffffff".to_owned()
    } else if at == 2 {
        "FFFFFFFF-FFFF-FFFF-FFFF-FFFFFFFFFFFF".to_owned()
    } else if at == 3 {
        "aaaaaaaa-aaaa-aaaa-aaaa-aaaaaaaaaaaa".to_owned()
    } else {
        "0190d1a1-0000-7000-8000-000000000001".to_owned()
    }
}

// ---------------------------------------------------------------------------
// JSON
// ---------------------------------------------------------------------------

/// Numbers as JSON writes them, some wider than a float holds.
pub open spec fn number_drawn(draws: Draws) -> (Seq<char>, Draws) {
    let at = below(draws, 10);
    let rest = tail(draws);
    if at == 0 {
        ("0"@, rest)
    } else if at == 1 {
        ("-1"@, rest)
    } else if at == 2 {
        ("10.50"@, rest)
    } else if at == 3 {
        ("1.0"@, rest)
    } else if at == 4 {
        ("1e+2"@, rest)
    } else if at == 5 {
        ("1e-2"@, rest)
    } else if at == 6 {
        ("-0.0"@, rest)
    } else if at == 7 {
        ("123456789012345678901234567890"@, rest)
    } else if at == 8 {
        ("0.123456789012345678901234567890"@, rest)
    } else {
        (signed_decimal(int_drawn(rest).0 as int), int_drawn(rest).1)
    }
}

/// A number as JSON writes it, in a form that survives being read and written.
pub fn number_value(draws: &mut Draws) -> (r: String)
    ensures
        (r@, *final(draws)) == number_drawn(*old(draws)),
{
    let at: u64 = draws.pick(10);
    if at == 0 {
        "0".to_owned()
    } else if at == 1 {
        "-1".to_owned()
    } else if at == 2 {
        "10.50".to_owned()
    } else if at == 3 {
        "1.0".to_owned()
    } else if at == 4 {
        "1e+2".to_owned()
    } else if at == 5 {
        "1e-2".to_owned()
    } else if at == 6 {
        "-0.0".to_owned()
    } else if at == 7 {
        "123456789012345678901234567890".to_owned()
    } else if at == 8 {
        "0.123456789012345678901234567890".to_owned()
    } else {
        signed_number(int_value(draws))
    }
}

/// A member's name: one to three small letters.
pub open spec fn name_drawn(draws: Draws) -> (Seq<char>, Draws) {
    letters_drawn((below(draws, 3) + 1) as nat, tail(draws))
}

/// Some small letters, one draw each.
pub open spec fn letters_drawn(n: nat, draws: Draws) -> (Seq<char>, Draws)
    decreases n,
{
    if n == 0 {
        (Seq::empty(), draws)
    } else {
        let (text, rest) = letters_drawn((n - 1) as nat, draws);
        (text.push((97 + below(rest, 26)) as char), tail(rest))
    }
}

fn name_value(draws: &mut Draws) -> (r: String)
    ensures
        (r@, *final(draws)) == name_drawn(*old(draws)),
{
    let n: u64 = draws.pick(3) + 1;
    let ghost start = *draws;
    let mut out = String::new();
    let mut i: u64 = 0;
    assert(out@ =~= Seq::empty());
    while i < n
        invariant
            i <= n,
            (out@, *draws) == letters_drawn(i as nat, start),
        decreases n - i,
    {
        let letter: u8 = 97 + draws.pick(26) as u8;
        out.push(letter as char);
        i += 1;
    }
    out
}

/// A document without containers.
pub open spec fn leaf_drawn(draws: Draws) -> (JsonView, Draws) {
    let at = below(draws, 4);
    let rest = tail(draws);
    if at == 0 {
        (JsonView::Null, rest)
    } else if at == 1 {
        (JsonView::Bool(below(rest, 2) == 1), tail(rest))
    } else if at == 2 {
        (JsonView::Decimal(number_drawn(rest).0), number_drawn(rest).1)
    } else {
        (JsonView::Text(text_drawn(rest).0), text_drawn(rest).1)
    }
}

fn leaf_value(draws: &mut Draws) -> (r: Json)
    ensures
        (r@, *final(draws)) == leaf_drawn(*old(draws)),
{
    let at: u64 = draws.pick(4);
    if at == 0 {
        Json::Null
    } else if at == 1 {
        Json::Bool(draws.pick(2) == 1)
    } else if at == 2 {
        Json::Decimal(number_value(draws))
    } else {
        Json::Text(text_value(draws))
    }
}

/// A document, at most `depth` containers deep: of each container, up to two items or
/// members.
pub open spec fn json_drawn(depth: nat, draws: Draws) -> (JsonView, Draws)
    decreases depth, 0nat,
{
    let rest = tail(draws);
    if depth == 0 || below(draws, 2) == 0 {
        leaf_drawn(rest)
    } else {
        let inner = tail(rest);
        let n = below(inner, 3) as nat;
        if below(rest, 2) == 0 {
            items_drawn((depth - 1) as nat, n, tail(inner))
        } else {
            members_drawn((depth - 1) as nat, n, tail(inner))
        }
    }
}

pub open spec fn items_drawn(depth: nat, n: nat, draws: Draws) -> (JsonView, Draws)
    decreases depth, n + 1,
{
    if n == 0 {
        (JsonView::array(), draws)
    } else {
        let (list, rest) = items_drawn(depth, (n - 1) as nat, draws);
        let (item, after) = json_drawn(depth, rest);
        (list.item(item), after)
    }
}

pub open spec fn members_drawn(depth: nat, n: nat, draws: Draws) -> (JsonView, Draws)
    decreases depth, n + 1,
{
    if n == 0 {
        (JsonView::object(), draws)
    } else {
        let (object, rest) = members_drawn(depth, (n - 1) as nat, draws);
        let (name, behind) = name_drawn(rest);
        let (value, after) = json_drawn(depth, behind);
        (object.with(name, value), after)
    }
}

/// A document: the one kind of field that carries a caller's bytes rather than a declared
/// shape.
pub fn json(depth: u8, draws: &mut Draws) -> (r: Json)
    ensures
        (r@, *final(draws)) == json_drawn(depth as nat, *old(draws)),
    decreases depth,
{
    let container: bool = draws.pick(2) != 0;
    if depth == 0 || !container {
        return leaf_value(draws);
    }
    let object: bool = draws.pick(2) != 0;
    let n: u64 = draws.pick(3);
    let ghost start = *draws;
    let mut i: u64 = 0;
    if object {
        let mut out = Json::object();
        while i < n
            invariant
                depth > 0,
                i <= n,
                (out@, *draws) == members_drawn((depth - 1) as nat, i as nat, start),
            decreases n - i,
        {
            let name = name_value(draws);
            let value = json(depth - 1, draws);
            out = out.with(&name, value);
            i += 1;
        }
        out
    } else {
        let mut out = Json::array();
        while i < n
            invariant
                depth > 0,
                i <= n,
                (out@, *draws) == items_drawn((depth - 1) as nat, i as nat, start),
            decreases n - i,
        {
            let item = json(depth - 1, draws);
            out = out.item(item);
            i += 1;
        }
        out
    }
}

// ---------------------------------------------------------------------------
// Types
// ---------------------------------------------------------------------------

/// What a type says, as far as it is generated.
pub enum TypeView {
    Bool,
    Int,
    Text,
    Uuid,
    Timestamp,
    Json,
    Enum(Seq<char>),
    Record(Seq<char>),
    Money(u8),
    Decimal(u8),
    Opt(Box<TypeView>),
    List(Box<TypeView>),
    Table(Box<TypeView>, Box<TypeView>),
    /// A type that no declared field has.
    Other,
}

pub open spec fn type_view(ty: Type) -> TypeView
    decreases ty,
{
    match ty {
        Type::Bool => TypeView::Bool,
        Type::Int => TypeView::Int,
        Type::Text => TypeView::Text,
        Type::Uuid => TypeView::Uuid,
        Type::Timestamp => TypeView::Timestamp,
        Type::Json => TypeView::Json,
        Type::Enum(name) => TypeView::Enum(name@),
        Type::Record(name) => TypeView::Record(name@),
        Type::Money(scale) => TypeView::Money(scale),
        Type::Decimal(scale) => TypeView::Decimal(scale),
        Type::Opt(inner) => TypeView::Opt(Box::new(type_view(*inner))),
        Type::List(inner) => TypeView::List(Box::new(type_view(*inner))),
        Type::Table(key, value) => TypeView::Table(
            Box::new(type_view(*key)),
            Box::new(type_view(*value)),
        ),
        _ => TypeView::Other,
    }
}

/// A type without another inside it.
pub open spec fn leaf_type_drawn(draws: Draws) -> (TypeView, Draws) {
    let at = below(draws, 10);
    let rest = tail(draws);
    if at == 0 {
        (TypeView::Bool, rest)
    } else if at == 1 {
        (TypeView::Int, rest)
    } else if at == 2 {
        (TypeView::Text, rest)
    } else if at == 3 {
        (TypeView::Uuid, rest)
    } else if at == 4 {
        (TypeView::Timestamp, rest)
    } else if at == 5 {
        (TypeView::Json, rest)
    } else if at == 6 {
        (TypeView::Enum("Tier"@), rest)
    } else if at == 7 {
        (TypeView::Record("Line"@), rest)
    } else if at == 8 {
        (TypeView::Money(below(rest, 19) as u8), tail(rest))
    } else {
        (TypeView::Decimal(below(rest, 19) as u8), tail(rest))
    }
}

fn leaf_type(draws: &mut Draws) -> (r: Type)
    ensures
        (type_view(r), *final(draws)) == leaf_type_drawn(*old(draws)),
{
    let at: u64 = draws.pick(10);
    if at == 0 {
        Type::Bool
    } else if at == 1 {
        Type::Int
    } else if at == 2 {
        Type::Text
    } else if at == 3 {
        Type::Uuid
    } else if at == 4 {
        Type::Timestamp
    } else if at == 5 {
        Type::Json
    } else if at == 6 {
        Type::Enum("Tier".to_owned())
    } else if at == 7 {
        Type::Record("Line".to_owned())
    } else if at == 8 {
        Type::Money(draws.pick(19) as u8)
    } else {
        Type::Decimal(draws.pick(19) as u8)
    }
}

/// A type that a declared field can have, at most `depth` others deep. An optional never
/// holds an optional: there is no such type to declare.
pub open spec fn type_drawn(depth: nat, draws: Draws) -> (TypeView, Draws)
    decreases depth,
{
    let rest = tail(draws);
    if depth == 0 || below(draws, 2) == 0 {
        leaf_type_drawn(rest)
    } else {
        let at = below(rest, 4);
        let (inner, after) = type_drawn((depth - 1) as nat, tail(rest));
        if at < 2 {
            (
                if inner is Opt {
                    inner
                } else {
                    TypeView::Opt(Box::new(inner))
                },
                after,
            )
        } else if at == 2 {
            (TypeView::List(Box::new(inner)), after)
        } else {
            (TypeView::Table(Box::new(TypeView::Text), Box::new(inner)), after)
        }
    }
}

/// A type that a declared field can have, and that both directions of a conversion have a
/// case for.
pub fn field_type(depth: u8, draws: &mut Draws) -> (r: Type)
    ensures
        (type_view(r), *final(draws)) == type_drawn(depth as nat, *old(draws)),
        generable(r),
    decreases depth,
{
    proof {
        law_a_drawn_type_is_declarable(depth as nat, *draws);
    }
    let nested: bool = draws.pick(2) != 0;
    let r = if depth == 0 || !nested {
        leaf_type(draws)
    } else {
        let at: u64 = draws.pick(4);
        let inner = field_type(depth - 1, draws);
        proof {
            lemma_opt(inner);
        }
        if at < 2 {
            match inner {
                Type::Opt(held) => Type::Opt(held),
                other => Type::Opt(Box::new(other)),
            }
        } else if at == 2 {
            Type::List(Box::new(inner))
        } else {
            Type::Table(Box::new(Type::Text), Box::new(inner))
        }
    };
    proof {
        reveal_with_fuel(type_view, 2);
        lemma_declarable(r);
    }
    r
}

proof fn lemma_opt(ty: Type)
    ensures
        (ty is Opt) == (type_view(ty) is Opt),
{
}

/// Whether a declared field can have the type: no optional holds an optional, a scale is
/// one that a value survives, and a table's keys are texts.
pub open spec fn declarable(ty: TypeView) -> bool
    decreases ty,
{
    match ty {
        TypeView::Opt(inner) => !(*inner is Opt) && declarable(*inner),
        TypeView::List(inner) => declarable(*inner),
        TypeView::Table(key, value) => *key is Text && declarable(*value),
        TypeView::Money(scale) => scale <= MAX_SCALE,
        TypeView::Decimal(scale) => scale <= MAX_SCALE,
        TypeView::Other => false,
        _ => true,
    }
}

/// Every type that is generated is one that a field can be declared with.
pub proof fn law_a_drawn_type_is_declarable(depth: nat, draws: Draws)
    ensures
        declarable(type_drawn(depth, draws).0),
    decreases depth,
{
    if depth > 0 {
        law_a_drawn_type_is_declarable((depth - 1) as nat, tail(tail(draws)));
    }
}

/// Whether there is a generator for a type and for those inside it.
pub open spec fn generable(ty: Type) -> bool
    decreases ty,
{
    match ty {
        Type::Opt(inner) => generable(*inner),
        Type::List(inner) => generable(*inner),
        Type::Table(key, value) => generable(*value),
        Type::Rounding | Type::Response | Type::Outcome | Type::Secret | Type::Sealed(_, _) => false,
        _ => true,
    }
}

proof fn lemma_declarable(ty: Type)
    requires
        declarable(type_view(ty)),
    ensures
        generable(ty),
    decreases ty,
{
    match ty {
        Type::Opt(inner) => lemma_declarable(*inner),
        Type::List(inner) => lemma_declarable(*inner),
        Type::Table(key, value) => lemma_declarable(*value),
        _ => {},
    }
}

/// The kind that a declarable type is stored as is wrapped in at most one `Optional`, so
/// that taking off one leaves nothing to fall through.
pub proof fn law_a_declarable_kind_is_flat(ty: Type, enums: Seq<EnumDef>)
    requires
        declarable(type_view(ty)),
    ensures
        match stored_kind(ty, enums) {
            KindView::Optional(inner) => !(*inner is Optional),
            _ => true,
        },
{
    reveal_with_fuel(kind_in, 2);
    reveal_with_fuel(type_view, 2);
    reveal_with_fuel(declarable, 2);
}

/// A declared field of a record.
pub struct RecordField {
    pub name: String,
    pub ty: Type,
    pub max_len: Option<usize>,
}

/// A declared record.
pub struct RecordDef {
    pub name: String,
    pub fields: Vec<RecordField>,
}

/// The declarations that generated values resolve against.
pub struct Defs {
    pub enums: Vec<EnumDef>,
    pub records: Vec<RecordDef>,
}

/// A declared field of a record as what it says.
pub open spec fn record_field_view(field: RecordField) -> (Seq<char>, TypeView, Option<usize>) {
    (field.name@, type_view(field.ty), field.max_len)
}

/// Whether declarations are those that generated values resolve against: one enum and one
/// record.
pub open spec fn known_defs(defs: Defs) -> bool {
    &&& known_enums(defs.enums@)
    &&& defs.records.len() == 1
    &&& defs.records@[0].name@ == "Line"@
    &&& defs.records@[0].fields@.map_values(|field: RecordField| record_field_view(field)) == seq![
        ("sku"@, TypeView::Text, Some(20usize)),
        ("qty"@, TypeView::Int, None),
        ("price"@, TypeView::Money(3), None),
        ("note"@, TypeView::Opt(Box::new(TypeView::Text)), None),
    ]
}

/// Whether enums are the one that generated values resolve against.
pub open spec fn known_enums(enums: Seq<EnumDef>) -> bool {
    &&& enums.len() == 1
    &&& enums[0].name@ == "Tier"@
    &&& views(enums[0].variants@) == seq!["Free"@, "Paid"@]
}

/// The declarations that generated values resolve against.
pub fn defs() -> (r: Defs)
    ensures
        known_defs(r),
{
    let variants: Vec<String> = vec!["Free".to_owned(), "Paid".to_owned()];
    assert(views(variants@) =~= seq!["Free"@, "Paid"@]);
    let fields: Vec<RecordField> = vec![
        RecordField { name: "sku".to_owned(), ty: Type::Text, max_len: Some(20) },
        RecordField { name: "qty".to_owned(), ty: Type::Int, max_len: None },
        RecordField { name: "price".to_owned(), ty: Type::Money(3), max_len: None },
        RecordField { name: "note".to_owned(), ty: Type::Opt(Box::new(Type::Text)), max_len: None },
    ];
    proof {
        reveal_with_fuel(type_view, 2);
        assert(fields@.map_values(|field: RecordField| record_field_view(field)) =~= seq![
            ("sku"@, TypeView::Text, Some(20usize)),
            ("qty"@, TypeView::Int, None),
            ("price"@, TypeView::Money(3), None),
            ("note"@, TypeView::Opt(Box::new(TypeView::Text)), None),
        ]);
    }
    Defs {
        enums: vec![EnumDef { name: "Tier".to_owned(), variants }],
        records: vec![RecordDef { name: "Line".to_owned(), fields }],
    }
}

/// The variants of the one enum that generated values resolve against.
pub open spec fn known_variants() -> spec_fn(Seq<char>) -> Seq<Seq<char>> {
    |name: Seq<char>|
        if name == "Tier"@ {
            seq!["Free"@, "Paid"@]
        } else {
            Seq::empty()
        }
}

/// The kind that a type is stored as. Derived rather than generated: the two drawn apart
/// would be a pair that no declaration can produce.
pub fn kind_of(ty: &Type) -> (r: FieldKind)
    ensures
        kind_view(r) == kind_in(*ty, known_variants()),
{
    let known = defs();
    proof {
        let enums = known.enums@;
        assert forall|name: Seq<char>| #[trigger] variants_in(enums)(name) == known_variants()(
            name,
        ) by {
            reveal_with_fuel(enum_named, 2);
        }
        assert(variants_in(enums) =~= known_variants());
    }
    FieldKind::of(ty, &known.enums)
}

// ---------------------------------------------------------------------------
// Values
// ---------------------------------------------------------------------------

/// A generated value. The types that an absent value, a list and a table are declared with
/// are those of the type it was generated for.
pub enum Value {
    Bool(bool),
    Int(i64),
    Text(String),
    Uuid(String),
    Timestamp(i64),
    Money { units: i64, scale: u8 },
    Decimal { units: i64, scale: u8 },
    Enum { ty: String, variant: String },
    Record { name: String, sku: String, qty: i64, price: i64, note: Option<String> },
    Json(Json),
    Nothing,
    Just(Box<Value>),
    List(Vec<Value>),
    Table(Vec<(String, Value)>),
}

pub enum ValueView {
    Bool(bool),
    Int(i64),
    Text(Seq<char>),
    Uuid(Seq<char>),
    Timestamp(i64),
    Money { units: i64, scale: u8 },
    Decimal { units: i64, scale: u8 },
    Enum { ty: Seq<char>, variant: Seq<char> },
    Record { name: Seq<char>, sku: Seq<char>, qty: i64, price: i64, note: Option<Seq<char>> },
    Json(JsonView),
    Nothing,
    Just(Box<ValueView>),
    List(Seq<ValueView>),
    Table(Seq<(Seq<char>, ValueView)>),
}

pub open spec fn value_view(value: Value) -> ValueView
    decreases value,
{
    match value {
        Value::Bool(flag) => ValueView::Bool(flag),
        Value::Int(n) => ValueView::Int(n),
        Value::Text(text) => ValueView::Text(text@),
        Value::Uuid(text) => ValueView::Uuid(text@),
        Value::Timestamp(micros) => ValueView::Timestamp(micros),
        Value::Money { units, scale } => ValueView::Money { units, scale },
        Value::Decimal { units, scale } => ValueView::Decimal { units, scale },
        Value::Enum { ty, variant } => ValueView::Enum { ty: ty@, variant: variant@ },
        Value::Record { name, sku, qty, price, note } => ValueView::Record {
            name: name@,
            sku: sku@,
            qty,
            price,
            note: crate::text::option_view(note),
        },
        Value::Json(json) => ValueView::Json(json@),
        Value::Nothing => ValueView::Nothing,
        Value::Just(inner) => ValueView::Just(Box::new(value_view(*inner))),
        Value::List(items) => ValueView::List(list_view(items@)),
        Value::Table(entries) => ValueView::Table(table_view(entries@)),
    }
}

pub open spec fn list_view(items: Seq<Value>) -> Seq<ValueView>
    decreases items,
{
    if items.len() == 0 {
        Seq::empty()
    } else {
        list_view(items.drop_last()).push(value_view(items.last()))
    }
}

pub open spec fn table_view(entries: Seq<(String, Value)>) -> Seq<(Seq<char>, ValueView)>
    decreases entries,
{
    if entries.len() == 0 {
        Seq::empty()
    } else {
        table_view(entries.drop_last()).push((entries.last().0@, value_view(entries.last().1)))
    }
}

/// A line of an order: a text, a count, an amount at scale three, and half the time a
/// note.
pub open spec fn record_drawn(name: Seq<char>, draws: Draws) -> (ValueView, Draws) {
    let (sku, d1) = text_drawn(draws);
    let (qty, d2) = int_drawn(d1);
    let (price, d3) = units_drawn(3, d2);
    if below(d3, 2) == 0 {
        (ValueView::Record { name, sku, qty, price, note: None }, tail(d3))
    } else {
        let (note, d4) = text_drawn(tail(d3));
        (ValueView::Record { name, sku, qty, price, note: Some(note) }, d4)
    }
}

fn record_value(name: &str, draws: &mut Draws) -> (r: Value)
    ensures
        (value_view(r), *final(draws)) == record_drawn(name@, *old(draws)),
{
    let sku = text_value(draws);
    let qty: i64 = int_value(draws);
    let price: i64 = units_value(3, draws);
    let note = if draws.pick(2) == 0 {
        None
    } else {
        Some(text_value(draws))
    };
    Value::Record { name: name.to_owned(), sku, qty, price, note }
}

/// The keys that a table's entries are drawn from. They are few on purpose, and differ: a
/// table is written by its keys' texts, so two alike would lose an entry.
pub open spec fn key_name(at: int) -> Seq<char> {
    if at == 0 {
        "a"@
    } else if at == 1 {
        "b"@
    } else {
        "c"@
    }
}

fn key_text(at: u64) -> (r: String)
    ensures
        r@ == key_name(at as int),
{
    if at == 0 {
        "a".to_owned()
    } else if at == 1 {
        "b".to_owned()
    } else {
        "c".to_owned()
    }
}

/// A value of a type. An optional is absent once in four times, and never holds a JSON
/// null, which cannot be told from absence.
pub open spec fn value_drawn(ty: Type, draws: Draws) -> (ValueView, Draws)
    decreases ty,
{
    match ty {
        Type::Bool => (ValueView::Bool(below(draws, 2) == 1), tail(draws)),
        Type::Int => (ValueView::Int(int_drawn(draws).0), int_drawn(draws).1),
        Type::Text => (ValueView::Text(text_drawn(draws).0), text_drawn(draws).1),
        Type::Uuid => (ValueView::Uuid(uuid_edge(below(draws, 5))), tail(draws)),
        Type::Timestamp => (ValueView::Timestamp(micros_drawn(draws).0), micros_drawn(draws).1),
        Type::Money(scale) => (
            ValueView::Money { units: units_drawn(scale, draws).0, scale },
            units_drawn(scale, draws).1,
        ),
        Type::Decimal(scale) => (
            ValueView::Decimal { units: units_drawn(scale, draws).0, scale },
            units_drawn(scale, draws).1,
        ),
        Type::Enum(name) => (
            ValueView::Enum {
                ty: name@,
                variant: if below(draws, 2) == 0 {
                    "Free"@
                } else {
                    "Paid"@
                },
            },
            tail(draws),
        ),
        Type::Record(name) => record_drawn(name@, draws),
        Type::Json => (ValueView::Json(json_drawn(3, draws).0), json_drawn(3, draws).1),
        Type::Opt(inner) => if below(draws, 4) == 0 {
            (ValueView::Nothing, tail(draws))
        } else {
            let (value, rest) = value_drawn(*inner, tail(draws));
            (
                if value == ValueView::Json(JsonView::Null) {
                    ValueView::Nothing
                } else {
                    ValueView::Just(Box::new(value))
                },
                rest,
            )
        },
        Type::List(inner) => {
            let n = below(draws, 3);
            let (first, d1) = value_drawn(*inner, tail(draws));
            let (second, d2) = value_drawn(*inner, d1);
            if n == 0 {
                (ValueView::List(Seq::empty()), tail(draws))
            } else if n == 1 {
                (ValueView::List(seq![first]), d1)
            } else {
                (ValueView::List(seq![first, second]), d2)
            }
        },
        Type::Table(_, held) => {
            let n = below(draws, 3);
            let d0 = tail(draws);
            let at = below(d0, 3);
            let (first, d1) = value_drawn(*held, tail(d0));
            let next = (at + 1 + below(d1, 2)) % 3;
            let (second, d2) = value_drawn(*held, tail(d1));
            if n == 0 {
                (ValueView::Table(Seq::empty()), d0)
            } else if n == 1 {
                (ValueView::Table(seq![(key_name(at), first)]), d1)
            } else if at < next {
                (ValueView::Table(seq![(key_name(at), first), (key_name(next), second)]), d2)
            } else {
                (ValueView::Table(seq![(key_name(next), second), (key_name(at), first)]), d2)
            }
        },
        _ => (ValueView::Nothing, draws),
    }
}

proof fn lemma_two<V>(first: V, second: V)
    ensures
        seq![first, second].drop_last() == seq![first],
        seq![first].drop_last() == Seq::<V>::empty(),
{
    assert(seq![first, second].drop_last() =~= seq![first]);
    assert(seq![first].drop_last() =~= Seq::<V>::empty());
}

/// A value of a type, leaning on the boundaries.
pub fn value_for(ty: &Type, draws: &mut Draws) -> (r: Value)
    requires
        generable(*ty),
    ensures
        (value_view(r), *final(draws)) == value_drawn(*ty, *old(draws)),
    decreases *ty,
{
    match ty {
        Type::Bool => Value::Bool(draws.pick(2) == 1),
        Type::Int => Value::Int(int_value(draws)),
        Type::Text => Value::Text(text_value(draws)),
        Type::Uuid => Value::Uuid(uuid_value(draws)),
        Type::Timestamp => Value::Timestamp(micros_value(draws)),
        Type::Money(scale) => Value::Money { units: units_value(*scale, draws), scale: *scale },
        Type::Decimal(scale) => Value::Decimal { units: units_value(*scale, draws), scale: *scale },
        Type::Enum(name) => {
            let variant = if draws.pick(2) == 0 {
                "Free".to_owned()
            } else {
                "Paid".to_owned()
            };
            Value::Enum { ty: name.clone(), variant }
        },
        Type::Record(name) => record_value(name, draws),
        Type::Json => Value::Json(json(3, draws)),
        Type::Opt(inner) => {
            if draws.pick(4) == 0 {
                return Value::Nothing;
            }
            let value = value_for(inner, draws);
            match value {
                Value::Json(Json::Null) => Value::Nothing,
                other => Value::Just(Box::new(other)),
            }
        },
        Type::List(inner) => {
            let n: u64 = draws.pick(3);
            if n == 0 {
                let items: Vec<Value> = Vec::new();
                assert(list_view(items@) == Seq::<ValueView>::empty());
                return Value::List(items);
            }
            let first = value_for(inner, draws);
            if n == 1 {
                let items: Vec<Value> = vec![first];
                proof {
                    assert(items@ =~= seq![first]);
                    lemma_one_item(first);
                }
                return Value::List(items);
            }
            let second = value_for(inner, draws);
            let items: Vec<Value> = vec![first, second];
            proof {
                assert(items@ =~= seq![first, second]);
                lemma_two_items(first, second);
            }
            Value::List(items)
        },
        Type::Table(_, held) => {
            let n: u64 = draws.pick(3);
            if n == 0 {
                let entries: Vec<(String, Value)> = Vec::new();
                assert(table_view(entries@) == Seq::<(Seq<char>, ValueView)>::empty());
                return Value::Table(entries);
            }
            let at: u64 = draws.pick(3);
            let first = value_for(held, draws);
            if n == 1 {
                let entry = (key_text(at), first);
                let entries: Vec<(String, Value)> = vec![entry];
                proof {
                    assert(entries@ =~= seq![entry]);
                    lemma_one_entry(entry);
                }
                return Value::Table(entries);
            }
            let next: u64 = (at + 1 + draws.pick(2)) % 3;
            let second = value_for(held, draws);
            let a = (key_text(at), first);
            let b = (key_text(next), second);
            let entries: Vec<(String, Value)> = if at < next {
                vec![a, b]
            } else {
                vec![b, a]
            };
            proof {
                if at < next {
                    assert(entries@ =~= seq![a, b]);
                    lemma_two_entries(a, b);
                } else {
                    assert(entries@ =~= seq![b, a]);
                    lemma_two_entries(b, a);
                }
            }
            Value::Table(entries)
        },
        _ => Value::Nothing,
    }
}

proof fn lemma_one_item(first: Value)
    ensures
        list_view(seq![first]) == seq![value_view(first)],
{
    lemma_two(first, first);
    assert(list_view(seq![first].drop_last()) == Seq::<ValueView>::empty());
    assert(list_view(seq![first]) =~= seq![value_view(first)]);
}

proof fn lemma_two_items(first: Value, second: Value)
    ensures
        list_view(seq![first, second]) == seq![value_view(first), value_view(second)],
{
    lemma_two(first, second);
    lemma_one_item(first);
    assert(list_view(seq![first, second]) =~= seq![value_view(first), value_view(second)]);
}

proof fn lemma_one_entry(first: (String, Value))
    ensures
        table_view(seq![first]) == seq![(first.0@, value_view(first.1))],
{
    lemma_two(first, first);
    assert(table_view(seq![first].drop_last()) == Seq::<(Seq<char>, ValueView)>::empty());
    assert(table_view(seq![first]) =~= seq![(first.0@, value_view(first.1))]);
}

proof fn lemma_two_entries(first: (String, Value), second: (String, Value))
    ensures
        table_view(seq![first, second]) == seq![
            (first.0@, value_view(first.1)),
            (second.0@, value_view(second.1)),
        ],
{
    lemma_two(first, second);
    lemma_one_entry(first);
    assert(table_view(seq![first, second]) =~= seq![
        (first.0@, value_view(first.1)),
        (second.0@, value_view(second.1)),
    ]);
}

/// A type with a value of it, which is what every round trip takes.
pub fn typed_value(draws: &mut Draws) -> (r: (Type, Value))
    ensures
        ({
            let (ty, rest) = type_drawn(2, *old(draws));
            &&& type_view(r.0) == ty
            &&& (value_view(r.1), *final(draws)) == value_drawn(r.0, rest)
        }),
{
    let ty = field_type(2, draws);
    let value = value_for(&ty, draws);
    (ty, value)
}

/// Whether a value is one of a type, within the bounds that a round trip keeps.
pub open spec fn fits(ty: Type, value: ValueView) -> bool
    decreases ty,
{
    match (ty, value) {
        (Type::Bool, ValueView::Bool(_)) => true,
        (Type::Int, ValueView::Int(_)) => true,
        (Type::Text, ValueView::Text(_)) => true,
        (Type::Uuid, ValueView::Uuid(text)) => exists|at: int| #[trigger] uuid_edge(at) == text,
        (Type::Timestamp, ValueView::Timestamp(micros)) => MIN_MICROS <= micros <= MAX_MICROS,
        (Type::Money(scale), ValueView::Money { units, scale: at }) => at == scale
            && -units_bound(scale) <= units <= units_bound(scale),
        (Type::Decimal(scale), ValueView::Decimal { units, scale: at }) => at == scale
            && -units_bound(scale) <= units <= units_bound(scale),
        (Type::Enum(name), ValueView::Enum { ty: of, variant }) => of == name@ && (variant
            == "Free"@ || variant == "Paid"@),
        (Type::Record(name), ValueView::Record { name: of, price, .. }) => of == name@
            && -units_bound(3) <= price <= units_bound(3),
        (Type::Json, ValueView::Json(_)) => true,
        (Type::Opt(_), ValueView::Nothing) => true,
        (Type::Opt(inner), ValueView::Just(held)) => *held != ValueView::Json(JsonView::Null)
            && fits(*inner, *held),
        (Type::List(inner), ValueView::List(items)) => items.len() < 3 && forall|i: int|
            0 <= i < items.len() ==> fits(*inner, #[trigger] items[i]),
        (Type::Table(_, held), ValueView::Table(entries)) => entries.len() < 3 && (forall|i: int|
            0 <= i < entries.len() ==> fits(*held, (#[trigger] entries[i]).1)) && (entries.len()
            == 2 ==> entries[0].0 != entries[1].0),
        _ => false,
    }
}

proof fn lemma_units(scale: u8, draws: Draws)
    ensures
        -units_bound(scale) <= units_drawn(scale, draws).0 <= units_bound(scale),
{
    lemma_ten_to(
        (if scale <= 18 {
            18 - scale
        } else {
            0
        }) as nat,
    );
}

proof fn lemma_keys_differ()
    ensures
        key_name(0) != key_name(1),
        key_name(0) != key_name(2),
        key_name(1) != key_name(2),
{
    reveal_strlit("a");
    reveal_strlit("b");
    reveal_strlit("c");
    assert("a"@[0] == 'a');
    assert("b"@[0] == 'b');
    assert("c"@[0] == 'c');
}

/// Every value that is generated is one of its type: an amount survives its own scale, an
/// instant has a written form, a table's keys differ, and an optional that is there can be
/// told from one that is not.
pub proof fn law_a_drawn_value_fits(ty: Type, draws: Draws)
    requires
        generable(ty),
    ensures
        fits(ty, value_drawn(ty, draws).0),
    decreases ty,
{
    let rest = tail(draws);
    match ty {
        Type::Money(scale) => lemma_units(scale, draws),
        Type::Decimal(scale) => lemma_units(scale, draws),
        Type::Record(_) => {
            let (sku, d1) = text_drawn(draws);
            lemma_units(3, int_drawn(d1).1);
        },
        Type::Opt(inner) => law_a_drawn_value_fits(*inner, rest),
        Type::List(inner) => {
            law_a_drawn_value_fits(*inner, rest);
            law_a_drawn_value_fits(*inner, value_drawn(*inner, rest).1);
        },
        Type::Table(_, held) => {
            let d0 = tail(rest);
            law_a_drawn_value_fits(*held, d0);
            law_a_drawn_value_fits(*held, tail(value_drawn(*held, d0).1));
            lemma_keys_differ();
            let at = below(rest, 3);
            let next = (at + 1 + below(value_drawn(*held, d0).1, 2)) % 3;
            assert(0 <= at < 3);
            assert(at != next);
        },
        _ => {},
    }
}

} // verus!
