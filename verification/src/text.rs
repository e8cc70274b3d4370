//! Text as a sequence of characters: the few operations every generated statement,
//! message and document is put together from.

use vstd::prelude::*;

verus! {

/// What `String::push` does: the character goes to the end of the text.
pub assume_specification[ std::string::String::push ](text: &mut std::string::String, c: char)
    ensures
        final(text)@ == old(text)@.push(c),
;

// ---------------------------------------------------------------------------
// Equality, membership, order
// ---------------------------------------------------------------------------

/// The characters of a text, as a vector that can be indexed.
pub fn chars_of(text: &str) -> (r: Vec<char>)
    ensures
        r@ == text@,
{
    let mut out: Vec<char> = Vec::new();
    for c in it: text.chars()
        invariant
            it.seq() == text@,
            out@ == it.seq().take(it.index()),
    {
        out.push(c);
        assert(it.seq().take(it.index() + 1) =~= it.seq().take(it.index()).push(c));
    }
    assert(text@.take(text@.len() as int) =~= text@);
    out
}

/// Whether two texts hold the same characters.
pub fn same(a: &str, b: &str) -> (r: bool)
    ensures
        r == (a@ == b@),
{
    a.to_owned() == b.to_owned()
}

/// The contents of a list of texts.
pub open spec fn views(list: Seq<String>) -> Seq<Seq<char>> {
    Seq::new(list.len(), |i: int| list[i]@)
}

/// Whether a list of texts holds `wanted`.
pub fn holds(list: &Vec<String>, wanted: &str) -> (r: bool)
    ensures
        r == views(list@).contains(wanted@),
{
    let mut i: usize = 0;
    while i < list.len()
        invariant
            i <= list.len(),
            forall|k: int| 0 <= k < i ==> list@[k]@ != wanted@,
        decreases list.len() - i,
    {
        if same(&list[i], wanted) {
            assert(views(list@)[i as int] == wanted@);
            return true;
        }
        i += 1;
    }
    false
}

/// A copy of a list of texts.
pub fn copied(list: &Vec<String>) -> (r: Vec<String>)
    ensures
        r@ == list@,
        views(r@) == views(list@),
{
    let mut out: Vec<String> = Vec::new();
    let mut i: usize = 0;
    while i < list.len()
        invariant
            i <= list.len(),
            out@ == list@.take(i as int),
        decreases list.len() - i,
    {
        out.push(list[i].clone());
        assert(list@.take(i as int + 1) =~= list@.take(i as int).push(list@[i as int]));
        i += 1;
    }
    assert(list@.take(i as int) =~= list@);
    out
}

/// A copy of a text that may be absent.
pub fn copied_option(text: &Option<String>) -> (r: Option<String>)
    ensures
        r == *text,
{
    match text {
        Some(inner) => Some(inner.clone()),
        None => None,
    }
}

/// What a text that may be absent holds.
pub open spec fn option_view(text: Option<String>) -> Option<Seq<char>> {
    match text {
        Some(inner) => Some(inner@),
        None => None,
    }
}

/// `a` comes strictly before `b` in the order of their characters, a proper prefix
/// first.
pub open spec fn precedes(a: Seq<char>, b: Seq<char>) -> bool
    decreases a.len(),
{
    if b.len() == 0 {
        false
    } else if a.len() == 0 {
        true
    } else if a[0] == b[0] {
        precedes(a.skip(1), b.skip(1))
    } else {
        a[0] < b[0]
    }
}

/// Whether `a` comes strictly before `b`.
pub fn is_before(a: &str, b: &str) -> (r: bool)
    ensures
        r == precedes(a@, b@),
{
    let left: Vec<char> = chars_of(a);
    let right: Vec<char> = chars_of(b);
    let mut i: usize = 0;
    assert(left@.skip(0) =~= left@);
    assert(right@.skip(0) =~= right@);
    while i < left.len() && i < right.len() && left[i] == right[i]
        invariant
            i <= left.len(),
            i <= right.len(),
            precedes(left@.skip(i as int), right@.skip(i as int)) == precedes(left@, right@),
        decreases left.len() - i,
    {
        assert(left@.skip(i as int).skip(1) =~= left@.skip(i as int + 1));
        assert(right@.skip(i as int).skip(1) =~= right@.skip(i as int + 1));
        i += 1;
    }
    if i >= right.len() {
        false
    } else if i >= left.len() {
        true
    } else {
        left[i] < right[i]
    }
}

pub proof fn lemma_precedes_irreflexive(a: Seq<char>)
    ensures
        !precedes(a, a),
    decreases a.len(),
{
    if a.len() > 0 {
        lemma_precedes_irreflexive(a.skip(1));
    }
}

pub proof fn lemma_precedes_transitive(a: Seq<char>, b: Seq<char>, c: Seq<char>)
    requires
        precedes(a, b),
        precedes(b, c),
    ensures
        precedes(a, c),
    decreases a.len(),
{
    if a.len() > 0 && a[0] == b[0] && b[0] == c[0] {
        lemma_precedes_transitive(a.skip(1), b.skip(1), c.skip(1));
    }
}

/// Of two different texts one comes before the other.
pub proof fn lemma_precedes_total(a: Seq<char>, b: Seq<char>)
    ensures
        precedes(a, b) || precedes(b, a) || a == b,
    decreases a.len(),
{
    if a.len() > 0 && b.len() > 0 && a[0] == b[0] {
        lemma_precedes_total(a.skip(1), b.skip(1));
        if a.skip(1) == b.skip(1) {
            assert(a =~= seq![a[0]] + a.skip(1));
            assert(b =~= seq![b[0]] + b.skip(1));
        }
    } else if a.len() == 0 && b.len() == 0 {
        assert(a =~= b);
    }
}

// ---------------------------------------------------------------------------
// Numbers
// ---------------------------------------------------------------------------

/// The character of one decimal digit.
pub open spec fn digit(d: int) -> char {
    (48 + d) as char
}

/// A number in decimal, without leading zeroes.
pub open spec fn decimal(n: nat) -> Seq<char>
    decreases n,
{
    if n < 10 {
        seq![digit(n as int)]
    } else {
        decimal(n / 10).push(digit((n % 10) as int))
    }
}

/// A number in decimal, a negative one behind a minus sign.
pub open spec fn signed_decimal(n: int) -> Seq<char> {
    if n < 0 {
        seq!['-'] + decimal((-n) as nat)
    } else {
        decimal(n as nat)
    }
}

/// The character of a digit below ten.
pub fn digit_char(d: u64) -> (r: char)
    requires
        d < 10,
    ensures
        r == digit(d as int),
{
    if d == 0 { '0' }
    else if d == 1 { '1' }
    else if d == 2 { '2' }
    else if d == 3 { '3' }
    else if d == 4 { '4' }
    else if d == 5 { '5' }
    else if d == 6 { '6' }
    else if d == 7 { '7' }
    else if d == 8 { '8' }
    else { '9' }
}

/// A number in decimal.
pub fn number(n: u64) -> (r: String)
    ensures
        r@ == decimal(n as nat),
    decreases n,
{
    if n < 10 {
        let mut out = String::new();
        out.push(digit_char(n));
        assert(out@ =~= seq![digit(n as int)]);
        out
    } else {
        let mut out = number(n / 10);
        out.push(digit_char(n % 10));
        out
    }
}

/// A size in decimal.
pub fn count(n: usize) -> (r: String)
    ensures
        r@ == decimal(n as nat),
{
    number(n as u64)
}

/// A signed number in decimal.
pub fn signed_number(n: i64) -> (r: String)
    ensures
        r@ == signed_decimal(n as int),
{
    if n < 0 {
        let mut out = String::new();
        out.push('-');
        assert(out@ =~= seq!['-']);
        let magnitude: u64 = if n == i64::MIN { 0x8000_0000_0000_0000 } else { (-n) as u64 };
        let digits = number(magnitude);
        out.append(&digits);
        out
    } else {
        number(n as u64)
    }
}

/// A wide number in decimal.
pub fn wide_decimal(n: u128) -> (r: String)
    ensures
        r@ == decimal(n as nat),
    decreases n,
{
    if n < 10 {
        let mut out = String::new();
        out.push(digit_char(n as u64));
        assert(out@ =~= seq![digit(n as int)]);
        out
    } else {
        let mut out = wide_decimal(n / 10);
        out.push(digit_char((n % 10) as u64));
        out
    }
}

/// A wide signed number in decimal.
pub fn wide_number(n: i128) -> (r: String)
    ensures
        r@ == signed_decimal(n as int),
{
    if n < 0 {
        let mut out = String::new();
        out.push('-');
        assert(out@ =~= seq!['-']);
        let magnitude: u128 = if n == i128::MIN {
            0x8000_0000_0000_0000_0000_0000_0000_0000
        } else {
            (-n) as u128
        };
        let digits = wide_decimal(magnitude);
        out.append(&digits);
        out
    } else {
        wide_decimal(n as u128)
    }
}

// ---------------------------------------------------------------------------
// Joining
// ---------------------------------------------------------------------------

/// The texts of a list, one after the other, with `separator` between them.
pub open spec fn joined(list: Seq<Seq<char>>, separator: Seq<char>) -> Seq<char>
    decreases list.len(),
{
    if list.len() == 0 {
        Seq::empty()
    } else if list.len() == 1 {
        list[0]
    } else {
        joined(list.drop_last(), separator) + separator + list.last()
    }
}

/// The texts of a list with `separator` between them.
pub fn join(list: &Vec<String>, separator: &str) -> (r: String)
    ensures
        r@ == joined(views(list@), separator@),
{
    let mut out = String::new();
    let mut i: usize = 0;
    let ghost all = views(list@);
    assert(all.take(0) =~= Seq::<Seq<char>>::empty());
    while i < list.len()
        invariant
            i <= list.len(),
            all == views(list@),
            out@ == joined(all.take(i as int), separator@),
        decreases list.len() - i,
    {
        assert(all.take(i as int + 1).drop_last() =~= all.take(i as int));
        if i > 0 {
            out.append(separator);
            out.append(&list[i]);
        } else {
            out = list[i].clone();
        }
        i += 1;
    }
    assert(all.take(i as int) =~= all);
    out
}

/// A text as `{:?}` writes it: in quotes, with what needs it escaped.
pub uninterp spec fn debug_text(text: Seq<char>) -> Seq<char>;

/// Writes a text as std's `Debug` of `str` does. How it escapes is left to std; claimed
/// is that it depends on the text alone.
#[verifier::external_body]
fn debug_string(text: &str) -> (r: String)
    ensures
        r@ == debug_text(text@),
{
    format!("{:?}", text)
}

/// The texts of a list as `{:?}` writes them.
pub open spec fn debug_all(list: Seq<Seq<char>>) -> Seq<Seq<char>> {
    Seq::new(list.len(), |i: int| debug_text(list[i]))
}

/// The texts of a list as `{:?}` writes them, one behind the other.
pub fn debug_items(list: &Vec<String>) -> (r: String)
    ensures
        r@ == joined(debug_all(views(list@)), ", "@),
{
    let mut quoted: Vec<String> = Vec::new();
    let mut i: usize = 0;
    while i < list.len()
        invariant
            i <= list.len(),
            quoted.len() == i,
            forall|k: int| 0 <= k < i ==> (#[trigger] quoted@[k])@ == debug_text(list@[k]@),
        decreases list.len() - i,
    {
        quoted.push(debug_string(&list[i]));
        i += 1;
    }
    assert(views(quoted@) =~= debug_all(views(list@)));
    join(&quoted, ", ")
}

/// Whether a character is an ascii letter.
pub open spec fn is_letter(c: char) -> bool {
    'a' <= c <= 'z' || 'A' <= c <= 'Z'
}

/// Whether a character is an ascii digit.
pub open spec fn is_digit(c: char) -> bool {
    '0' <= c <= '9'
}

/// Whether a character is an ascii letter.
pub fn letter(c: char) -> (r: bool)
    ensures
        r == is_letter(c),
{
    ('a' <= c && c <= 'z') || ('A' <= c && c <= 'Z')
}

/// Whether a character is an ascii digit.
pub fn ascii_digit(c: char) -> (r: bool)
    ensures
        r == is_digit(c),
{
    '0' <= c && c <= '9'
}


/// Two texts, one after the other.
pub fn join2(a: &str, b: &str) -> (r: String)
    ensures
        r@ == a@ + b@,
{
    let mut out = a.to_owned();
    out.append(b);
    out
}

/// Three texts, one after the other.
pub fn join3(a: &str, b: &str, c: &str) -> (r: String)
    ensures
        r@ == a@ + b@ + c@,
{
    let mut out = join2(a, b);
    out.append(c);
    out
}

/// Four texts, one after the other.
pub fn join4(a: &str, b: &str, c: &str, d: &str) -> (r: String)
    ensures
        r@ == a@ + b@ + c@ + d@,
{
    let mut out = join3(a, b, c);
    out.append(d);
    out
}

/// Five texts, one after the other.
pub fn join5(a: &str, b: &str, c: &str, d: &str, e: &str) -> (r: String)
    ensures
        r@ == a@ + b@ + c@ + d@ + e@,
{
    let mut out = join4(a, b, c, d);
    out.append(e);
    out
}

// ---------------------------------------------------------------------------
// Parts of a text
// ---------------------------------------------------------------------------

/// A text made of the given characters.
pub fn from_chars(chars: &Vec<char>, from: usize, to: usize) -> (r: String)
    requires
        from <= to <= chars.len(),
    ensures
        r@ == chars@.subrange(from as int, to as int),
{
    let mut out = String::new();
    let mut i: usize = from;
    assert(chars@.subrange(from as int, from as int) =~= Seq::<char>::empty());
    while i < to
        invariant
            from <= i <= to <= chars.len(),
            out@ == chars@.subrange(from as int, i as int),
        decreases to - i,
    {
        out.push(chars[i]);
        assert(chars@.subrange(from as int, i as int + 1) =~= chars@.subrange(from as int, i as int).push(chars@[i as int]));
        i += 1;
    }
    out
}

/// Whether `part` stands in `text` at `at`.
pub open spec fn stands_at(text: Seq<char>, part: Seq<char>, at: int) -> bool {
    0 <= at && at + part.len() <= text.len() && text.subrange(at, at + part.len()) == part
}

/// Whether `part` stands somewhere in `text`.
pub open spec fn has_part(text: Seq<char>, part: Seq<char>) -> bool {
    exists|at: int| stands_at(text, part, at)
}

/// Whether `part` stands at one place of `text`.
pub fn is_at(text: &Vec<char>, part: &Vec<char>, at: usize) -> (r: bool)
    requires
        at + part.len() <= text.len(),
    ensures
        r == stands_at(text@, part@, at as int),
{
    let mut i: usize = 0;
    while i < part.len()
        invariant
            i <= part.len(),
            at + part.len() <= text.len(),
            forall|k: int| 0 <= k < i ==> text@[at + k] == part@[k],
        decreases part.len() - i,
    {
        if text[at + i] != part[i] {
            assert(text@.subrange(at as int, at + part@.len())[i as int] != part@[i as int]);
            return false;
        }
        i += 1;
    }
    assert(text@.subrange(at as int, at + part@.len()) =~= part@);
    true
}

/// Whether `part` stands somewhere in `text`.
pub fn contains(text: &str, part: &str) -> (r: bool)
    ensures
        r == has_part(text@, part@),
{
    let chars: Vec<char> = chars_of(text);
    let wanted: Vec<char> = chars_of(part);
    if wanted.len() > chars.len() {
        return false;
    }
    let mut at: usize = 0;
    let last: usize = chars.len() - wanted.len();
    while at <= last
        invariant
            last == chars.len() - wanted.len(),
            at <= last + 1,
            chars@ == text@,
            wanted@ == part@,
            forall|k: int| 0 <= k < at ==> !stands_at(text@, part@, k),
        decreases last + 1 - at,
    {
        if is_at(&chars, &wanted, at) {
            return true;
        }
        if at == last {
            assert(forall|k: int| stands_at(text@, part@, k) ==> 0 <= k <= last);
            return false;
        }
        at += 1;
    }
    false
}

/// Whether some line of a list holds `part`.
pub open spec fn any_has(list: Seq<Seq<char>>, part: Seq<char>) -> bool {
    exists|i: int| 0 <= i < list.len() && has_part(#[trigger] list[i], part)
}

/// Whether some text of a list holds `part`.
pub fn any_contains(list: &Vec<String>, part: &str) -> (r: bool)
    ensures
        r == any_has(views(list@), part@),
{
    let mut i: usize = 0;
    while i < list.len()
        invariant
            i <= list.len(),
            forall|k: int| 0 <= k < i ==> !has_part(#[trigger] views(list@)[k], part@),
        decreases list.len() - i,
    {
        if contains(&list[i], part) {
            assert(has_part(views(list@)[i as int], part@));
            return true;
        }
        assert(views(list@)[i as int] == list@[i as int]@);
        i += 1;
    }
    false
}

/// Whether a character is white space, as Unicode has it.
pub open spec fn is_space(c: char) -> bool {
    let n = c as u32;
    ||| 0x09 <= n <= 0x0d
    ||| n == 0x20
    ||| n == 0x85
    ||| n == 0xa0
    ||| n == 0x1680
    ||| 0x2000 <= n <= 0x200a
    ||| n == 0x2028
    ||| n == 0x2029
    ||| n == 0x202f
    ||| n == 0x205f
    ||| n == 0x3000
}

/// Whether a character is white space.
pub fn space(c: char) -> (r: bool)
    ensures
        r == is_space(c),
{
    let n: u32 = c as u32;
    (0x09 <= n && n <= 0x0d) || n == 0x20 || n == 0x85 || n == 0xa0 || n == 0x1680
        || (0x2000 <= n && n <= 0x200a) || n == 0x2028 || n == 0x2029 || n == 0x202f
        || n == 0x205f || n == 0x3000
}

/// A text without the white space it begins with.
pub open spec fn trimmed_start(text: Seq<char>) -> Seq<char>
    decreases text.len(),
{
    if text.len() > 0 && is_space(text[0]) {
        trimmed_start(text.skip(1))
    } else {
        text
    }
}

/// A text without the white space it ends with.
pub open spec fn trimmed_end(text: Seq<char>) -> Seq<char>
    decreases text.len(),
{
    if text.len() > 0 && is_space(text.last()) {
        trimmed_end(text.drop_last())
    } else {
        text
    }
}

/// A text without the white space at either end.
pub open spec fn trimmed(text: Seq<char>) -> Seq<char> {
    trimmed_end(trimmed_start(text))
}

/// A text without the white space it ends with.
pub fn trim_end(text: &str) -> (r: String)
    ensures
        r@ == trimmed_end(text@),
{
    let chars: Vec<char> = chars_of(text);
    let mut to: usize = chars.len();
    assert(chars@.take(to as int) =~= chars@);
    while to > 0 && space(chars[to - 1])
        invariant
            to <= chars.len(),
            trimmed_end(chars@.take(to as int)) == trimmed_end(chars@),
        decreases to,
    {
        assert(chars@.take(to as int).drop_last() =~= chars@.take(to as int - 1));
        to -= 1;
    }
    assert(chars@.subrange(0, to as int) =~= chars@.take(to as int));
    from_chars(&chars, 0, to)
}

/// A text without the white space at either end.
pub fn trim(text: &str) -> (r: String)
    ensures
        r@ == trimmed(text@),
{
    let chars: Vec<char> = chars_of(text);
    let mut from: usize = 0;
    assert(chars@.skip(0) =~= chars@);
    while from < chars.len() && space(chars[from])
        invariant
            from <= chars.len(),
            trimmed_start(chars@.skip(from as int)) == trimmed_start(chars@),
        decreases chars.len() - from,
    {
        assert(chars@.skip(from as int).skip(1) =~= chars@.skip(from as int + 1));
        from += 1;
    }
    assert(chars@.subrange(from as int, chars.len() as int) =~= chars@.skip(from as int));
    trim_end(&from_chars(&chars, from, chars.len()))
}

/// Where the first `c` at or behind `from` stands, or the text's end.
pub open spec fn next_at(text: Seq<char>, c: char, from: int) -> int
    decreases text.len() - from,
{
    if from < 0 || from >= text.len() || text[from] == c {
        from
    } else {
        next_at(text, c, from + 1)
    }
}

pub proof fn lemma_next_at(text: Seq<char>, c: char, from: int)
    requires
        0 <= from <= text.len(),
    ensures
        from <= next_at(text, c, from) <= text.len(),
        next_at(text, c, from) < text.len() ==> text[next_at(text, c, from)] == c,
        forall|k: int| from <= k < next_at(text, c, from) ==> text[k] != c,
    decreases text.len() - from,
{
    if from < text.len() && text[from] != c {
        lemma_next_at(text, c, from + 1);
    }
}

/// Where the first `c` at or behind `from` stands, or the text's end.
pub fn find_char(text: &Vec<char>, c: char, from: usize) -> (r: usize)
    requires
        from <= text.len(),
    ensures
        r == next_at(text@, c, from as int),
        from <= r <= text.len(),
{
    let mut at: usize = from;
    while at < text.len() && text[at] != c
        invariant
            from <= at <= text.len(),
            next_at(text@, c, at as int) == next_at(text@, c, from as int),
        decreases text.len() - at,
    {
        at += 1;
    }
    at
}

/// A line that a newline ends, without a carriage return in front of that newline.
pub open spec fn ended_line(line: Seq<char>) -> Seq<char> {
    if line.len() > 0 && line.last() == '\r' {
        line.drop_last()
    } else {
        line
    }
}

/// The lines of a text from `from` on. A newline ends a line, with a carriage return in
/// front of it where there is one; what follows the last newline is a line unless it is
/// empty.
pub open spec fn lines_from(text: Seq<char>, from: int) -> Seq<Seq<char>>
    decreases text.len() - from, 0nat,
    when 0 <= from <= text.len()
    via lines_from_decreases
{
    let end = next_at(text, '\n', from);
    if from == text.len() {
        Seq::empty()
    } else if end >= text.len() {
        seq![text.subrange(from, text.len() as int)]
    } else {
        seq![ended_line(text.subrange(from, end))] + lines_from(text, end + 1)
    }
}

#[via_fn]
proof fn lines_from_decreases(text: Seq<char>, from: int) {
    lemma_next_at(text, '\n', from);
}

/// The lines of a text.
pub open spec fn line_views(text: Seq<char>) -> Seq<Seq<char>> {
    lines_from(text, 0)
}

/// The lines of a text.
pub fn lines(text: &str) -> (r: Vec<String>)
    ensures
        views(r@) == line_views(text@),
{
    let chars: Vec<char> = chars_of(text);
    let mut out: Vec<String> = Vec::new();
    let mut from: usize = 0;
    assert(views(out@) + lines_from(chars@, 0) =~= line_views(chars@));
    while from < chars.len()
        invariant
            from <= chars.len(),
            views(out@) + lines_from(chars@, from as int) == line_views(chars@),
        decreases chars.len() - from,
    {
        let end: usize = find_char(&chars, '\n', from);
        proof {
            lemma_next_at(chars@, '\n', from as int);
        }
        let ghost was = views(out@);
        if end >= chars.len() {
            let line = from_chars(&chars, from, end);
            out.push(line);
            proof {
                assert(views(out@) =~= was.push(line@));
                assert(was.push(line@) + lines_from(chars@, chars@.len() as int) =~= was
                    + lines_from(chars@, from as int));
            }
            from = end;
        } else {
            let to: usize = if end > from && chars[end - 1] == '\r' { end - 1 } else { end };
            let line = from_chars(&chars, from, to);
            out.push(line);
            proof {
                assert(line@ =~= ended_line(chars@.subrange(from as int, end as int)));
                assert(views(out@) =~= was.push(line@));
                assert(was.push(line@) + lines_from(chars@, end as int + 1) =~= was
                    + lines_from(chars@, from as int));
            }
            from = end + 1;
        }
    }
    assert(views(out@) + lines_from(chars@, from as int) =~= views(out@));
    out
}


// ---------------------------------------------------------------------------
// Reading a number
// ---------------------------------------------------------------------------

/// Whether a text is made of digits, and not empty.
pub open spec fn all_digits(text: Seq<char>) -> bool {
    text.len() > 0 && forall|i: int| 0 <= i < text.len() ==> is_digit(#[trigger] text[i])
}

/// The value of a text made of digits.
pub open spec fn digits_value(text: Seq<char>) -> nat
    decreases text.len(),
{
    if text.len() == 0 {
        0
    } else {
        digits_value(text.drop_last()) * 10 + (text.last() as u32 - 48) as nat
    }
}

/// Reading a written number gives it back.
pub proof fn lemma_decimal_value(n: nat)
    ensures
        decimal(n).len() > 0,
        digits_value(decimal(n)) == n,
    decreases n,
{
    if n < 10 {
        let one = seq![digit(n as int)];
        assert(one.drop_last() =~= Seq::<char>::empty());
        assert(digits_value(one.drop_last()) == 0);
    } else {
        lemma_decimal_value(n / 10);
        assert(decimal(n).drop_last() =~= decimal(n / 10));
    }
}

/// The number a text stands for: digits, with a sign in front where there is one.
pub open spec fn parsed_number(text: Seq<char>) -> Option<int> {
    if text.len() > 0 && text[0] == '-' {
        if all_digits(text.skip(1)) {
            Some(-(digits_value(text.skip(1)) as int))
        } else {
            None
        }
    } else if text.len() > 0 && text[0] == '+' {
        if all_digits(text.skip(1)) {
            Some(digits_value(text.skip(1)) as int)
        } else {
            None
        }
    } else if all_digits(text) {
        Some(digits_value(text) as int)
    } else {
        None
    }
}

pub proof fn lemma_decimal_digits(n: nat)
    ensures
        all_digits(decimal(n)),
    decreases n,
{
    if n >= 10 {
        lemma_decimal_digits(n / 10);
        let rest = decimal(n / 10);
        assert forall|i: int| 0 <= i < decimal(n).len() implies is_digit(#[trigger] decimal(n)[i]) by {
            if i < rest.len() {
                assert(decimal(n)[i] == rest[i]);
                assert(is_digit(rest[i]));
            }
        }
    }
}

/// Reading a written number, with its sign, gives it back.
pub proof fn lemma_signed_decimal_value(n: int)
    ensures
        parsed_number(signed_decimal(n)) == Some(n),
{
    let size = if n < 0 {
        (-n) as nat
    } else {
        n as nat
    };
    lemma_decimal_value(size);
    lemma_decimal_digits(size);
    let text = signed_decimal(n);
    if n < 0 {
        assert(text.skip(1) =~= decimal(size));
    } else {
        assert(is_digit(text[0]));
    }
}

/// The number a text stands for, where it fits 64 bits with a sign.
pub open spec fn parsed_i64(text: Seq<char>) -> Option<i64> {
    match parsed_number(text) {
        Some(n) => if i64::MIN <= n <= i64::MAX {
            Some(n as i64)
        } else {
            None
        },
        None => None,
    }
}

/// The value of the digits from `from` on, unless it is above `limit`. Nothing where
/// something else than a digit stands there, or nothing at all.
fn read_digits(chars: &Vec<char>, from: usize, limit: u64) -> (r: Option<u64>)
    requires
        from <= chars.len(),
        10 <= limit <= 0x8000_0000_0000_0000,
    ensures
        ({
            let part = chars@.skip(from as int);
            match r {
                Some(n) => all_digits(part) && digits_value(part) == n && n <= limit,
                None => !all_digits(part) || digits_value(part) > limit,
            }
        }),
{
    let ghost part = chars@.skip(from as int);
    if from == chars.len() {
        return None;
    }
    let mut i: usize = from;
    let mut value: u64 = 0;
    let mut large = false;
    assert(part.take(0) =~= Seq::<char>::empty());
    while i < chars.len()
        invariant
            from <= i <= chars.len(),
            from < chars.len(),
            part == chars@.skip(from as int),
            10 <= limit <= 0x8000_0000_0000_0000,
            forall|k: int| 0 <= k < i - from ==> is_digit(#[trigger] part[k]),
            !large ==> value == digits_value(part.take(i - from)) && value <= limit,
            large ==> digits_value(part.take(i - from)) > limit,
        decreases chars.len() - i,
    {
        let c: char = chars[i];
        assert(part[i - from] == c);
        if !ascii_digit(c) {
            return None;
        }
        let digit: u64 = (c as u32 - 48) as u64;
        proof {
            assert(part.take(i - from + 1).drop_last() =~= part.take(i - from));
            assert(part.take(i - from + 1).last() == c);
        }
        if !large {
            // Only a value that a further digit would keep within the limit is carried on.
            if value > limit / 10 || value * 10 > limit - digit {
                large = true;
                assert(digits_value(part.take(i - from + 1)) > limit) by {
                    if value > limit / 10 {
                        assert(value * 10 > limit) by (nonlinear_arith)
                            requires value > limit / 10,
                        {}
                    }
                }
            } else {
                value = value * 10 + digit;
            }
        }
        i += 1;
    }
    assert(part.take(i - from) =~= part);
    if large {
        None
    } else {
        Some(value)
    }
}

/// The number a text stands for, where it fits 64 bits with a sign.
pub fn parse_i64(text: &str) -> (r: Option<i64>)
    ensures
        r == parsed_i64(text@),
{
    let chars: Vec<char> = chars_of(text);
    if chars.len() > 0 && chars[0] == '-' {
        match read_digits(&chars, 1, 0x8000_0000_0000_0000) {
            Some(n) => {
                if n == 0x8000_0000_0000_0000 {
                    Some(i64::MIN)
                } else {
                    Some(-(n as i64))
                }
            },
            None => None,
        }
    } else if chars.len() > 0 && chars[0] == '+' {
        match read_digits(&chars, 1, 0x7fff_ffff_ffff_ffff) {
            Some(n) => Some(n as i64),
            None => None,
        }
    } else {
        assert(chars@.skip(0) =~= chars@);
        match read_digits(&chars, 0, 0x7fff_ffff_ffff_ffff) {
            Some(n) => Some(n as i64),
            None => None,
        }
    }
}

} // verus!
