//! Writing: how texts are ordered, trimmed and parted into lines, and how numbers and progress
//! are written out.

use vstd::prelude::*;

use crate::edit::{edit_order, list_precedes, Edit};
use crate::laws::texts::{lemma_part_behind, lemma_part_in_front, lemma_part_of_itself};
use crate::progress::{
    drawn, erased, estimates, glance, grouped, is_due, line_view, percent, three_digits, two_digits, FIRST_PAINT,
    Progress, REDRAW,
};
use crate::sql::{doubled, quoted};
use crate::text::{
    decimal, digit, has_part, is_digit, is_space, joined, line_views, lines_from, next_at, parsed_i64,
    parsed_number, precedes, signed_decimal, trimmed, trimmed_end, trimmed_start,
};

verus! {

// ---------------------------------------------------------------------------
// Order
// ---------------------------------------------------------------------------

/// A text precedes another exactly where it has the smaller character at the first place that they
/// differ in, or where it ends first and they do not differ until then.
pub proof fn law_texts_are_ordered_by_their_first_difference(a: Seq<char>, b: Seq<char>)
    ensures
        precedes(a, b) <==> exists|k: int| #[trigger] first_difference(a, b, k),
    decreases a.len(),
{
    if b.len() > 0 && a.len() > 0 && a[0] == b[0] {
        let x = a.skip(1);
        let y = b.skip(1);
        law_texts_are_ordered_by_their_first_difference(x, y);
        if exists|k: int| #[trigger] first_difference(x, y, k) {
            let k = choose|k: int| #[trigger] first_difference(x, y, k);
            assert(first_difference(a, b, k + 1)) by {
                assert forall|i: int| 0 <= i < k + 1 implies #[trigger] a[i] == b[i] by {
                    if i > 0 {
                        assert(x[i - 1] == y[i - 1]);
                    }
                }
            }
        }
        if exists|k: int| #[trigger] first_difference(a, b, k) {
            let k = choose|k: int| #[trigger] first_difference(a, b, k);
            assert(k > 0);
            assert(first_difference(x, y, k - 1)) by {
                assert forall|i: int| 0 <= i < k - 1 implies #[trigger] x[i] == y[i] by {
                    assert(a[i + 1] == b[i + 1]);
                }
            }
        }
    } else if b.len() > 0 {
        if precedes(a, b) {
            assert(first_difference(a, b, 0));
        }
        if exists|k: int| #[trigger] first_difference(a, b, k) {
            let k = choose|k: int| #[trigger] first_difference(a, b, k);
            if k > 0 {
                assert(a[0] == b[0]);
            }
        }
    }
}

/// Whether two texts agree up to a place, at which the first has ended or has the smaller character.
pub open spec fn first_difference(a: Seq<char>, b: Seq<char>, k: int) -> bool {
    &&& 0 <= k < b.len()
    &&& k <= a.len()
    &&& forall|i: int| 0 <= i < k ==> #[trigger] a[i] == b[i]
    &&& k == a.len() || a[k] < b[k]
}

/// A list precedes another by the first of their texts that differ, and a shorter one precedes one
/// that goes on.
pub proof fn law_lists_are_ordered_by_their_first_difference(
    front: Seq<Seq<char>>,
    a: Seq<char>,
    b: Seq<char>,
    rest: Seq<Seq<char>>,
    other: Seq<Seq<char>>,
)
    requires
        a != b,
    ensures
        list_precedes(front + (seq![a] + rest), front + (seq![b] + other)) <==> precedes(a, b),
        list_precedes(front, front + (seq![b] + other)),
        !list_precedes(front, front),
    decreases front.len(),
{
    let x = front + (seq![a] + rest);
    let y = front + (seq![b] + other);
    if front.len() > 0 {
        law_lists_are_ordered_by_their_first_difference(front.skip(1), a, b, rest, other);
        assert(x.skip(1) =~= front.skip(1) + (seq![a] + rest));
        assert(y.skip(1) =~= front.skip(1) + (seq![b] + other));
        assert(x[0] == front[0] && y[0] == front[0]);
    } else {
        assert(x =~= seq![a] + rest);
        assert(y =~= seq![b] + other);
        assert(x[0] == a && y[0] == b);
    }
}

/// Edits stand by what they remove, and those that remove the same by what they add.
pub proof fn law_edits_stand_by_what_they_remove(a: Edit, b: Edit)
    ensures
        a.0 == b.0 ==> (edit_order()(a, b) <==> list_precedes(a.1, b.1)),
        a.0 != b.0 ==> (edit_order()(a, b) <==> list_precedes(a.0, b.0)),
{
}

// ---------------------------------------------------------------------------
// Trimming and lines
// ---------------------------------------------------------------------------

proof fn lemma_trimmed_start(text: Seq<char>) -> (cut: int)
    ensures
        0 <= cut <= text.len(),
        trimmed_start(text) == text.skip(cut),
        forall|i: int| 0 <= i < cut ==> is_space(#[trigger] text[i]),
        cut < text.len() ==> !is_space(text[cut]),
    decreases text.len(),
{
    if text.len() > 0 && is_space(text[0]) {
        let rest = text.skip(1);
        let cut = lemma_trimmed_start(rest);
        assert(rest.skip(cut) =~= text.skip(cut + 1));
        assert forall|i: int| 0 <= i < cut + 1 implies is_space(#[trigger] text[i]) by {
            if i > 0 {
                assert(rest[i - 1] == text[i]);
            }
        }
        cut + 1
    } else {
        assert(text.skip(0) =~= text);
        0
    }
}

/// What is left of a text without the blanks it ends with, by how much of it is kept.
pub proof fn lemma_trimmed_end(text: Seq<char>) -> (kept: int)
    ensures
        0 <= kept <= text.len(),
        trimmed_end(text) == text.take(kept),
        forall|i: int| kept <= i < text.len() ==> is_space(#[trigger] text[i]),
        kept > 0 ==> !is_space(text[kept - 1]),
    decreases text.len(),
{
    if text.len() > 0 && is_space(text.last()) {
        let rest = text.drop_last();
        let kept = lemma_trimmed_end(rest);
        assert(rest.take(kept) =~= text.take(kept));
        assert forall|i: int| kept <= i < text.len() implies is_space(#[trigger] text[i]) by {
            if i < rest.len() {
                assert(rest[i] == text[i]);
            }
        }
        kept
    } else {
        assert(text.take(text.len() as int) =~= text);
        text.len() as int
    }
}

/// Trimming takes blanks off both ends of a text and nothing else: what is left begins and ends with
/// something that is no blank, and all that was taken off was one.
pub proof fn law_trimming_takes_blanks_off_the_ends(text: Seq<char>)
    ensures
        exists|from: int, to: int|
            0 <= from <= to <= text.len() && trimmed(text) == #[trigger] text.subrange(from, to) && (forall|i: int|
                0 <= i < from || to <= i < text.len() ==> is_space(#[trigger] text[i])) && (from < to ==> !is_space(
                text[from],
            ) && !is_space(text[to - 1])),
        trimmed(text).len() == 0 <==> forall|i: int| 0 <= i < text.len() ==> is_space(#[trigger] text[i]),
{
    let from = lemma_trimmed_start(text);
    let rest = text.skip(from);
    let kept = lemma_trimmed_end(rest);
    let to = from + kept;
    assert(rest.take(kept) =~= text.subrange(from, to));
    assert forall|i: int| 0 <= i < from || to <= i < text.len() implies is_space(#[trigger] text[i]) by {
        if i >= to {
            assert(rest[i - from] == text[i]);
        }
    }
    if from < to {
        assert(rest[kept - 1] == text[to - 1]);
        assert(rest[0] == text[from]);
        assert(!is_space(text[from]));
    }
    assert(trimmed(text) == text.subrange(from, to));
}

proof fn lemma_lines(text: Seq<char>, from: int)
    requires
        0 <= from <= text.len(),
        forall|i: int| 0 <= i < text.len() ==> text[i] != '\r',
    ensures
        forall|k: int, i: int|
            0 <= k < lines_from(text, from).len() && 0 <= i < lines_from(text, from)[k].len()
                ==> #[trigger] lines_from(text, from)[k][i] != '\n',
        text.skip(from) == ended_lines(lines_from(text, from), text.len() > from && text.last() != '\n'),
        from < text.len() ==> lines_from(text, from).len() > 0,
    decreases text.len() - from,
{
    crate::text::lemma_next_at(text, '\n', from);
    let end = next_at(text, '\n', from);
    let all = lines_from(text, from);
    let open = text.len() > from && text.last() != '\n';
    if from == text.len() {
        assert(text.skip(from) =~= Seq::<char>::empty());
    } else if end >= text.len() {
        assert(text.skip(from) =~= text.subrange(from, text.len() as int));
        assert(all.skip(1) =~= Seq::<Seq<char>>::empty());
        assert(text.last() == text[text.len() - 1]);
    } else {
        let line = text.subrange(from, end);
        assert(crate::text::ended_line(line) == line) by {
            if line.len() > 0 {
                assert(line.last() == text[end - 1]);
            }
        }
        lemma_lines(text, end + 1);
        let rest = lines_from(text, end + 1);
        assert(all == seq![line] + rest);
        assert(all[0] == line);
        assert(all.skip(1) =~= rest);
        assert forall|k: int, i: int| 0 <= k < all.len() && 0 <= i < all[k].len() implies #[trigger] all[k][i]
            != '\n' by {
            if k == 0 {
                assert(line[i] == text[from + i]);
            } else {
                assert(all[k] == rest[k - 1]);
            }
        }
        assert(text.skip(from) =~= line + seq!['\n'] + text.skip(end + 1));
        if end + 1 == text.len() {
            assert(text.last() == '\n');
            assert(rest =~= Seq::<Seq<char>>::empty());
        }
    }
}

/// The text that lines make up, each ended by a break but for the last where that is open.
pub open spec fn ended_lines(lines: Seq<Seq<char>>, open: bool) -> Seq<char>
    decreases lines.len(),
{
    if lines.len() == 0 {
        Seq::empty()
    } else if lines.len() == 1 && open {
        lines[0]
    } else {
        lines[0] + seq!['\n'] + ended_lines(lines.skip(1), open)
    }
}

/// The lines of a text make it up again, each ended by a break, and none of them holds one.
pub proof fn law_lines_make_up_their_text(text: Seq<char>)
    requires
        forall|i: int| 0 <= i < text.len() ==> text[i] != '\r',
    ensures
        text == ended_lines(line_views(text), text.len() > 0 && text.last() != '\n'),
        forall|k: int, i: int|
            0 <= k < line_views(text).len() && 0 <= i < line_views(text)[k].len()
                ==> #[trigger] line_views(text)[k][i] != '\n',
{
    lemma_lines(text, 0);
    assert(text.skip(0) =~= text);
}

/// A list is written out as long as its texts and what stands between them.
pub proof fn law_a_list_is_written_out_in_order(list: Seq<Seq<char>>, separator: Seq<char>, text: Seq<char>)
    ensures
        joined(Seq::empty(), separator) == Seq::<char>::empty(),
        joined(seq![text], separator) == text,
        list.len() > 0 ==> joined(list.push(text), separator) == joined(list, separator) + separator + text,
{
    assert(list.push(text).drop_last() =~= list);
}

// ---------------------------------------------------------------------------
// Numbers
// ---------------------------------------------------------------------------

/// A number reads back from how it is written, and only a number reads as one.
pub proof fn law_a_number_reads_back(n: int, text: Seq<char>)
    ensures
        parsed_number(signed_decimal(n)) == Some(n),
        i64::MIN <= n <= i64::MAX ==> parsed_i64(signed_decimal(n)) == Some(n as i64),
        !(i64::MIN <= n <= i64::MAX) ==> parsed_i64(signed_decimal(n)) is None,
        parsed_number(text) is Some ==> forall|i: int|
            1 <= i < text.len() ==> '0' <= #[trigger] text[i] <= '9',
        parsed_number(Seq::empty()) is None,
{
    crate::text::lemma_signed_decimal_value(n);
    if parsed_number(text) is Some {
        assert forall|i: int| 1 <= i < text.len() implies '0' <= #[trigger] text[i] <= '9' by {
            if text[0] == '-' || text[0] == '+' {
                assert(text.skip(1)[i - 1] == text[i]);
                assert(is_digit(text.skip(1)[i - 1]));
            } else {
                assert(is_digit(text[i]));
            }
        }
    }
}

/// A text without its commas.
pub open spec fn without_commas(text: Seq<char>) -> Seq<char> {
    text.filter(|c: char| c != ',')
}

proof fn lemma_no_commas(text: Seq<char>)
    requires
        forall|i: int| 0 <= i < text.len() ==> #[trigger] text[i] != ',',
    ensures
        without_commas(text) == text,
    decreases text.len(),
{
    reveal(Seq::filter);
    if text.len() > 0 {
        let rest = text.drop_last();
        assert forall|i: int| 0 <= i < rest.len() implies #[trigger] rest[i] != ',' by {
            assert(text[i] != ',');
        }
        lemma_no_commas(rest);
        assert(text.last() != ',');
        assert(rest.push(text.last()) =~= text);
    } else {
        assert(without_commas(text) =~= text);
    }
}

proof fn lemma_decimal_no_comma(n: nat)
    ensures
        forall|i: int| 0 <= i < decimal(n).len() ==> #[trigger] decimal(n)[i] != ',',
{
    crate::text::lemma_decimal_digits(n);
    assert forall|i: int| 0 <= i < decimal(n).len() implies #[trigger] decimal(n)[i] != ',' by {
        assert(is_digit(decimal(n)[i]));
    }
}

proof fn lemma_thousand(n: nat)
    requires
        n >= 1000,
    ensures
        decimal(n) == decimal(n / 1000) + three_digits(n % 1000),
{
    reveal_with_fuel(decimal, 4);
    assert(n / 10 / 10 / 10 == n / 1000);
    assert(n / 10 >= 100 && n / 10 / 10 >= 10);
    assert(n % 1000 % 10 == n % 10);
    assert(n % 1000 / 10 % 10 == n / 10 % 10);
    assert(n % 1000 / 100 == n / 10 / 10 % 10);
    assert(decimal(n) =~= decimal(n / 1000).push(digit((n / 10 / 10 % 10) as int)).push(
        digit((n / 10 % 10) as int),
    ).push(digit((n % 10) as int)));
    assert(decimal(n) =~= decimal(n / 1000) + three_digits(n % 1000));
}

/// A number that is grouped is the number with commas in it, three digits behind each.
pub proof fn law_grouping_only_adds_commas(n: nat)
    ensures
        without_commas(grouped(n)) == decimal(n),
        n < 1000 ==> grouped(n) == decimal(n),
        n >= 1000 ==> grouped(n).len() >= 5 && grouped(n)[grouped(n).len() - 4] == ',' && grouped(n).take(
            grouped(n).len() - 4,
        ) == grouped(n / 1000),
    decreases n,
{
    if n < 1000 {
        lemma_decimal_no_comma(n);
        lemma_no_commas(decimal(n));
    } else {
        law_grouping_only_adds_commas(n / 1000);
        let front = grouped(n / 1000);
        let back = three_digits(n % 1000);
        reveal_strlit(",");
        lemma_thousand(n);
        lemma_decimal_no_comma(n);
        let keep = |c: char| c != ',';
        assert forall|i: int| 0 <= i < back.len() implies #[trigger] back[i] != ',' by {
            assert(decimal(n)[decimal(n / 1000).len() + i] == back[i]);
        }
        lemma_no_commas(back);
        front.lemma_filter_len(keep);
        Seq::<char>::filter_distributes_over_add(front + ","@, back, keep);
        Seq::<char>::filter_distributes_over_add(front, ","@, keep);
        assert(","@.filter(keep) =~= Seq::<char>::empty()) by {
            reveal(Seq::filter);
            assert(","@.len() == 1 && ","@[0] == ',');
            assert(","@.drop_last() =~= Seq::<char>::empty());
            assert(","@.last() == ',');
        }
        assert(without_commas(grouped(n)) =~= decimal(n / 1000) + back);
        assert(grouped(n).take(grouped(n).len() - 4) =~= front);
        lemma_grouped_len(n / 1000);
    }
}

proof fn lemma_grouped_len(n: nat)
    ensures
        grouped(n).len() >= 1,
    decreases n,
{
    if n >= 1000 {
        lemma_grouped_len(n / 1000);
    }
}

/// A share is rounded down to whole percents, and is whole only where all of it is done.
pub proof fn law_a_share_is_rounded_down(position: u64, head: u64)
    ensures
        position < head ==> percent(position, head) * head <= position * 100 < (percent(position, head) + 1) * head,
        position < head ==> percent(position, head) < 100,
        position >= head ==> percent(position, head) == 100,
{
    if position < head {
        let n = position * 100;
        let d = head as int;
        let q = percent(position, head);
        vstd::arithmetic::div_mod::lemma_fundamental_div_mod(n, d);
        vstd::arithmetic::div_mod::lemma_mod_bound(n, d);
        assert(q * d <= n < (q + 1) * d) by (nonlinear_arith)
            requires
                n == d * q + n % d,
                0 <= n % d < d,
        ;
        assert(q < 100) by (nonlinear_arith)
            requires
                q * d <= n,
                n < 100 * d,
                d > 0,
        ;
    }
}

// ---------------------------------------------------------------------------
// Progress
// ---------------------------------------------------------------------------

/// A line is drawn over the one before it: it begins at the left, shows its text, and covers all that
/// was there with blanks.
pub proof fn law_a_drawn_line_covers_the_one_before(text: Seq<char>, width: nat)
    ensures
        ({
            let (line, now) = drawn(text, width);
            &&& line[0] == '\r'
            &&& line.subrange(1, text.len() as int + 1) == text
            &&& line.len() == now + 1
            &&& now >= width
            &&& now >= text.len()
            &&& now == width || now == text.len()
            &&& forall|i: int| 1 + text.len() <= i < line.len() ==> #[trigger] line[i] == ' '
            &&& erased(now).len() == now + 2
            &&& erased(now)[0] == '\r' && erased(now).last() == '\r'
            &&& forall|i: int| 1 <= i <= now ==> #[trigger] erased(now)[i] == ' '
        }),
{
    reveal_strlit("\r");
    let (line, now) = drawn(text, width);
    assert(line.subrange(1, text.len() as int + 1) =~= text);
}

/// A line is due where it is wanted, once a run has lasted for a while, and then from time to time.
pub proof fn law_a_line_is_drawn_from_time_to_time(progress: Progress, elapsed: u64)
    ensures
        is_due(progress, elapsed) ==> progress.enabled && elapsed >= FIRST_PAINT,
        is_due(progress, elapsed) ==> (progress.painted matches Some(at) ==> at + REDRAW <= elapsed),
        progress.enabled && elapsed >= FIRST_PAINT && progress.painted is None ==> is_due(progress, elapsed),
        progress.enabled && elapsed >= FIRST_PAINT ==> (progress.painted matches Some(at) ==> (is_due(
            progress,
            elapsed,
        ) <==> at + REDRAW <= elapsed)),
{
}

/// An estimate is given only of a scan that is under way, and has been for long enough.
pub proof fn law_an_estimate_is_of_a_scan_under_way(position: u64, head: u64, elapsed: u64, later: u64)
    requires
        elapsed <= later,
    ensures
        estimates(position, head, elapsed) ==> 0 < position < head && estimates(position, head, later),
        !estimates(position, head, 0),
        position >= head ==> !estimates(position, head, elapsed),
{
}

// ---------------------------------------------------------------------------
// Quoting
// ---------------------------------------------------------------------------

/// A quoted name cannot be left before its end: every quote inside it is one of two that stand
/// together.
pub proof fn law_a_quoted_name_is_closed_by_its_last_quote(name: Seq<char>)
    ensures
        quoted(name)[0] == '"',
        quoted(name).last() == '"',
        quoted(name).len() == 2 + name.len() + name.filter(|c: char| c == '"').len(),
        (forall|i: int| 0 <= i < name.len() ==> #[trigger] name[i] != '"') ==> quoted(name) == (seq!['"']
            + name).push('"'),
{
    lemma_doubled_len(name);
    if forall|i: int| 0 <= i < name.len() ==> #[trigger] name[i] != '"' {
        lemma_doubled_plain(name);
    }
}

proof fn lemma_doubled_len(name: Seq<char>)
    ensures
        doubled(name).len() == name.len() + name.filter(|c: char| c == '"').len(),
    decreases name.len(),
{
    reveal(Seq::filter);
    if name.len() > 0 {
        lemma_doubled_len(name.drop_last());
    }
}

proof fn lemma_doubled_plain(name: Seq<char>)
    requires
        forall|i: int| 0 <= i < name.len() ==> #[trigger] name[i] != '"',
    ensures
        doubled(name) == name,
    decreases name.len(),
{
    if name.len() > 0 {
        let rest = name.drop_last();
        assert forall|i: int| 0 <= i < rest.len() implies #[trigger] rest[i] != '"' by {
            assert(name[i] != '"');
        }
        lemma_doubled_plain(rest);
        assert(name[name.len() - 1] != '"');
        assert(rest.push(name.last()) =~= name);
    } else {
        assert(doubled(name) =~= name);
    }
}

// ---------------------------------------------------------------------------
// Durations and the line of a scan
// ---------------------------------------------------------------------------

/// Whether a text is two digits that stand for a number.
pub open spec fn is_two_digits(text: Seq<char>, n: int) -> bool {
    &&& text.len() == 2
    &&& '0' <= text[0] <= '9'
    &&& '0' <= text[1] <= '9'
    &&& n == 10 * (text[0] as int - '0' as int) + (text[1] as int - '0' as int)
}

/// A duration is written in its largest unit and the next one below it, which add up to it but for
/// the seconds of one that is over an hour.
pub proof fn law_a_duration_is_written_in_two_units(seconds: nat)
    ensures
        forall|n: nat| n < 100 ==> is_two_digits(#[trigger] two_digits(n), n as int),
        seconds < 60 ==> glance(seconds) == decimal(seconds) + "s"@,
        60 <= seconds < 3600 ==> exists|minutes: nat, rest: nat|
            #![trigger decimal(minutes), two_digits(rest)]
            seconds == 60 * minutes + rest && rest < 60 && glance(seconds) == decimal(minutes) + "m"@ + two_digits(rest)
                + "s"@,
        3600 <= seconds ==> exists|hours: nat, minutes: nat|
            #![trigger decimal(hours), two_digits(minutes)]
            3600 * hours + 60 * minutes <= seconds < 3600 * hours + 60 * minutes + 60 && minutes < 60 && glance(seconds)
                == decimal(hours) + "h"@ + two_digits(minutes) + "m"@,
{
    assert forall|n: nat| n < 100 implies is_two_digits(#[trigger] two_digits(n), n as int) by {
        let tens = (n / 10 % 10) as int;
        let ones = (n % 10) as int;
        assert(n == 10 * tens + ones);
        lemma_digit(tens);
        lemma_digit(ones);
    }
    if 60 <= seconds < 3600 {
        let minutes = seconds / 60;
        let rest = seconds % 60;
        assert(seconds == 60 * minutes + rest);
        assert(glance(seconds) == decimal(minutes) + "m"@ + two_digits(rest) + "s"@);
    }
    if 3600 <= seconds {
        let hours = seconds / 3600;
        let minutes = seconds % 3600 / 60;
        assert(seconds == 3600 * hours + seconds % 3600);
        assert(glance(seconds) == decimal(hours) + "h"@ + two_digits(minutes) + "m"@);
    }
}

proof fn lemma_digit(n: int)
    requires
        0 <= n < 10,
    ensures
        '0' <= digit(n) <= '9',
        digit(n) as int - '0' as int == n,
{
}

/// The line of a scan tells how far it got, out of how much, and what it found. It tells what is
/// left exactly where that can be estimated.
pub proof fn law_a_line_tells_how_far_a_scan_got(position: u64, head: u64, matched: usize, elapsed: u64, left: u64)
    ensures
        has_part(line_view(position, head, matched, elapsed, left), grouped(position as nat)),
        has_part(line_view(position, head, matched, elapsed, left), grouped(head as nat)),
        has_part(
            line_view(position, head, matched, elapsed, left),
            decimal(percent(position, head) as nat) + "%"@,
        ),
        has_part(line_view(position, head, matched, elapsed, left), grouped(matched as nat) + " matched"@),
        estimates(position, head, elapsed) ==> (glance(left as nat) + " left"@).is_suffix_of(
            line_view(position, head, matched, elapsed, left),
        ),
        !estimates(position, head, elapsed) ==> " matched"@.is_suffix_of(
            line_view(position, head, matched, elapsed, left),
        ),
{
    let p = grouped(position as nat);
    let h = grouped(head as nat);
    let share = decimal(percent(position, head) as nat);
    let m = grouped(matched as nat);
    let g = glance(left as nat);
    let end = if estimates(position, head, elapsed) {
        "  "@ + g + " left"@
    } else {
        Seq::empty()
    };
    reveal_strlit("%)  ");
    reveal_strlit("%");
    assert("%)  "@ =~= "%"@ + "%)  "@.skip(1));
    lemma_line_parts("  scanned "@, p, " of "@, h, " ("@, share, "%"@, "%)  "@.skip(1), m, " matched"@, end);
    let whole = line_view(position, head, matched, elapsed, left);
    lemma_line_end("  "@, g, " left"@, whole, "  scanned "@ + p + " of "@ + h + " ("@ + share + "%)  "@ + m + " matched"@);
    let front = "  scanned "@ + p + " of "@ + h + " ("@ + share + "%)  "@ + m;
    if !estimates(position, head, elapsed) {
        assert(whole =~= front + " matched"@);
        assert((front + " matched"@).subrange(front.len() as int, whole.len() as int) =~= " matched"@);
    }
}

proof fn lemma_line_end(a: Seq<char>, b: Seq<char>, c: Seq<char>, whole: Seq<char>, front: Seq<char>)
    ensures
        whole == front + (a + b + c) ==> (b + c).is_suffix_of(whole),
{
    if whole == front + (a + b + c) {
        assert(whole.subrange(whole.len() - (b + c).len(), whole.len() as int) =~= b + c);
    }
}

proof fn lemma_middle_first(a: Seq<char>, b: Seq<char>, c: Seq<char>, d: Seq<char>)
    ensures
        a + b + (c + d) == a + (b + c) + d,
{
    assert(a + b + (c + d) =~= a + (b + c) + d);
}

proof fn lemma_last_two(a: Seq<char>, b: Seq<char>, c: Seq<char>)
    ensures
        a + b + c == a + (b + c),
{
    assert(a + b + c =~= a + (b + c));
}

proof fn lemma_line_parts(
    a: Seq<char>,
    p: Seq<char>,
    b: Seq<char>,
    h: Seq<char>,
    c: Seq<char>,
    share: Seq<char>,
    sign: Seq<char>,
    d: Seq<char>,
    m: Seq<char>,
    e: Seq<char>,
    end: Seq<char>,
)
    ensures
        has_part(a + p + b + h + c + share + (sign + d) + m + e + end, p),
        has_part(a + p + b + h + c + share + (sign + d) + m + e + end, h),
        has_part(a + p + b + h + c + share + (sign + d) + m + e + end, share + sign),
        has_part(a + p + b + h + c + share + (sign + d) + m + e + end, m + e),
{
    let s1 = a + p;
    let s2 = s1 + b;
    let s3 = s2 + h;
    let s4 = s3 + c;
    let s5 = s4 + share;
    let s6 = s5 + (sign + d);
    let s7 = s6 + m;
    let s8 = s7 + e;
    lemma_part_of_itself(p);
    lemma_part_behind(a, p, p);
    lemma_part_in_front(s1, b, p);
    lemma_part_in_front(s2, h, p);
    lemma_part_in_front(s3, c, p);
    lemma_part_in_front(s4, share, p);
    lemma_part_in_front(s5, sign + d, p);
    lemma_part_in_front(s6, m, p);
    lemma_part_in_front(s7, e, p);
    lemma_part_in_front(s8, end, p);
    lemma_part_of_itself(h);
    lemma_part_behind(s2, h, h);
    lemma_part_in_front(s3, c, h);
    lemma_part_in_front(s4, share, h);
    lemma_part_in_front(s5, sign + d, h);
    lemma_part_in_front(s6, m, h);
    lemma_part_in_front(s7, e, h);
    lemma_part_in_front(s8, end, h);
    lemma_part_of_itself(share + sign);
    lemma_part_behind(s4, share + sign, share + sign);
    lemma_middle_first(s4, share, sign, d);
    lemma_part_in_front(s4 + (share + sign), d, share + sign);
    lemma_part_in_front(s6, m, share + sign);
    lemma_part_in_front(s7, e, share + sign);
    lemma_part_in_front(s8, end, share + sign);
    lemma_part_of_itself(m + e);
    lemma_part_behind(s6, m + e, m + e);
    lemma_last_two(s6, m, e);
    lemma_part_in_front(s8, end, m + e);
}

} // verus!
