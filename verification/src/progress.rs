//! The progress line that is drawn while a scan runs: nothing at all until it has run for
//! a while, then one line redrawn in place. The percentage is position over the log's tip,
//! which is fixed when the scan starts, so it only ever moves forward.

use vstd::prelude::*;

use crate::text::{decimal, digit, digit_char, number};

verus! {

/// Nothing is drawn before this much has elapsed, in nanoseconds.
pub const FIRST_PAINT: u64 = 250_000_000;

/// The shortest gap between two paints, in nanoseconds.
pub const REDRAW: u64 = 100_000_000;

/// How long a scan must have run before an estimate is offered, in nanoseconds.
pub const ETA_AFTER: u64 = 2_000_000_000;

/// A single line that is redrawn while a scan runs. Times are nanoseconds since it
/// started.
pub struct Progress {
    pub enabled: bool,
    /// When the line was last painted, if it is there.
    pub painted: Option<u64>,
    /// The width of the widest line drawn, so that erasing it leaves no tail.
    pub width: usize,
}

// ---------------------------------------------------------------------------
// Numbers
// ---------------------------------------------------------------------------

/// A number below a thousand with its leading zeroes.
pub open spec fn three_digits(n: nat) -> Seq<char> {
    seq![digit((n / 100) as int), digit((n / 10 % 10) as int), digit((n % 10) as int)]
}

/// A number with a comma in front of every three digits from the right.
pub open spec fn grouped(n: nat) -> Seq<char>
    decreases n,
{
    if n < 1000 {
        decimal(n)
    } else {
        grouped(n / 1000) + ","@ + three_digits(n % 1000)
    }
}

/// A count with thousands separators.
pub fn thousands(n: u64) -> (r: String)
    ensures
        r@ == grouped(n as nat),
    decreases n,
{
    if n < 1000 {
        number(n)
    } else {
        let mut out = thousands(n / 1000);
        out.append(",");
        let last: u64 = n % 1000;
        let mut digits = String::new();
        digits.push(digit_char(last / 100));
        digits.push(digit_char(last / 10 % 10));
        digits.push(digit_char(last % 10));
        assert(digits@ =~= three_digits(last as nat));
        out.append(&digits);
        out
    }
}

/// A number below a hundred with its leading zero.
pub open spec fn two_digits(n: nat) -> Seq<char> {
    seq![digit((n / 10 % 10) as int), digit((n % 10) as int)]
}

fn padded_two(n: u64) -> (r: String)
    ensures
        r@ == two_digits(n as nat),
{
    let mut out = String::new();
    out.push(digit_char(n / 10 % 10));
    out.push(digit_char(n % 10));
    assert(out@ =~= two_digits(n as nat));
    out
}

/// A duration for a line that is glanced at.
pub open spec fn glance(seconds: nat) -> Seq<char> {
    if seconds < 60 {
        decimal(seconds) + "s"@
    } else if seconds < 3600 {
        decimal(seconds / 60) + "m"@ + two_digits(seconds % 60) + "s"@
    } else {
        decimal(seconds / 3600) + "h"@ + two_digits(seconds % 3600 / 60) + "m"@
    }
}

/// A duration for a line that is glanced at: whole seconds under a minute, minutes and
/// seconds under an hour, hours and minutes beyond it.
pub fn short_duration(seconds: u64) -> (r: String)
    ensures
        r@ == glance(seconds as nat),
{
    if seconds < 60 {
        let mut out = number(seconds);
        out.append("s");
        out
    } else if seconds < 3600 {
        let mut out = number(seconds / 60);
        out.append("m");
        out.append(&padded_two(seconds % 60));
        out.append("s");
        out
    } else {
        let mut out = number(seconds / 3600);
        out.append("h");
        out.append(&padded_two(seconds % 3600 / 60));
        out.append("m");
        out
    }
}

// ---------------------------------------------------------------------------
// The line
// ---------------------------------------------------------------------------

/// Whether an estimate is offered: not until there is enough of a run to extrapolate
/// from, and not at the end, where "0s left" reads as a stall.
pub open spec fn estimates(position: u64, head: u64, elapsed: u64) -> bool {
    elapsed >= ETA_AFTER && 0 < position < head
}

/// How far a scan has come, in percent. An empty log is complete.
pub open spec fn percent(position: u64, head: u64) -> int {
    if head == 0 {
        100
    } else if position < head {
        position * 100 / head as int
    } else {
        100
    }
}

/// The line, `left` being the whole seconds that the scan has left at the rate so far.
pub open spec fn line_view(
    position: u64,
    head: u64,
    matched: usize,
    elapsed: u64,
    left: u64,
) -> Seq<char> {
    "  scanned "@ + grouped(position as nat) + " of "@ + grouped(head as nat) + " ("@ + decimal(
        percent(position, head) as nat,
    ) + "%)  "@ + grouped(matched as nat) + " matched"@ + (if estimates(position, head, elapsed) {
        "  "@ + glance(left as nat) + " left"@
    } else {
        Seq::empty()
    })
}

proof fn lemma_percent(position: u64, head: u64)
    requires
        position < head,
    ensures
        0 <= position * 100 / (head as int) < 100,
{
    assert(0 <= position * 100 / (head as int) < 100) by (nonlinear_arith)
        requires
            0 <= position < head,
    {}
}

/// How much longer the scan has, where an estimate is offered. `left` is what its caller
/// extrapolates from the rate so far, in whole seconds.
pub fn remaining(position: u64, head: u64, elapsed: u64, left: u64) -> (r: Option<String>)
    ensures
        r is Some <==> estimates(position, head, elapsed),
        r is Some ==> r->0@ == glance(left as nat),
{
    if elapsed < ETA_AFTER || position == 0 || position >= head {
        return None;
    }
    Some(short_duration(left))
}

/// The line, as a function of what the scan knows.
pub fn line(position: u64, head: u64, matched: usize, elapsed: u64, left: u64) -> (r: String)
    ensures
        r@ == line_view(position, head, matched, elapsed, left),
{
    let done: u64 = if head == 0 || position >= head {
        100
    } else {
        proof {
            lemma_percent(position, head);
        }
        (position as u128 * 100 / head as u128) as u64
    };
    let mut out = "  scanned ".to_owned();
    out.append(&thousands(position));
    out.append(" of ");
    out.append(&thousands(head));
    out.append(" (");
    out.append(&number(done));
    out.append("%)  ");
    out.append(&thousands(matched as u64));
    out.append(" matched");
    match remaining(position, head, elapsed, left) {
        Some(left) => {
            let mut estimate = "  ".to_owned();
            estimate.append(&left);
            estimate.append(" left");
            out.append(&estimate);
        },
        None => {
            assert(out@ + Seq::<char>::empty() =~= out@);
        },
    }
    out
}

/// The percentage never goes over a hundred, whatever the position.
pub proof fn law_percent_is_a_percentage(position: u64, head: u64)
    ensures
        0 <= percent(position, head) <= 100,
{
    if head > 0 && position < head {
        lemma_percent(position, head);
    }
}

/// The percentage does not go back as the position goes forward.
pub proof fn law_percent_moves_forward(before: u64, after: u64, head: u64)
    requires
        before <= after,
    ensures
        percent(before, head) <= percent(after, head),
{
    if head > 0 && before < head {
        lemma_percent(before, head);
        if after < head {
            assert(before * 100 / (head as int) <= after * 100 / (head as int)) by (nonlinear_arith)
                requires
                    0 <= before <= after,
                    head > 0,
            {}
        }
    }
}

// ---------------------------------------------------------------------------
// Drawing
// ---------------------------------------------------------------------------

/// As many spaces.
pub open spec fn spaces(n: nat) -> Seq<char> {
    Seq::new(n, |i: int| ' ')
}

fn blanks(n: usize) -> (r: String)
    ensures
        r@ == spaces(n as nat),
{
    let mut out = String::new();
    let mut i: usize = 0;
    assert(out@ =~= spaces(0));
    while i < n
        invariant
            i <= n,
            out@ == spaces(i as nat),
        decreases n - i,
    {
        out.push(' ');
        assert(out@ =~= spaces(i as nat + 1));
        i += 1;
    }
    out
}

/// What is drawn for a line over another of some width, and how wide it is then.
pub open spec fn drawn(text: Seq<char>, width: nat) -> (Seq<char>, nat) {
    let wide = if text.len() > width {
        text.len()
    } else {
        width
    };
    ("\r"@ + text + spaces((wide - text.len()) as nat), wide)
}

/// What erases a line of some width.
pub open spec fn erased(width: nat) -> Seq<char> {
    "\r"@ + spaces(width) + "\r"@
}

/// Whether a paint is due.
pub open spec fn is_due(progress: Progress, elapsed: u64) -> bool {
    &&& progress.enabled
    &&& elapsed >= FIRST_PAINT
    &&& progress.painted matches Some(at) ==> elapsed >= at && elapsed - at >= REDRAW
}

impl Progress {
    /// A progress line, if one is wanted and there is a terminal to draw it on.
    pub fn new(enabled: bool) -> (r: Progress)
        ensures
            r.enabled == enabled,
            r.painted is None,
            r.width == 0,
    {
        Progress { enabled, painted: None, width: 0 }
    }

    /// Takes in where the scan has come to, and hands out what to draw, where a paint is
    /// due. The line is filled up to the widest one drawn so far: a carriage return
    /// erases nothing, and the line does shrink.
    pub fn tick(
        &mut self,
        position: u64,
        head: u64,
        matched: usize,
        elapsed: u64,
        left: u64,
    ) -> (r: Option<String>)
        ensures
            final(self).enabled == old(self).enabled,
            if is_due(*old(self), elapsed) {
                let text = line_view(position, head, matched, elapsed, left);
                let width = if text.len() > old(self).width { text.len() } else { old(self).width as nat };
                &&& final(self).painted == Some(elapsed)
                &&& final(self).width == width
                &&& r is Some
                &&& r->0@ == "\r"@ + text + spaces((width - text.len()) as nat)
                &&& (r->0@, final(self).width as nat) == drawn(text, old(self).width as nat)
            } else {
                r is None && *final(self) == *old(self)
            },
    {
        if !self.enabled || elapsed < FIRST_PAINT {
            return None;
        }
        if let Some(at) = self.painted {
            if elapsed < at || elapsed - at < REDRAW {
                return None;
            }
        }
        let text = line(position, head, matched, elapsed, left);
        let length: usize = text.as_str().unicode_len();
        if length > self.width {
            self.width = length;
        }
        self.painted = Some(elapsed);
        let mut out = "\r".to_owned();
        out.append(&text);
        out.append(&blanks(self.width - length));
        Some(out)
    }

    /// Hands out what erases the line, where one is drawn. Every way out of a scan calls
    /// this before it writes anything of its own.
    pub fn clear(&mut self) -> (r: Option<String>)
        ensures
            final(self).enabled == old(self).enabled,
            final(self).width == old(self).width,
            final(self).painted is None,
            match old(self).painted {
                Some(_) => r is Some && r->0@ == "\r"@ + spaces(old(self).width as nat) + "\r"@,
                None => r is None,
            },
            old(self).painted is Some ==> r is Some && r->0@ == erased(old(self).width as nat),
    {
        if self.painted.is_none() {
            return None;
        }
        self.painted = None;
        let mut out = "\r".to_owned();
        out.append(&blanks(self.width));
        out.append("\r");
        Some(out)
    }
}

/// A progress line that is not wanted is never drawn.
pub proof fn law_a_disabled_line_is_never_due(progress: Progress, elapsed: u64)
    requires
        !progress.enabled,
    ensures
        !is_due(progress, elapsed),
{
}

} // verus!
