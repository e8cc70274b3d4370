//! Digests: how bytes are written, in which order kinds stand, and what a form is headed by.

use vstd::prelude::*;

use crate::digest::{kind_rank, sexp_head, sexp_name, Kind, Sexp};
use crate::hash::{hex, hex_digit};

verus! {

/// The number that a hexadecimal digit stands for.
pub open spec fn digit_number(c: char) -> int {
    if '0' <= c <= '9' {
        c as int - '0' as int
    } else {
        10 + c as int - 'a' as int
    }
}

/// Bytes are written as two small hexadecimal digits each, in order, of which they read back.
pub proof fn law_bytes_read_back_from_their_digits(bytes: Seq<u8>, at: int)
    requires
        0 <= at < bytes.len(),
    ensures
        hex(bytes).len() == 2 * bytes.len(),
        bytes[at] == 16 * digit_number(hex(bytes)[2 * at]) + digit_number(hex(bytes)[2 * at + 1]),
        forall|i: int|
            0 <= i < hex(bytes).len() ==> '0' <= #[trigger] hex(bytes)[i] <= '9' || 'a' <= hex(bytes)[i] <= 'f',
{
    lemma_hex(bytes);
}

proof fn lemma_hex(bytes: Seq<u8>)
    ensures
        hex(bytes).len() == 2 * bytes.len(),
        forall|k: int|
            0 <= k < bytes.len() ==> #[trigger] bytes[k] == 16 * digit_number(hex(bytes)[2 * k]) + digit_number(
                hex(bytes)[2 * k + 1],
            ),
        forall|i: int|
            0 <= i < hex(bytes).len() ==> '0' <= #[trigger] hex(bytes)[i] <= '9' || 'a' <= hex(bytes)[i] <= 'f',
    decreases bytes.len(),
{
    if bytes.len() > 0 {
        let rest = bytes.drop_last();
        let before = hex(rest);
        let all = hex(bytes);
        let last = bytes.last() as int;
        lemma_hex(rest);
        assert(all.len() == before.len() + 2);
        assert(all[before.len() as int] == hex_digit(last / 16));
        assert(all[before.len() as int + 1] == hex_digit(last % 16));
        assert forall|k: int| 0 <= k < bytes.len() implies #[trigger] bytes[k] == 16 * digit_number(all[2 * k])
            + digit_number(all[2 * k + 1]) by {
            if k < rest.len() {
                assert(rest[k] == bytes[k]);
                assert(all[2 * k] == before[2 * k]);
                assert(all[2 * k + 1] == before[2 * k + 1]);
            }
        }
        assert forall|i: int| 0 <= i < all.len() implies '0' <= #[trigger] all[i] <= '9' || 'a' <= all[i] <= 'f' by {
            if i < before.len() {
                assert(all[i] == before[i]);
            }
        }
    }
}

/// Different bytes are written differently.
pub proof fn law_different_bytes_are_written_differently(a: Seq<u8>, b: Seq<u8>)
    requires
        a != b,
    ensures
        hex(a) != hex(b),
{
    lemma_hex(a);
    lemma_hex(b);
    if hex(a) == hex(b) {
        assert forall|i: int| 0 <= i < a.len() implies a[i] == b[i] by {}
        assert(a =~= b);
    }
}

/// Kinds stand in one order: what others are declared with comes first, and tests come last.
pub proof fn law_kinds_stand_in_one_order(a: Kind, b: Kind)
    ensures
        kind_rank(a) == kind_rank(b) <==> a == b,
        kind_rank(Kind::Subject) < kind_rank(Kind::Event) < kind_rank(Kind::Enum) < kind_rank(Kind::Record) < kind_rank(
            Kind::Function,
        ) < kind_rank(Kind::Fold) < kind_rank(Kind::Command) < kind_rank(Kind::Projector) < kind_rank(Kind::Effect)
            < kind_rank(Kind::Test),
{
}

/// A form starts with its first word and names its second, where those are words.
pub proof fn law_a_form_is_headed_by_its_first_word(items: Vec<Sexp>, head: String, name: String)
    requires
        items@.len() >= 2,
        items@[0] == Sexp::Atom(head),
        items@[1] == Sexp::Atom(name),
    ensures
        sexp_head(Sexp::List(items)) == Some(head@),
        sexp_name(Sexp::List(items)) == Some(name@),
        sexp_head(Sexp::Atom(head)) is None,
        sexp_name(Sexp::Str(head)) is None,
{
}

} // verus!
