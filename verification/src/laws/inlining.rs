//! Inlining: which refusal or constant an edit is put down to.

use vstd::prelude::*;

use crate::program::{
    const_fits, fitting_consts, fitting_refusals, inlined, literal_view, message_is_new, part_is_new, refusal_fits,
    ConstDef, Literal, MessagePart, Program, RefusalDef,
};
use crate::text::{has_part, signed_decimal, trimmed};

verus! {

/// Whether some line of a list holds a text.
pub open spec fn some_line_holds(lines: Seq<Seq<char>>, text: Seq<char>) -> bool {
    exists|i: int| 0 <= i < lines.len() && has_part(#[trigger] lines[i], text)
}

/// Whether an edit brings a text in: a line that is added holds it, and none that is removed does.
pub open spec fn brings_in(removed: Seq<Seq<char>>, added: Seq<Seq<char>>, text: Seq<char>) -> bool {
    some_line_holds(added, text) && !some_line_holds(removed, text)
}

/// Whether an edit rewords a refusal: its code stands in what is removed and in what is added, and a
/// part of its message that is not blank is brought in.
pub open spec fn rewords(def: RefusalDef, removed: Seq<Seq<char>>, added: Seq<Seq<char>>) -> bool {
    &&& some_line_holds(removed, "(str \""@ + def.code@ + "\")"@)
    &&& some_line_holds(added, "(str \""@ + def.code@ + "\")"@)
    &&& exists|k: int|
        0 <= k < def.message.len() && (#[trigger] def.message@[k] matches MessagePart::Text(text) && trimmed(
            text@,
        ).len() > 0 && brings_in(removed, added, text@))
}

/// Whether an edit brings in the value of a constant.
pub open spec fn resets(def: ConstDef, removed: Seq<Seq<char>>, added: Seq<Seq<char>>) -> bool {
    literal_view(def.value) matches Some(text) && brings_in(removed, added, text)
}

proof fn lemma_rewords(def: RefusalDef, removed: Seq<Seq<char>>, added: Seq<Seq<char>>)
    ensures
        refusal_fits(def, removed, added) <==> rewords(def, removed, added),
{
    if message_is_new(def, removed, added) {
        let k = choose|k: int| 0 <= k < def.message.len() && part_is_new(#[trigger] def.message[k], removed, added);
        assert(def.message@[k] is Text);
    }
    if rewords(def, removed, added) {
        let k = choose|k: int|
            0 <= k < def.message.len() && (#[trigger] def.message@[k] matches MessagePart::Text(text) && trimmed(
                text@,
            ).len() > 0 && brings_in(removed, added, text@));
        assert(part_is_new(def.message[k], removed, added));
    }
}

proof fn lemma_fitting_refusals(defs: Seq<RefusalDef>, removed: Seq<Seq<char>>, added: Seq<Seq<char>>, at: int)
    ensures
        fitting_refusals(defs, removed, added).len() == 0 <==> forall|i: int|
            0 <= i < defs.len() ==> !rewords(#[trigger] defs[i], removed, added),
        0 <= at < defs.len() && rewords(defs[at], removed, added) && (forall|i: int|
            0 <= i < defs.len() && rewords(#[trigger] defs[i], removed, added) ==> i == at)
            ==> fitting_refusals(defs, removed, added) == seq![defs[at]],
        fitting_refusals(defs, removed, added).len() == 1 ==> exists|i: int|
            0 <= i < defs.len() && rewords(#[trigger] defs[i], removed, added) && fitting_refusals(
                defs,
                removed,
                added,
            )[0] == defs[i] && forall|j: int|
                0 <= j < defs.len() && rewords(#[trigger] defs[j], removed, added) ==> j == i,
    decreases defs.len(),
{
    if defs.len() > 0 {
        let rest = defs.drop_last();
        let last = defs.len() - 1;
        lemma_rewords(defs.last(), removed, added);
        lemma_fitting_refusals(rest, removed, added, at);
        assert forall|i: int| 0 <= i < rest.len() implies #[trigger] defs[i] == rest[i] by {}
        let had = fitting_refusals(rest, removed, added);
        if rewords(defs.last(), removed, added) {
            assert(rewords(defs[last], removed, added));
            if had.len() == 0 {
                assert(fitting_refusals(defs, removed, added) =~= seq![defs[last]]);
                assert forall|j: int| 0 <= j < defs.len() && rewords(#[trigger] defs[j], removed, added) implies j
                    == last by {
                    if j < last {
                        assert(rewords(rest[j], removed, added));
                    }
                }
            } else {
                let i = choose|i: int| 0 <= i < rest.len() && rewords(#[trigger] rest[i], removed, added);
                assert(rewords(defs[i], removed, added));
            }
        } else {
            if had.len() == 0 {
                assert forall|i: int| 0 <= i < defs.len() implies !rewords(#[trigger] defs[i], removed, added) by {
                    if i < last {
                        assert(!rewords(rest[i], removed, added));
                    }
                }
            } else {
                let i = choose|i: int| 0 <= i < rest.len() && rewords(#[trigger] rest[i], removed, added);
                assert(rewords(defs[i], removed, added));
                if had.len() == 1 {
                    let own = choose|i: int|
                        0 <= i < rest.len() && rewords(#[trigger] rest[i], removed, added) && had[0] == rest[i]
                            && forall|j: int|
                            0 <= j < rest.len() && rewords(#[trigger] rest[j], removed, added) ==> j == i;
                    assert(defs[own] == rest[own]);
                    assert forall|j: int| 0 <= j < defs.len() && rewords(#[trigger] defs[j], removed, added)
                        implies j == own by {
                        if j < last {
                            assert(rewords(rest[j], removed, added));
                        }
                    }
                }
            }
            if 0 <= at < defs.len() && rewords(defs[at], removed, added) && (forall|i: int|
                0 <= i < defs.len() && rewords(#[trigger] defs[i], removed, added) ==> i == at) {
                assert(at < last);
                assert(rest[at] == defs[at]);
                assert forall|i: int| 0 <= i < rest.len() && rewords(#[trigger] rest[i], removed, added) implies i
                    == at by {
                    assert(rewords(defs[i], removed, added));
                }
            }
        }
    }
}

proof fn lemma_fitting_consts(defs: Seq<ConstDef>, removed: Seq<Seq<char>>, added: Seq<Seq<char>>, at: int)
    ensures
        fitting_consts(defs, removed, added).len() == 0 <==> forall|i: int|
            0 <= i < defs.len() ==> !resets(#[trigger] defs[i], removed, added),
        0 <= at < defs.len() && resets(defs[at], removed, added) && (forall|i: int|
            0 <= i < defs.len() && resets(#[trigger] defs[i], removed, added) ==> i == at) ==> fitting_consts(
            defs,
            removed,
            added,
        ) == seq![defs[at]],
        fitting_consts(defs, removed, added).len() == 1 ==> exists|i: int|
            0 <= i < defs.len() && resets(#[trigger] defs[i], removed, added) && fitting_consts(
                defs,
                removed,
                added,
            )[0] == defs[i] && forall|j: int|
                0 <= j < defs.len() && resets(#[trigger] defs[j], removed, added) ==> j == i,
    decreases defs.len(),
{
    if defs.len() > 0 {
        let rest = defs.drop_last();
        let last = defs.len() - 1;
        lemma_fitting_consts(rest, removed, added, at);
        assert(const_fits(defs.last(), removed, added) <==> resets(defs.last(), removed, added));
        assert forall|i: int| 0 <= i < rest.len() implies #[trigger] defs[i] == rest[i] by {}
        let had = fitting_consts(rest, removed, added);
        if resets(defs.last(), removed, added) {
            assert(resets(defs[last], removed, added));
            if had.len() == 0 {
                assert(fitting_consts(defs, removed, added) =~= seq![defs[last]]);
                assert forall|j: int| 0 <= j < defs.len() && resets(#[trigger] defs[j], removed, added) implies j
                    == last by {
                    if j < last {
                        assert(resets(rest[j], removed, added));
                    }
                }
            } else {
                let i = choose|i: int| 0 <= i < rest.len() && resets(#[trigger] rest[i], removed, added);
                assert(resets(defs[i], removed, added));
            }
        } else {
            if had.len() == 0 {
                assert forall|i: int| 0 <= i < defs.len() implies !resets(#[trigger] defs[i], removed, added) by {
                    if i < last {
                        assert(!resets(rest[i], removed, added));
                    }
                }
            } else {
                let i = choose|i: int| 0 <= i < rest.len() && resets(#[trigger] rest[i], removed, added);
                assert(resets(defs[i], removed, added));
                if had.len() == 1 {
                    let own = choose|i: int|
                        0 <= i < rest.len() && resets(#[trigger] rest[i], removed, added) && had[0] == rest[i]
                            && forall|j: int|
                            0 <= j < rest.len() && resets(#[trigger] rest[j], removed, added) ==> j == i;
                    assert(defs[own] == rest[own]);
                    assert forall|j: int| 0 <= j < defs.len() && resets(#[trigger] defs[j], removed, added)
                        implies j == own by {
                        if j < last {
                            assert(resets(rest[j], removed, added));
                        }
                    }
                }
            }
            if 0 <= at < defs.len() && resets(defs[at], removed, added) && (forall|i: int|
                0 <= i < defs.len() && resets(#[trigger] defs[i], removed, added) ==> i == at) {
                assert(at < last);
                assert(rest[at] == defs[at]);
                assert forall|i: int| 0 <= i < rest.len() && resets(#[trigger] rest[i], removed, added) implies i
                    == at by {
                    assert(resets(defs[i], removed, added));
                }
            }
        }
    }
}

/// An edit is put down to the one refusal that it rewords, by name. Where it rewords none, it is put
/// down to the one constant whose value it brings in.
pub proof fn law_an_edit_is_put_down_to_the_one_that_fits(
    program: Program,
    removed: Seq<Seq<char>>,
    added: Seq<Seq<char>>,
    at: int,
)
    ensures
        0 <= at < program.refusals.len() && rewords(program.refusals@[at], removed, added) && (forall|i: int|
            0 <= i < program.refusals.len() && rewords(#[trigger] program.refusals@[i], removed, added) ==> i
                == at) ==> inlined(program, removed, added) == Some(
            "refusal "@ + program.refusals@[at].name@,
        ),
        (forall|i: int|
            0 <= i < program.refusals.len() ==> !rewords(#[trigger] program.refusals@[i], removed, added)) && 0
            <= at < program.consts.len() && resets(program.consts@[at], removed, added) && (forall|i: int|
            0 <= i < program.consts.len() && resets(#[trigger] program.consts@[i], removed, added) ==> i == at)
            ==> inlined(program, removed, added) == Some("const "@ + program.consts@[at].name@),
{
    lemma_fitting_refusals(program.refusals@, removed, added, at);
    lemma_fitting_consts(program.consts@, removed, added, at);
}

/// An edit is put down to nothing where two refusals fit it, and where none does and not exactly one
/// constant.
pub proof fn law_an_edit_that_several_fit_is_put_down_to_none(
    program: Program,
    removed: Seq<Seq<char>>,
    added: Seq<Seq<char>>,
)
    ensures
        (exists|i: int, j: int|
            0 <= i < j < program.refusals.len() && rewords(#[trigger] program.refusals@[i], removed, added)
                && rewords(#[trigger] program.refusals@[j], removed, added)) ==> inlined(
            program,
            removed,
            added,
        ) is None,
        inlined(program, removed, added) is Some ==> (exists|i: int|
            0 <= i < program.refusals.len() && rewords(#[trigger] program.refusals@[i], removed, added))
            || exists|i: int| 0 <= i < program.consts.len() && resets(#[trigger] program.consts@[i], removed, added),
{
    lemma_fitting_refusals(program.refusals@, removed, added, 0);
    lemma_fitting_consts(program.consts@, removed, added, 0);
}

/// A constant is looked for as what it is written as: an integer by its digits, an amount by its
/// units, a text as it is and a variant by its name.
pub proof fn law_a_constant_is_looked_for_as_written(n: i64, scale: u8, text: String, ty: String)
    ensures
        literal_view(Literal::Int(n)) == Some(signed_decimal(n as int)),
        literal_view(Literal::Money { units: n, scale }) == literal_view(Literal::Int(n)),
        literal_view(Literal::Decimal { units: n, scale }) == literal_view(Literal::Int(n)),
        literal_view(Literal::Timestamp(n)) == literal_view(Literal::Int(n)),
        literal_view(Literal::Str(text)) == Some(text@),
        literal_view(Literal::Uuid(text)) == Some(text@),
        literal_view(Literal::JsonNum(text)) == Some(text@),
        literal_view(Literal::Enum { ty, variant: text }) == Some(text@),
        literal_view(Literal::Bool(true)) == Some("true"@),
        literal_view(Literal::Bool(false)) == Some("false"@),
        literal_view(Literal::Other) is None,
{
}

} // verus!
