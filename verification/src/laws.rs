//! The general properties of joining, stated and proved once over the
//! mathematical model that every consumption operation's contract speaks
//! of.

use vstd::prelude::*;

use crate::model::find_sep;
use crate::model::join_seq;
use crate::model::lemma_find_sep_found;
use crate::model::lemma_join_unfold;
use crate::model::split_seq;

verus! {

/// Where the text of element `i` begins in the joined text: after `i`
/// earlier elements and `i` separator copies.
pub open spec fn elem_offset<A>(elems: Seq<Seq<A>>, sep: Seq<A>, i: int) -> int
    decreases i,
{
    if i <= 0 {
        0
    } else {
        elem_offset(elems, sep, i - 1) + elems[i - 1].len() + sep.len()
    }
}

/// The summed length of the element texts alone, without any separator.
pub open spec fn total_text_len<A>(elems: Seq<Seq<A>>) -> int
    decreases elems.len(),
{
    if elems.len() == 0 {
        0
    } else {
        elems[0].len() + total_text_len(elems.drop_first())
    }
}

/// Offsets into the join of a longer sequence are the first element, one
/// separator, and the corresponding offset into the join of the rest.
proof fn lemma_offset_shift<A>(elems: Seq<Seq<A>>, sep: Seq<A>, i: int)
    requires
        elems.len() > 0,
        1 <= i < elems.len(),
    ensures
        elem_offset(elems, sep, i) == elems[0].len() + sep.len() + elem_offset(
            elems.drop_first(),
            sep,
            i - 1,
        ),
    decreases i,
{
    if i == 1 {
        assert(elem_offset(elems, sep, 0) == 0);
        assert(elem_offset(elems.drop_first(), sep, 0) == 0);
    } else {
        lemma_offset_shift(elems, sep, i - 1);
        assert(elems.drop_first()[i - 2] == elems[i - 1]);
    }
}

/// The shape of a joined text: it is exactly as long as the element texts
/// plus one separator copy for each element after the first; the text of
/// element `i` stands at its offset; one copy of the separator stands
/// immediately before each element after the first. The first element
/// begins at offset zero and the last ends at the very end, so no
/// separator leads or trails.
pub proof fn lemma_join_structure<A>(elems: Seq<Seq<A>>, sep: Seq<A>)
    ensures
        elems.len() == 0 ==> join_seq(elems, sep) == Seq::<A>::empty(),
        elems.len() == 1 ==> join_seq(elems, sep) == elems[0],
        elems.len() > 0 ==> join_seq(elems, sep).len() == total_text_len(elems) + (elems.len() - 1)
            * sep.len(),
        forall|i: int|
            0 <= i < elems.len() ==> 0 <= #[trigger] elem_offset(elems, sep, i) && elem_offset(
                elems,
                sep,
                i,
            ) + elems[i].len() <= join_seq(elems, sep).len(),
        forall|i: int|
            0 <= i < elems.len() ==> join_seq(elems, sep).subrange(
                #[trigger] elem_offset(elems, sep, i),
                elem_offset(elems, sep, i) + elems[i].len(),
            ) == elems[i],
        forall|i: int|
            1 <= i < elems.len() ==> sep.len() <= #[trigger] elem_offset(elems, sep, i)
                && join_seq(elems, sep).subrange(
                elem_offset(elems, sep, i) - sep.len(),
                elem_offset(elems, sep, i),
            ) == sep,
        elems.len() > 0 ==> elem_offset(elems, sep, elems.len() - 1) + elems[elems.len()
            - 1].len() == join_seq(elems, sep).len(),
    decreases elems.len(),
{
    let j = join_seq(elems, sep);
    if elems.len() == 0 {
    } else if elems.len() == 1 {
        lemma_join_unfold(elems, sep);
        assert(total_text_len(elems.drop_first()) == 0);
        assert((elems.len() - 1) * sep.len() == 0) by (nonlinear_arith)
            requires
                elems.len() == 1,
        ;
        assert(j.subrange(0, elems[0].len() as int) =~= elems[0]);
    } else {
        let rest = elems.drop_first();
        let jr = join_seq(rest, sep);
        lemma_join_unfold(elems, sep);
        lemma_join_structure(rest, sep);
        let shift = elems[0].len() + sep.len();
        assert(j =~= elems[0] + sep + jr);
        assert(total_text_len(elems) == elems[0].len() + total_text_len(rest));
        assert((elems.len() - 1) * sep.len() == (rest.len() - 1) * sep.len() + sep.len())
            by (nonlinear_arith)
            requires
                elems.len() >= 2,
                rest.len() == elems.len() - 1,
        ;
        assert(j.len() == elems[0].len() + sep.len() + jr.len());
        assert(j.len() == total_text_len(elems) + (elems.len() - 1) * sep.len());
        assert forall|i: int| 0 <= i < elems.len() implies 0 <= #[trigger] elem_offset(
            elems,
            sep,
            i,
        ) && elem_offset(elems, sep, i) + elems[i].len() <= j.len() && j.subrange(
            elem_offset(elems, sep, i),
            elem_offset(elems, sep, i) + elems[i].len(),
        ) == elems[i] && (i >= 1 ==> sep.len() <= elem_offset(elems, sep, i) && j.subrange(
            elem_offset(elems, sep, i) - sep.len(),
            elem_offset(elems, sep, i),
        ) == sep) by {
            if i == 0 {
                assert(j.subrange(0, elems[0].len() as int) =~= elems[0]);
            } else {
                lemma_offset_shift(elems, sep, i);
                let o = elem_offset(rest, sep, i - 1);
                assert(rest[i - 1] == elems[i]);
                assert(j.subrange(shift + o, shift + o + elems[i].len()) =~= jr.subrange(
                    o,
                    o + elems[i].len(),
                ));
                assert(j.subrange(shift + o - sep.len(), shift + o) =~= if i == 1 {
                    sep
                } else {
                    jr.subrange(o - sep.len(), o)
                });
            }
        }
        lemma_offset_shift(elems, sep, elems.len() - 1);
    }
}

/// Round trip: splitting a text at a non-empty separator and joining the
/// tokens with the same separator restores the text exactly. Splitting
/// here is leftmost-first and non-overlapping; joining is not an inverse
/// of arbitrary other splittings, since a separator occurrence inside a
/// token would be joined back indistinguishably.
pub proof fn lemma_split_join_round_trip<A>(text: Seq<A>, sep: Seq<A>)
    requires
        sep.len() > 0,
    ensures
        join_seq(split_seq(text, sep), sep) == text,
    decreases text.len(),
{
    let i = find_sep(text, sep);
    if i < 0 || i + sep.len() > text.len() {
        assert(join_seq(seq![text], sep) =~= text);
    } else {
        lemma_find_sep_found(text, sep);
        let rest = text.skip(i + sep.len());
        lemma_split_join_round_trip(rest, sep);
        let s = split_seq(text, sep);
        assert(s =~= seq![text.take(i)] + split_seq(rest, sep));
        assert(split_seq(rest, sep).len() >= 1);
        assert(s.drop_first() =~= split_seq(rest, sep));
        lemma_join_unfold(s, sep);
        assert(s[0] == text.take(i));
        assert(join_seq(s, sep) == text.take(i) + sep + text.skip(i + sep.len()));
        assert(text.take(i) + sep + text.skip(i + sep.len()) =~= text);
    }
}

} // verus!
