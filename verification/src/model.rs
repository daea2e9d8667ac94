//! The mathematical model of joining: what the rendered output of a joiner
//! is, as a function of the element texts and the separator text.

use vstd::prelude::*;
use vstd::utf8::encode_utf8;

verus! {

/// The text of a joined sequence: the first element's text, then for each
/// further element the separator followed by that element's text. An empty
/// sequence joins to the empty text.
pub open spec fn join_seq<A>(elems: Seq<Seq<A>>, sep: Seq<A>) -> Seq<A>
    decreases elems.len(),
{
    if elems.len() == 0 {
        Seq::empty()
    } else {
        elems[0] + tail_join(elems.drop_first(), sep)
    }
}

/// The part of a joined text contributed by every element after the first:
/// one copy of the separator before each of them.
pub open spec fn tail_join<A>(elems: Seq<Seq<A>>, sep: Seq<A>) -> Seq<A>
    decreases elems.len(),
{
    if elems.len() == 0 {
        Seq::empty()
    } else {
        sep + elems[0] + tail_join(elems.drop_first(), sep)
    }
}

/// For a non-empty sequence, the tail part is the separator followed by the
/// join of the whole sequence.
pub proof fn lemma_tail_join_unfold<A>(elems: Seq<Seq<A>>, sep: Seq<A>)
    requires
        elems.len() > 0,
    ensures
        tail_join(elems, sep) == sep + join_seq(elems, sep),
{
    assert(tail_join(elems, sep) =~= sep + join_seq(elems, sep));
}

/// Splitting off the first element: a join of two or more elements is the
/// first element's text, the separator, then the join of the rest.
pub proof fn lemma_join_unfold<A>(elems: Seq<Seq<A>>, sep: Seq<A>)
    requires
        elems.len() > 0,
    ensures
        join_seq(elems, sep) == if elems.len() == 1 {
            elems[0]
        } else {
            elems[0] + sep + join_seq(elems.drop_first(), sep)
        },
{
    if elems.len() == 1 {
        assert(join_seq(elems, sep) =~= elems[0]);
    } else {
        lemma_tail_join_unfold(elems.drop_first(), sep);
        assert(join_seq(elems, sep) =~= elems[0] + sep + join_seq(elems.drop_first(), sep));
    }
}

/// The position of the first occurrence of `sep` in `text`, or a negative
/// value when `sep` does not occur.
pub open spec fn find_sep<A>(text: Seq<A>, sep: Seq<A>) -> int
    decreases text.len(),
{
    if sep.len() == 0 {
        0
    } else if text.len() < sep.len() {
        -1
    } else if text.take(sep.len() as int) == sep {
        0
    } else {
        let r = find_sep(text.drop_first(), sep);
        if r < 0 {
            -1
        } else {
            r + 1
        }
    }
}

/// Where `find_sep` reports an occurrence, the separator indeed stands
/// there, within bounds.
pub proof fn lemma_find_sep_found<A>(text: Seq<A>, sep: Seq<A>)
    requires
        find_sep(text, sep) >= 0,
    ensures
        find_sep(text, sep) + sep.len() <= text.len(),
        text.subrange(find_sep(text, sep), find_sep(text, sep) + sep.len()) == sep,
    decreases text.len(),
{
    let i = find_sep(text, sep);
    if sep.len() == 0 {
        assert(text.subrange(0, 0) =~= sep);
    } else if text.len() < sep.len() {
    } else if text.take(sep.len() as int) == sep {
        assert(text.subrange(0, sep.len() as int) =~= text.take(sep.len() as int));
    } else {
        lemma_find_sep_found(text.drop_first(), sep);
        assert(text.subrange(i, i + sep.len()) =~= text.drop_first().subrange(
            i - 1,
            i - 1 + sep.len(),
        ));
    }
}

/// Split `text` at every occurrence of `sep`, leftmost first, the
/// occurrences not overlapping. The separator itself appears in no token;
/// a text without any occurrence is one single token.
pub open spec fn split_seq<A>(text: Seq<A>, sep: Seq<A>) -> Seq<Seq<A>>
    decreases text.len(),
{
    let i = find_sep(text, sep);
    if sep.len() == 0 || i < 0 || i + sep.len() > text.len() {
        seq![text]
    } else {
        seq![text.take(i)] + split_seq(text.skip(i + sep.len()), sep)
    }
}

/// After emitting `written` of a full output `written + piece + rest` and
/// then a prefix of `piece`, a sink holds its base content followed by a
/// prefix of the full output.
pub proof fn lemma_partial_write<A>(
    base: Seq<A>,
    written: Seq<A>,
    piece: Seq<A>,
    rest: Seq<A>,
    full: Seq<A>,
    content: Seq<A>,
    k: int,
)
    requires
        0 <= k <= piece.len(),
        full == written + piece + rest,
        content == base + written + piece.take(k),
    ensures
        exists|n: int| 0 <= n <= full.len() && content == base + full.take(n),
{
    let n = written.len() + k;
    assert(full.take(n) =~= written + piece.take(k));
    assert(content =~= base + full.take(n));
    assert(0 <= n <= full.len() && content == base + full.take(n));
}

/// UTF-8 encoding distributes over concatenation: the encoding of two
/// texts in a row is the encoding of the first followed by the encoding of
/// the second.
pub proof fn lemma_encode_utf8_concat(a: Seq<char>, b: Seq<char>)
    ensures
        encode_utf8(a + b) == encode_utf8(a) + encode_utf8(b),
    decreases a.len(),
{
    if a.len() == 0 {
        assert(a + b =~= b);
        assert(encode_utf8(a) + encode_utf8(b) =~= encode_utf8(b));
    } else {
        assert((a + b).drop_first() =~= a.drop_first() + b);
        lemma_encode_utf8_concat(a.drop_first(), b);
        assert(encode_utf8(a + b) =~= encode_utf8(a) + encode_utf8(b));
    }
}

} // verus!
