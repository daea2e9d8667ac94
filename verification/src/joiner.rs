//! The deferred-computation object: a [`Joiner`] captures a sequence
//! cursor and a separator, and defers all work until one of its terminal
//! operations is called.

use vstd::prelude::*;
use vstd::utf8::encode_utf8;

use crate::cursor::Cursor;
use crate::cursor::DisplayIter;
use crate::cursor::DupCursor;
use crate::cursor::SliceCursor;
use crate::cursor::VecCursor;
use crate::model::join_seq;
use crate::model::lemma_encode_utf8_concat;
use crate::model::lemma_partial_write;
use crate::model::tail_join;
use crate::render::DisplayWrapper;
use crate::render::Render;
use crate::render::StrLike;
use crate::sink::ByteSink;
use crate::sink::SinkError;
use crate::sink::TextSink;

verus! {

/// Captures a sequence cursor and a separator for later joining.
///
/// Every consumption operation produces the same text: the elements still
/// on the cursor in pull order, with one copy of the separator's text
/// strictly between each two consecutive elements and nowhere else.
pub struct Joiner<C: Cursor, S: Render> {
    cursor: C,
    sep: S,
}

impl<C: Cursor, S: Render> Joiner<C, S> {
    /// The texts of the elements this joiner will emit, in order.
    pub closed spec fn texts(&self) -> Seq<Seq<char>> {
        self.cursor.remaining()
    }

    /// The text of the separator.
    pub closed spec fn sep_text(&self) -> Seq<char> {
        self.sep.text()
    }

    /// The complete text this joiner renders to.
    pub open spec fn joined(&self) -> Seq<char> {
        join_seq(self.texts(), self.sep_text())
    }

    /// Create a joiner over the given cursor and separator. Always
    /// succeeds; an empty cursor is valid and joins to the empty text.
    pub fn new(cursor: C, sep: S) -> (r: Self)
        ensures
            r.texts() == cursor.remaining(),
            r.sep_text() == sep.text(),
    {
        Joiner { cursor, sep }
    }

    /// Consume the cursor and return the joined elements as a new string.
    /// Never fails: writing into an in-memory buffer cannot fail.
    pub fn into_string(self) -> (r: String)
        ensures
            r@ == self.joined(),
    {
        let Joiner { cursor, sep } = self;
        drain(cursor, &sep)
    }

    /// Consume the cursor and write the joined elements incrementally into
    /// a text sink. Fails if and only if the sink reports a write failure,
    /// which is propagated at once, so a sink that cannot fail is owed an
    /// `Ok` result; the text written up to a failure — a prefix of the
    /// joined text — stays visible in the sink.
    pub fn write_fmt<W: TextSink>(self, writer: &mut W) -> (r: Result<(), SinkError>)
        ensures
            W::infallible() ==> r is Ok,
            self.texts().len() == 0 ==> r is Ok,
            r is Ok ==> final(writer).content() == old(writer).content() + self.joined(),
            r is Err ==> exists|n: int|
                0 <= n <= self.joined().len() && final(writer).content() == old(
                    writer,
                ).content() + self.joined().take(n),
    {
        let Joiner { cursor, sep } = self;
        let r = pour(cursor, &sep, writer);
        proof {
            if r is Err {
                let jt = join_seq(cursor.remaining(), sep.text());
                let n = choose|n: int|
                    0 <= n <= jt.len() && writer.content() == old(writer).content() + jt.take(n);
                assert(0 <= n <= self.joined().len() && writer.content() == old(
                    writer,
                ).content() + self.joined().take(n));
            }
        }
        r
    }

    /// Consume the cursor and write the joined elements, UTF-8 encoded,
    /// incrementally into a byte sink. Fails if and only if the sink
    /// reports a write failure, which is propagated at once, so a sink
    /// that cannot fail is owed an `Ok` result; the bytes written up to a
    /// failure — a prefix of the encoded joined text — stay visible in the
    /// sink.
    pub fn write_io<W: ByteSink>(self, writer: &mut W) -> (r: Result<(), SinkError>)
        ensures
            W::infallible() ==> r is Ok,
            self.texts().len() == 0 ==> r is Ok,
            r is Ok ==> final(writer).content() == old(writer).content() + encode_utf8(
                self.joined(),
            ),
            r is Err ==> exists|n: int|
                0 <= n <= encode_utf8(self.joined()).len() && final(writer).content() == old(
                    writer,
                ).content() + encode_utf8(self.joined()).take(n),
    {
        let ghost full = self.joined();
        let ghost base = writer.content();
        let Joiner { cursor, sep } = self;
        let mut cur = cursor;
        match cur.next() {
            None => {
                proof {
                    assert(writer.content() =~= base + encode_utf8(full));
                }
                Ok(())
            },
            Some(first) => {
                let ghost rest0 = tail_join(cur.remaining(), sep.text());
                if let Err(e) = writer.put_bytes(first.as_str().as_bytes()) {
                    proof {
                        let k = choose|k: int|
                            0 <= k <= encode_utf8(first@).len() && writer.content() == base
                                + encode_utf8(first@).take(k);
                        lemma_encode_utf8_concat(first@, rest0);
                        assert(full =~= first@ + rest0);
                        assert(encode_utf8(full) =~= Seq::<u8>::empty() + encode_utf8(first@)
                            + encode_utf8(rest0));
                        assert(writer.content() =~= base + Seq::<u8>::empty() + encode_utf8(
                            first@,
                        ).take(k));
                        lemma_partial_write(
                            base,
                            Seq::<u8>::empty(),
                            encode_utf8(first@),
                            encode_utf8(rest0),
                            encode_utf8(full),
                            writer.content(),
                            k,
                        );
                    }
                    return Err(e);
                }
                let ghost mut written = first@;
                proof {
                    assert(writer.content() =~= base + encode_utf8(written));
                    assert(written + tail_join(cur.remaining(), sep.text()) =~= full);
                }
                loop
                    invariant
                        base == old(writer).content(),
                        self.texts().len() > 0,
                        full == self.joined(),
                        writer.content() == base + encode_utf8(written),
                        written + tail_join(cur.remaining(), sep.text()) == full,
                    ensures
                        writer.content() == base + encode_utf8(full),
                    decreases cur.remaining().len(),
                {
                    let ghost before = cur.remaining();
                    match cur.next() {
                        None => {
                            proof {
                                assert(written =~= written + tail_join(before, sep.text()));
                            }
                            break ;
                        },
                        Some(item) => {
                            let ghost tail_rest = tail_join(cur.remaining(), sep.text());
                            proof {
                                assert(full =~= written + sep.text() + (item@ + tail_rest));
                                assert(full =~= written + (sep.text() + (item@ + tail_rest)));
                                lemma_encode_utf8_concat(written, sep.text() + (item@ + tail_rest));
                                lemma_encode_utf8_concat(sep.text(), item@ + tail_rest);
                                assert(encode_utf8(full) =~= encode_utf8(written) + encode_utf8(
                                    sep.text(),
                                ) + encode_utf8(item@ + tail_rest));
                            }
                            let sep_str = sep.render();
                            if let Err(e) = writer.put_bytes(sep_str.as_str().as_bytes()) {
                                proof {
                                    let k = choose|k: int|
                                        0 <= k <= encode_utf8(sep.text()).len() && writer.content()
                                            == (base + encode_utf8(written)) + encode_utf8(
                                            sep.text(),
                                        ).take(k);
                                    assert(writer.content() =~= base + encode_utf8(written)
                                        + encode_utf8(sep.text()).take(k));
                                    lemma_partial_write(
                                        base,
                                        encode_utf8(written),
                                        encode_utf8(sep.text()),
                                        encode_utf8(item@ + tail_rest),
                                        encode_utf8(full),
                                        writer.content(),
                                        k,
                                    );
                                }
                                return Err(e);
                            }
                            proof {
                                lemma_encode_utf8_concat(written, sep.text());
                                written = written + sep.text();
                                assert(writer.content() =~= base + encode_utf8(written));
                                assert(full =~= written + item@ + tail_rest);
                                assert(full =~= written + (item@ + tail_rest));
                                lemma_encode_utf8_concat(written, item@ + tail_rest);
                                lemma_encode_utf8_concat(item@, tail_rest);
                                assert(encode_utf8(full) =~= encode_utf8(written) + encode_utf8(
                                    item@,
                                ) + encode_utf8(tail_rest));
                            }
                            if let Err(e) = writer.put_bytes(item.as_str().as_bytes()) {
                                proof {
                                    let k = choose|k: int|
                                        0 <= k <= encode_utf8(item@).len() && writer.content() == (
                                        base + encode_utf8(written)) + encode_utf8(item@).take(k);
                                    assert(writer.content() =~= base + encode_utf8(written)
                                        + encode_utf8(item@).take(k));
                                    lemma_partial_write(
                                        base,
                                        encode_utf8(written),
                                        encode_utf8(item@),
                                        encode_utf8(tail_rest),
                                        encode_utf8(full),
                                        writer.content(),
                                        k,
                                    );
                                }
                                return Err(e);
                            }
                            proof {
                                lemma_encode_utf8_concat(written, item@);
                                written = written + item@;
                                assert(writer.content() =~= base + encode_utf8(written));
                            }
                        },
                    }
                }
                Ok(())
            },
        }
    }
}

/// A joiner converts into an owned text value by rendering.
impl<C: Cursor, S: Render> From<Joiner<C, S>> for String {
    fn from(value: Joiner<C, S>) -> (r: String)
        ensures
            r@ == value.joined(),
    {
        value.into_string()
    }
}

impl<C: Cursor, S: Render> vstd::std_specs::convert::FromSpecImpl<Joiner<C, S>> for String {
    open spec fn obeys_from_spec() -> bool {
        false
    }

    open spec fn from_spec(v: Joiner<C, S>) -> String {
        arbitrary()
    }
}

impl<C: DupCursor, S: Render> Joiner<C, S> {
    /// Render the joined elements without consuming the joiner, by
    /// duplicating the cursor and replaying it. Available exactly when the
    /// cursor supports cheap duplication.
    pub fn display_string(&self) -> (r: String)
        ensures
            r@ == self.joined(),
    {
        drain(self.cursor.duplicate(), &self.sep)
    }

    /// Duplicate the joiner without consuming it: the copy replays the
    /// same elements, with the separator carried over as its rendered
    /// text. Available exactly when the cursor supports cheap duplication.
    pub fn duplicate(&self) -> (r: Joiner<C, String>)
        ensures
            r.texts() == self.texts(),
            r.sep_text() == self.sep_text(),
    {
        Joiner { cursor: self.cursor.duplicate(), sep: self.sep.render() }
    }

    /// Write the joined elements into a text sink without consuming the
    /// joiner, by duplicating the cursor and replaying it: the direct
    /// rendering mode, with the same contract as [`Joiner::write_fmt`].
    /// Available exactly when the cursor supports cheap duplication.
    pub fn write_display<W: TextSink>(&self, writer: &mut W) -> (r: Result<(), SinkError>)
        ensures
            W::infallible() ==> r is Ok,
            self.texts().len() == 0 ==> r is Ok,
            r is Ok ==> final(writer).content() == old(writer).content() + self.joined(),
            r is Err ==> exists|n: int|
                0 <= n <= self.joined().len() && final(writer).content() == old(
                    writer,
                ).content() + self.joined().take(n),
    {
        let replay = self.cursor.duplicate();
        let r = pour(replay, &self.sep, writer);
        proof {
            if r is Err {
                let jt = join_seq(replay.remaining(), self.sep.text());
                let n = choose|n: int|
                    0 <= n <= jt.len() && writer.content() == old(writer).content() + jt.take(n);
                assert(0 <= n <= self.joined().len() && writer.content() == old(
                    writer,
                ).content() + self.joined().take(n));
            }
        }
        r
    }
}

/// A joiner over a duplicable cursor is itself a displayable value: it can
/// stand wherever an element or a separator is expected, rendering to its
/// joined text by replaying the cursor.
impl<C: DupCursor, S: Render> Render for Joiner<C, S> {
    open spec fn text(&self) -> Seq<char> {
        self.joined()
    }

    fn render(&self) -> (r: String) {
        self.display_string()
    }
}

/// Anything that can hand its elements to a sequence cursor and be joined:
/// vectors and borrowed vectors of displayable elements, optional values
/// and result values treated as sequences of zero or one element, and the
/// cursors themselves.
pub trait Join: Sized {
    /// The cursor type this source turns into.
    type Cur: Cursor;

    /// The texts of this source's elements, in traversal order.
    spec fn elem_texts(&self) -> Seq<Seq<char>>;

    /// Join the elements, interspersing the separator between all of them.
    fn join<S: Render>(self, sep: S) -> (r: Joiner<Self::Cur, S>)
        ensures
            r.texts() == self.elem_texts(),
            r.sep_text() == sep.text(),
    ;
}

impl<E: Render> Join for Vec<E> {
    type Cur = VecCursor<E>;

    open spec fn elem_texts(&self) -> Seq<Seq<char>> {
        self@.map_values(|e: E| e.text())
    }

    fn join<S: Render>(self, sep: S) -> (r: Joiner<VecCursor<E>, S>) {
        Joiner::new(VecCursor::new(self), sep)
    }
}

impl<'a, E: Render> Join for &'a Vec<E> {
    type Cur = SliceCursor<'a, E>;

    open spec fn elem_texts(&self) -> Seq<Seq<char>> {
        (**self)@.map_values(|e: E| e.text())
    }

    fn join<S: Render>(self, sep: S) -> (r: Joiner<SliceCursor<'a, E>, S>) {
        Joiner::new(SliceCursor::new(self), sep)
    }
}

/// An optional value joins as a sequence of zero or one element.
impl<E: Render> Join for Option<E> {
    type Cur = VecCursor<E>;

    open spec fn elem_texts(&self) -> Seq<Seq<char>> {
        match self {
            Some(e) => seq![e.text()],
            None => Seq::empty(),
        }
    }

    fn join<S: Render>(self, sep: S) -> (r: Joiner<VecCursor<E>, S>) {
        let mut items: Vec<E> = Vec::new();
        match self {
            Some(e) => {
                items.push(e);
                proof {
                    assert(items@.map_values(|x: E| x.text()) =~= self.elem_texts());
                }
            },
            None => {
                proof {
                    assert(items@.map_values(|x: E| x.text()) =~= self.elem_texts());
                }
            },
        }
        Joiner::new(VecCursor::new(items), sep)
    }
}

/// A result value joins as a sequence holding only the success value, if
/// any.
impl<E: Render, F> Join for Result<E, F> {
    type Cur = VecCursor<E>;

    open spec fn elem_texts(&self) -> Seq<Seq<char>> {
        match self {
            Ok(e) => seq![e.text()],
            Err(_) => Seq::empty(),
        }
    }

    fn join<S: Render>(self, sep: S) -> (r: Joiner<VecCursor<E>, S>) {
        let mut items: Vec<E> = Vec::new();
        match self {
            Ok(e) => {
                items.push(e);
                proof {
                    assert(items@.map_values(|x: E| x.text()) =~= self.elem_texts());
                }
            },
            Err(_) => {
                proof {
                    assert(items@.map_values(|x: E| x.text()) =~= self.elem_texts());
                }
            },
        }
        Joiner::new(VecCursor::new(items), sep)
    }
}

/// A cursor is itself a joinable source.
impl<E: Render> Join for VecCursor<E> {
    type Cur = VecCursor<E>;

    open spec fn elem_texts(&self) -> Seq<Seq<char>> {
        self.remaining()
    }

    fn join<S: Render>(self, sep: S) -> (r: Joiner<VecCursor<E>, S>) {
        Joiner::new(self, sep)
    }
}

impl<'a, E: Render> Join for SliceCursor<'a, E> {
    type Cur = SliceCursor<'a, E>;

    open spec fn elem_texts(&self) -> Seq<Seq<char>> {
        self.remaining()
    }

    fn join<S: Render>(self, sep: S) -> (r: Joiner<SliceCursor<'a, E>, S>) {
        Joiner::new(self, sep)
    }
}

impl<'a, T: StrLike> Join for DisplayIter<'a, T> {
    type Cur = DisplayIter<'a, T>;

    open spec fn elem_texts(&self) -> Seq<Seq<char>> {
        self.remaining()
    }

    fn join<S: Render>(self, sep: S) -> (r: Joiner<DisplayIter<'a, T>, S>) {
        Joiner::new(self, sep)
    }
}

/// Join anything that implements [`Join`]. The elements and the separator
/// render through the display capability.
pub fn join<T: Join, S: Render>(elements: T, sep: S) -> (r: Joiner<T::Cur, S>)
    ensures
        r.texts() == elements.elem_texts(),
        r.sep_text() == sep.text(),
{
    elements.join(sep)
}

/// Join elements that only expose the string-borrowing capability, with a
/// separator of the same kind: both are coerced into the display
/// capability at read time.
pub fn join_str<'a, T: StrLike, S: StrLike>(elements: &'a Vec<T>, sep: S) -> (r: Joiner<
    DisplayIter<'a, T>,
    DisplayWrapper<S>,
>)
    ensures
        r.texts() == elements@.map_values(|e: T| e.str_text()),
        r.sep_text() == sep.str_text(),
{
    Joiner::new(DisplayIter::new(elements), DisplayWrapper::new(sep))
}

/// Pull every element off the cursor and write the joined text into the
/// sink piece by piece: the first element's text, then separator and
/// element text for each further element, stopping at the first write
/// failure.
fn pour<C: Cursor, S: Render, W: TextSink>(cursor: C, sep: &S, writer: &mut W) -> (r: Result<
    (),
    SinkError,
>)
    ensures
        W::infallible() ==> r is Ok,
        cursor.remaining().len() == 0 ==> r is Ok,
        r is Ok ==> final(writer).content() == old(writer).content() + join_seq(
            cursor.remaining(),
            sep.text(),
        ),
        r is Err ==> exists|n: int|
            0 <= n <= join_seq(cursor.remaining(), sep.text()).len() && final(writer).content()
                == old(writer).content() + join_seq(cursor.remaining(), sep.text()).take(n),
{
        let ghost full = join_seq(cursor.remaining(), sep.text());
        let ghost base = writer.content();
        let mut cur = cursor;
        match cur.next() {
            None => {
                proof {
                    assert(writer.content() =~= base + full);
                }
                Ok(())
            },
            Some(first) => {
                let ghost rest0 = tail_join(cur.remaining(), sep.text());
                if let Err(e) = writer.put_str(first.as_str()) {
                    proof {
                        let k = choose|k: int|
                            0 <= k <= first@.len() && writer.content() == base + first@.take(k);
                        assert(writer.content() =~= base + Seq::<char>::empty() + first@.take(k));
                        assert(full =~= Seq::<char>::empty() + first@ + rest0);
                        lemma_partial_write(
                            base,
                            Seq::<char>::empty(),
                            first@,
                            rest0,
                            full,
                            writer.content(),
                            k,
                        );
                    }
                    return Err(e);
                }
                let ghost mut written = first@;
                proof {
                    assert(writer.content() =~= base + written);
                    assert(written + tail_join(cur.remaining(), sep.text()) =~= full);
                }
                loop
                    invariant
                        base == old(writer).content(),
                        cursor.remaining().len() > 0,
                        full == join_seq(cursor.remaining(), sep.text()),
                        writer.content() == base + written,
                        written + tail_join(cur.remaining(), sep.text()) == full,
                    ensures
                        writer.content() == base + full,
                    decreases cur.remaining().len(),
                {
                    let ghost before = cur.remaining();
                    match cur.next() {
                        None => {
                            proof {
                                assert(written =~= written + tail_join(before, sep.text()));
                            }
                            break ;
                        },
                        Some(item) => {
                            let ghost tail_rest = tail_join(cur.remaining(), sep.text());
                            proof {
                                assert(full =~= written + sep.text() + (item@ + tail_rest));
                            }
                            let sep_str = sep.render();
                            if let Err(e) = writer.put_str(sep_str.as_str()) {
                                proof {
                                    let k = choose|k: int|
                                        0 <= k <= sep.text().len() && writer.content() == (base
                                            + written) + sep.text().take(k);
                                    assert(writer.content() =~= base + written + sep.text().take(
                                        k,
                                    ));
                                    lemma_partial_write(
                                        base,
                                        written,
                                        sep.text(),
                                        item@ + tail_rest,
                                        full,
                                        writer.content(),
                                        k,
                                    );
                                }
                                return Err(e);
                            }
                            proof {
                                written = written + sep.text();
                                assert(writer.content() =~= base + written);
                                assert(full =~= written + item@ + tail_rest);
                            }
                            if let Err(e) = writer.put_str(item.as_str()) {
                                proof {
                                    let k = choose|k: int|
                                        0 <= k <= item@.len() && writer.content() == (base
                                            + written) + item@.take(k);
                                    assert(writer.content() =~= base + written + item@.take(k));
                                    lemma_partial_write(
                                        base,
                                        written,
                                        item@,
                                        tail_rest,
                                        full,
                                        writer.content(),
                                        k,
                                    );
                                }
                                return Err(e);
                            }
                            proof {
                                written = written + item@;
                                assert(writer.content() =~= base + written);
                            }
                        },
                    }
                }
                Ok(())
            },
        }
    }


/// Pull every element off the cursor and join the texts into one string:
/// the first element's text, then separator and element text for each
/// further element.
fn drain<C: Cursor, S: Render>(cursor: C, sep: &S) -> (r: String)
    ensures
        r@ == join_seq(cursor.remaining(), sep.text()),
{
    let ghost full = join_seq(cursor.remaining(), sep.text());
    let mut cur = cursor;
    let mut result = String::new();
    match cur.next() {
        None => result,
        Some(first) => {
            result.append(first.as_str());
            proof {
                assert(result@ + tail_join(cur.remaining(), sep.text()) =~= full);
            }
            loop
                invariant
                    result@ + tail_join(cur.remaining(), sep.text()) == full,
                ensures
                    result@ == full,
                decreases cur.remaining().len(),
            {
                let ghost before = cur.remaining();
                match cur.next() {
                    None => {
                        proof {
                            assert(result@ =~= result@ + tail_join(before, sep.text()));
                        }
                        break ;
                    },
                    Some(item) => {
                        let ghost prev = result@;
                        let sep_str = sep.render();
                        result.append(sep_str.as_str());
                        result.append(item.as_str());
                        proof {
                            assert(result@ + tail_join(cur.remaining(), sep.text()) =~= prev
                                + tail_join(before, sep.text()));
                        }
                    },
                }
            }
            result
        },
    }
}

} // verus!


