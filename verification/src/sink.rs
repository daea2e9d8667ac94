//! Sinks: caller-supplied destinations for incremental text or byte
//! output, and the one error the library can surface — a sink reporting a
//! write failure.

use vstd::prelude::*;

verus! {

/// A sink reported a write failure. Surfaced verbatim to the caller of the
/// writing operation; whatever was written before the failure stays
/// visible in the sink.
#[derive(Clone, Copy, PartialEq, Eq, Structural, Debug)]
pub struct SinkError;

/// A destination for incremental text output.
///
/// `content` is the text the sink holds so far. A successful write appends
/// the whole argument; a failed write appends some prefix of it, so a sink
/// only ever grows by what it was handed.
pub trait TextSink {
    /// The text written to this sink so far.
    spec fn content(&self) -> Seq<char>;

    /// Whether this sink type can never report a write failure, as an
    /// in-memory buffer cannot. An infallible sink's writes always return
    /// `Ok`, so writing operations owe it success.
    spec fn infallible() -> bool;

    /// Append a piece of text, or report a failure after appending some
    /// prefix of it.
    fn put_str(&mut self, piece: &str) -> (r: Result<(), SinkError>)
        ensures
            Self::infallible() ==> r is Ok,
            r is Ok ==> final(self).content() == old(self).content() + piece@,
            r is Err ==> exists|k: int|
                0 <= k <= piece@.len() && final(self).content() == old(self).content()
                    + piece@.take(k),
    ;
}

/// A destination for incremental byte output.
///
/// `content` is the bytes the sink holds so far, with the same growth
/// guarantee as [`TextSink`].
pub trait ByteSink {
    /// The bytes written to this sink so far.
    spec fn content(&self) -> Seq<u8>;

    /// Whether this sink type can never report a write failure, as an
    /// in-memory buffer cannot. An infallible sink's writes always return
    /// `Ok`, so writing operations owe it success.
    spec fn infallible() -> bool;

    /// Append a piece of bytes, or report a failure after appending some
    /// prefix of it.
    fn put_bytes(&mut self, piece: &[u8]) -> (r: Result<(), SinkError>)
        ensures
            Self::infallible() ==> r is Ok,
            r is Ok ==> final(self).content() == old(self).content() + piece@,
            r is Err ==> exists|k: int|
                0 <= k <= piece@.len() && final(self).content() == old(self).content()
                    + piece@.take(k),
    ;
}

/// An in-memory text buffer: writing can never fail.
impl TextSink for String {
    open spec fn content(&self) -> Seq<char> {
        self@
    }

    open spec fn infallible() -> bool {
        true
    }

    fn put_str(&mut self, piece: &str) -> (r: Result<(), SinkError>)
        ensures
            r is Ok,
    {
        self.append(piece);
        Ok(())
    }
}

/// An in-memory byte buffer: writing can never fail.
impl ByteSink for Vec<u8> {
    open spec fn content(&self) -> Seq<u8> {
        self@
    }

    open spec fn infallible() -> bool {
        true
    }

    fn put_bytes(&mut self, piece: &[u8]) -> (r: Result<(), SinkError>)
        ensures
            r is Ok,
    {
        let mut i: usize = 0;
        while i < piece.len()
            invariant
                0 <= i <= piece@.len(),
                self@ == old(self)@ + piece@.take(i as int),
            decreases piece@.len() - i,
        {
            self.push(piece[i]);
            i = i + 1;
            proof {
                assert(self@ =~= old(self)@ + piece@.take(i as int));
            }
        }
        proof {
            assert(piece@.take(piece@.len() as int) =~= piece@);
        }
        Ok(())
    }
}

} // verus!
