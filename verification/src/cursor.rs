//! Sequence cursors: single-pass traversal handles that yield the rendered
//! text of one element per pull, and the duplication capability for cursors
//! whose position can be copied without copying the underlying data.

use vstd::prelude::*;

use crate::render::Render;
use crate::render::StrLike;

verus! {

/// A single-pass cursor over a sequence of displayable elements.
///
/// `remaining` is the sequence of texts of the elements not yet pulled;
/// each pull renders the front element and advances past it, so every
/// element is visited at most once per traversal.
pub trait Cursor: Sized {
    /// The texts of the elements still to be pulled, in pull order.
    spec fn remaining(&self) -> Seq<Seq<char>>;

    /// Pull the next element, rendered as text; `None` once the cursor is
    /// exhausted.
    fn next(&mut self) -> (r: Option<String>)
        ensures
            old(self).remaining().len() == 0 ==> {
                &&& r is None
                &&& final(self).remaining() == old(self).remaining()
            },
            old(self).remaining().len() > 0 ==> {
                &&& r is Some
                &&& r->0@ == old(self).remaining()[0]
                &&& final(self).remaining() == old(self).remaining().drop_first()
            },
    ;
}

/// A cursor whose position can be duplicated cheaply: the copy replays the
/// same elements without the original losing its place, and without the
/// underlying data being copied.
pub trait DupCursor: Cursor {
    /// Duplicate the cursor position.
    fn duplicate(&self) -> (r: Self)
        ensures
            r.remaining() == self.remaining(),
    ;
}

/// An owning, one-shot cursor over a vector of elements. Pulling renders
/// and removes the front element; the cursor cannot be duplicated.
pub struct VecCursor<E: Render> {
    items: Vec<E>,
}

impl<E: Render> VecCursor<E> {
    /// Take ownership of the elements and traverse them front to back.
    pub fn new(items: Vec<E>) -> (r: Self)
        ensures
            r.remaining() == items@.map_values(|e: E| e.text()),
    {
        VecCursor { items }
    }
}

impl<E: Render> Cursor for VecCursor<E> {
    closed spec fn remaining(&self) -> Seq<Seq<char>> {
        self.items@.map_values(|e: E| e.text())
    }

    fn next(&mut self) -> (r: Option<String>) {
        if self.items.len() == 0 {
            None
        } else {
            let e = self.items.remove(0);
            let s = e.render();
            proof {
                assert(self.remaining() =~= old(self).remaining().drop_first());
            }
            Some(s)
        }
    }
}

/// A borrowing cursor over a vector of elements. It holds only a position
/// into the borrowed data, so duplication copies the position and nothing
/// else.
pub struct SliceCursor<'a, E: Render> {
    items: &'a Vec<E>,
    pos: usize,
}

impl<'a, E: Render> SliceCursor<'a, E> {
    /// Traverse the borrowed elements front to back.
    pub fn new(items: &'a Vec<E>) -> (r: Self)
        ensures
            r.remaining() == items@.map_values(|e: E| e.text()),
    {
        SliceCursor { items, pos: 0 }
    }
}

impl<'a, E: Render> Cursor for SliceCursor<'a, E> {
    closed spec fn remaining(&self) -> Seq<Seq<char>> {
        if self.pos <= self.items@.len() {
            self.items@.map_values(|e: E| e.text()).skip(self.pos as int)
        } else {
            Seq::empty()
        }
    }

    fn next(&mut self) -> (r: Option<String>) {
        if self.pos >= self.items.len() {
            None
        } else {
            let s = self.items[self.pos].render();
            self.pos = self.pos + 1;
            proof {
                assert(self.remaining() =~= old(self).remaining().drop_first());
            }
            Some(s)
        }
    }
}

impl<'a, E: Render> DupCursor for SliceCursor<'a, E> {
    fn duplicate(&self) -> (r: Self) {
        SliceCursor { items: self.items, pos: self.pos }
    }
}

/// The adapter in sequence form: a borrowing cursor over string-like
/// elements that coerces each element into the display capability at read
/// time, emitting its borrowed text view. Like [`SliceCursor`] it holds
/// only a position, so it keeps the duplication capability.
pub struct DisplayIter<'a, T: StrLike> {
    items: &'a Vec<T>,
    pos: usize,
}

impl<'a, T: StrLike> DisplayIter<'a, T> {
    /// Traverse the borrowed string-like elements front to back.
    pub fn new(elements: &'a Vec<T>) -> (r: Self)
        ensures
            r.remaining() == elements@.map_values(|e: T| e.str_text()),
    {
        DisplayIter { items: elements, pos: 0 }
    }
}

impl<'a, T: StrLike> DisplayIter<'a, T> {
    /// How many elements are still to be pulled: the size-reporting
    /// capability of the borrowed source is kept through the adapter.
    pub fn len(&self) -> (n: usize)
        ensures
            n == self.remaining().len(),
    {
        self.items.len() - if self.pos < self.items.len() {
            self.pos
        } else {
            self.items.len()
        }
    }

    /// Whether the cursor is exhausted.
    pub fn is_empty(&self) -> (r: bool)
        ensures
            r == (self.remaining().len() == 0),
    {
        self.len() == 0
    }
}

impl<'a, T: StrLike> Cursor for DisplayIter<'a, T> {
    closed spec fn remaining(&self) -> Seq<Seq<char>> {
        if self.pos <= self.items@.len() {
            self.items@.map_values(|e: T| e.str_text()).skip(self.pos as int)
        } else {
            Seq::empty()
        }
    }

    fn next(&mut self) -> (r: Option<String>) {
        if self.pos >= self.items.len() {
            None
        } else {
            let s = self.items[self.pos].borrow_str().to_owned();
            self.pos = self.pos + 1;
            proof {
                assert(self.remaining() =~= old(self).remaining().drop_first());
            }
            Some(s)
        }
    }
}

impl<'a, T: StrLike> DupCursor for DisplayIter<'a, T> {
    fn duplicate(&self) -> (r: Self) {
        DisplayIter { items: self.items, pos: self.pos }
    }
}

} // verus!
