//! A bounded, wrapping cursor over a list of items. The cursor stays inside
//! the list whenever the list is non-empty, wraps at both ends when moved,
//! and is re-clamped when the list is replaced.

use vstd::prelude::*;

verus! {

/// A selection over an ordered collection of items: the highlighted index
/// can be read, moved down (`increase`) or up (`decrease`) with wrap-around,
/// and the highlighted item can be borrowed.
pub trait Cursor<T>: Sized {
    /// The items currently held, in display order.
    spec fn items(&self) -> Seq<T>;

    /// The highlighted index.
    spec fn position(&self) -> int;

    /// The cursor is inside the list, or parked at zero when the list is empty.
    spec fn inv(&self) -> bool;

    fn cursor(&self) -> (r: usize)
        requires
            self.inv(),
        ensures
            r == self.position(),
    ;

    fn at_cursor(&self) -> (r: &T)
        requires
            self.inv(),
            self.items().len() > 0,
        ensures
            *r == self.items()[self.position()],
    ;

    fn increase(&mut self)
        requires
            old(self).inv(),
            old(self).items().len() > 0,
        ensures
            final(self).inv(),
            final(self).items() == old(self).items(),
            final(self).position() == (old(self).position() + 1) % (old(self).items().len() as int),
    ;

    fn decrease(&mut self)
        requires
            old(self).inv(),
        ensures
            final(self).inv(),
            final(self).items() == old(self).items(),
            final(self).position() == (if old(self).items().len() == 0 {
                0int
            } else if old(self).position() == 0 {
                old(self).items().len() - 1
            } else {
                old(self).position() - 1
            }),
    ;
}

/// A `Cursor` backed by a `Vec`.
pub struct VecCursor<T> {
    cursor: usize,
    list: Vec<T>,
}

impl<T> Cursor<T> for VecCursor<T> {
    closed spec fn items(&self) -> Seq<T> {
        self.list@
    }

    closed spec fn position(&self) -> int {
        self.cursor as int
    }

    closed spec fn inv(&self) -> bool {
        if self.list@.len() == 0 {
            self.cursor == 0
        } else {
            self.cursor < self.list@.len()
        }
    }

    fn cursor(&self) -> (r: usize) {
        self.cursor
    }

    fn at_cursor(&self) -> (r: &T) {
        &self.list[self.cursor]
    }

    fn increase(&mut self) {
        let n: usize = self.list.len();
        self.cursor = (self.cursor + 1) % n;
    }

    fn decrease(&mut self) {
        if self.list.is_empty() {
            self.cursor = 0;
        } else if self.cursor == 0 {
            self.cursor = self.list.len() - 1;
        } else {
            self.cursor = self.cursor - 1;
        }
    }
}

impl<T> VecCursor<T> {
    /// A cursor parked at index zero over the given items.
    pub fn new(list: Vec<T>) -> (r: Self)
        ensures
            r.inv(),
            r.items() == list@,
            r.position() == 0,
    {
        Self { cursor: 0, list }
    }

    /// Replace the items wholesale; the cursor keeps its index when it is
    /// still inside the new list, and is clamped to the last item (or to
    /// zero, when the new list is empty) otherwise.
    pub fn substitute(&mut self, items: Vec<T>)
        requires
            old(self).inv(),
        ensures
            final(self).inv(),
            final(self).items() == items@,
            final(self).position() == (if items@.len() == 0 {
                0int
            } else if old(self).position() >= items@.len() {
                items@.len() - 1
            } else {
                old(self).position()
            }),
    {
        self.list = items;

        if self.list.is_empty() {
            self.cursor = 0;
        } else if self.cursor >= self.list.len() {
            self.cursor = self.list.len() - 1;
        }
    }

    /// What the invariant pins down about the position: inside the list
    /// whenever the list is non-empty, and parked at zero otherwise.
    pub proof fn lemma_inv_bounds(&self)
        requires
            self.inv(),
        ensures
            0 <= self.position(),
            self.items().len() == 0 ==> self.position() == 0,
            self.items().len() > 0 ==> self.position() < self.items().len(),
    {
    }

    /// Borrow the item at a given index.
    pub fn get(&self, i: usize) -> (r: &T)
        requires
            i < self.items().len(),
        ensures
            *r == self.items()[i as int],
    {
        &self.list[i]
    }

    pub fn as_slice(&self) -> (r: &[T])
        ensures
            r@ == self.items(),
    {
        self.list.as_slice()
    }

    pub fn as_slice_mut(&mut self) -> (r: &mut [T])
        ensures
            r@ == old(self).items(),
            final(self).items() == final(r)@,
            final(self).position() == old(self).position(),
            final(r)@.len() == old(self).items().len() && old(self).inv() ==> final(self).inv(),
    {
        self.list.as_mut_slice()
    }
}

} // verus!
