//! The queue, its cursor, and the sequence model that their contracts use.

use vstd::prelude::*;

verus! {

/// Number of slots in the backing buffer. One slot always stays free, so that
/// a full queue and an empty one can be told apart: a queue holds at most
/// `Q_CAPACITY - 1` elements.
pub const Q_CAPACITY: usize = 10;

/// Why an operation on a queue was refused.
#[derive(Clone, Copy, Debug, PartialEq, Eq, Structural)]
pub enum QueueError {
    /// The queue already holds `Q_CAPACITY - 1` elements.
    QueueFull,
}

/// Whether a queue whose contents are `s` accepts one more element.
pub open spec fn has_room<T>(s: Seq<T>) -> bool {
    s.len() + 1 < Q_CAPACITY
}

/// The contents after an attempt to enqueue `item` on contents `s`.
pub open spec fn enqueued<T>(s: Seq<T>, item: T) -> Seq<T> {
    if has_room(s) {
        s.push(item)
    } else {
        s
    }
}

/// The oldest element of `s`, if there is one.
pub open spec fn front<T>(s: Seq<T>) -> Option<T> {
    if s.len() > 0 {
        Some(s[0])
    } else {
        None
    }
}

/// The contents after an attempt to dequeue from contents `s`.
pub open spec fn dequeued<T>(s: Seq<T>) -> Seq<T> {
    if s.len() > 0 {
        s.drop_first()
    } else {
        s
    }
}

/// A bounded FIFO queue of `Copy` values.
///
/// Its view is the sequence of live elements, oldest first. Slots outside the
/// live range hold stale or default values, which no function hands out.
pub struct Q<T> {
    items: [T; Q_CAPACITY],
    tail: usize,
    head: usize,
}

impl<T> View for Q<T> {
    type V = Seq<T>;

    /// The slots from `head_index` up to, not including, `tail_index`, going
    /// round the buffer.
    open spec fn view(&self) -> Seq<T> {
        Seq::new(
            ((self.tail_index() - self.head_index()) % (Q_CAPACITY as int)) as nat,
            |i: int| self.slots()[(self.head_index() + i) % (Q_CAPACITY as int)],
        )
    }
}

impl<T> Q<T> {
    /// The backing buffer, slot by slot, live or not.
    pub closed spec fn slots(&self) -> Seq<T> {
        self.items@
    }

    /// Index of the slot that holds the oldest live element.
    pub closed spec fn head_index(&self) -> int {
        self.head as int
    }

    /// Index of the slot that the next enqueue writes.
    pub closed spec fn tail_index(&self) -> int {
        self.tail as int
    }

    #[verifier::type_invariant]
    closed spec fn inv(&self) -> bool {
        self.head < Q_CAPACITY && self.tail < Q_CAPACITY
    }

    /// The number of live elements.
    pub fn count(&self) -> (n: usize)
        ensures
            n == self@.len(),
            n < Q_CAPACITY,
    {
        proof {
            use_type_invariant(self);
        }
        (self.tail + Q_CAPACITY - self.head) % Q_CAPACITY
    }

    /// True iff the queue holds no element.
    pub fn empty(&self) -> (b: bool)
        ensures
            b == (self@.len() == 0),
    {
        self.count() == 0
    }

    /// Every queue, wherever its head and tail stand, holds fewer elements
    /// than the buffer has slots.
    pub proof fn lemma_len_bound(&self)
        ensures
            self@.len() < Q_CAPACITY,
    {
    }

    /// The buffer of a queue has `Q_CAPACITY` slots.
    pub proof fn lemma_slots_len(&self)
        ensures
            self.slots().len() == Q_CAPACITY,
    {
    }
}

impl<T: Default + Copy> Q<T> {
    /// An empty queue.
    pub fn new() -> (q: Self)
        ensures
            q@ == Seq::<T>::empty(),
            q.head_index() == 0,
            q.tail_index() == 0,
            forall|i: int|
                0 <= i < Q_CAPACITY ==> call_ensures(T::default, (), #[trigger] q.slots()[i]),
    {
        Q { items: [T::default(); Q_CAPACITY], tail: 0, head: 0 }
    }

    /// Appends `item` behind the newest element.
    ///
    /// A queue that already holds `Q_CAPACITY - 1` elements refuses the item
    /// with `QueueFull` and is left exactly as it was.
    pub fn enqueue(&mut self, item: T) -> (r: Result<(), QueueError>)
        ensures
            r is Ok <==> has_room(old(self)@),
            r is Err ==> r == Err::<(), QueueError>(QueueError::QueueFull) && *final(self) == *old(
                self,
            ),
            final(self)@ == enqueued(old(self)@, item),
            r is Ok ==> {
                &&& final(self).slots() == old(self).slots().update(old(self).tail_index(), item)
                &&& final(self).tail_index() == (old(self).tail_index() + 1) % (Q_CAPACITY as int)
                &&& final(self).head_index() == old(self).head_index()
            },
    {
        proof {
            use_type_invariant(&*self);
        }
        if self.count() + 1 == Q_CAPACITY {
            return Err(QueueError::QueueFull);
        }
        self.items[self.tail] = item;
        self.tail = (self.tail + 1) % Q_CAPACITY;
        Ok(())
    }

    /// Removes the oldest element and returns it, or returns `None` and
    /// leaves the queue as it was when there is no element.
    pub fn dequeue(&mut self) -> (r: Option<T>)
        ensures
            r == front(old(self)@),
            final(self)@ == dequeued(old(self)@),
            r is None ==> *final(self) == *old(self),
            r is Some ==> {
                &&& final(self).slots() == old(self).slots()
                &&& final(self).head_index() == (old(self).head_index() + 1) % (Q_CAPACITY as int)
                &&& final(self).tail_index() == old(self).tail_index()
            },
    {
        proof {
            use_type_invariant(&*self);
        }
        if self.count() == 0 {
            None
        } else {
            let val: T = self.items[self.head];
            self.head = (self.head + 1) % Q_CAPACITY;
            Some(val)
        }
    }

    /// A cursor over the live elements, oldest first, as they are at the
    /// time of the call. Each call starts again at the oldest element.
    ///
    /// The cursor borrows the queue, so the queue cannot be changed while
    /// the cursor is in use.
    pub fn iter<'r>(&'r self) -> (c: QCursor<'r, T>)
        ensures
            c@ == self@,
    {
        QCursor { q: self, position: 0 }
    }
}

/// A forward-only cursor over the live elements of a queue.
///
/// Its view is the sequence of elements still to be yielded, oldest first.
pub struct QCursor<'r, T> {
    q: &'r Q<T>,
    position: usize,
}

impl<'r, T> View for QCursor<'r, T> {
    type V = Seq<T>;

    closed spec fn view(&self) -> Seq<T> {
        self.q@.skip(self.position as int)
    }
}

impl<'r, T> QCursor<'r, T> {
    #[verifier::type_invariant]
    closed spec fn inv(&self) -> bool {
        self.position <= self.q@.len()
    }

    /// Yields the next element, or `None` once every element that was live
    /// when the cursor was made has been yielded.
    pub fn next(&mut self) -> (r: Option<&'r T>)
        ensures
            match r {
                Some(item) => front(old(self)@) == Some(*item),
                None => front(old(self)@) is None,
            },
            final(self)@ == dequeued(old(self)@),
    {
        proof {
            use_type_invariant(&*self);
            use_type_invariant(self.q);
        }
        if self.position < self.q.count() {
            let slot: usize = (self.q.head + self.position) % Q_CAPACITY;
            self.position += 1;
            Some(&self.q.items[slot])
        } else {
            None
        }
    }
}

} // verus!
