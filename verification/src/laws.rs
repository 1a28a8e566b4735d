//! What holds of every run of calls on a queue, stated over the sequence
//! model that the queue's contracts use.

use crate::queue::{dequeued, enqueued, front, has_room, Q_CAPACITY};
use vstd::prelude::*;

verus! {

/// One call that changes a queue.
pub enum Op<T> {
    Enqueue(T),
    Dequeue,
}

/// The contents after one call on contents `s`.
pub open spec fn step<T>(s: Seq<T>, op: Op<T>) -> Seq<T> {
    match op {
        Op::Enqueue(item) => enqueued(s, item),
        Op::Dequeue => dequeued(s),
    }
}

/// The contents after the calls `ops`, in order, on contents `s`.
pub open spec fn run<T>(s: Seq<T>, ops: Seq<Op<T>>) -> Seq<T>
    decreases ops.len(),
{
    if ops.len() == 0 {
        s
    } else {
        step(run(s, ops.drop_last()), ops.last())
    }
}

/// How many of the calls `ops` on contents `s` were enqueues that the queue
/// accepted.
pub open spec fn accepted<T>(s: Seq<T>, ops: Seq<Op<T>>) -> nat
    decreases ops.len(),
{
    if ops.len() == 0 {
        0
    } else {
        let before = run(s, ops.drop_last());
        let earlier = accepted(s, ops.drop_last());
        if ops.last() is Enqueue && has_room(before) {
            earlier + 1
        } else {
            earlier
        }
    }
}

/// How many of the calls `ops` on contents `s` were dequeues that returned
/// an element.
pub open spec fn returned<T>(s: Seq<T>, ops: Seq<Op<T>>) -> nat
    decreases ops.len(),
{
    if ops.len() == 0 {
        0
    } else {
        let before = run(s, ops.drop_last());
        let earlier = returned(s, ops.drop_last());
        if ops.last() is Dequeue && front(before) is Some {
            earlier + 1
        } else {
            earlier
        }
    }
}

/// The contents after enqueuing each element of `items`, in order, on
/// contents `s`.
pub open spec fn enqueued_all<T>(s: Seq<T>, items: Seq<T>) -> Seq<T>
    decreases items.len(),
{
    if items.len() == 0 {
        s
    } else {
        enqueued(enqueued_all(s, items.drop_last()), items.last())
    }
}

/// The contents after `n` dequeues on contents `s`.
pub open spec fn dequeued_times<T>(s: Seq<T>, n: nat) -> Seq<T>
    decreases n,
{
    if n == 0 {
        s
    } else {
        dequeued(dequeued_times(s, (n - 1) as nat))
    }
}

/// The contents after enqueuing and at once dequeuing each element of
/// `items`, in order, on contents `s`.
pub open spec fn cycled<T>(s: Seq<T>, items: Seq<T>) -> Seq<T>
    decreases items.len(),
{
    if items.len() == 0 {
        s
    } else {
        dequeued(enqueued(cycled(s, items.drop_last()), items.last()))
    }
}

/// No run of calls takes a queue to `Q_CAPACITY` elements or beyond.
pub proof fn lemma_run_stays_bounded<T>(s: Seq<T>, ops: Seq<Op<T>>)
    requires
        s.len() < Q_CAPACITY,
    ensures
        run(s, ops).len() < Q_CAPACITY,
    decreases ops.len(),
{
    if ops.len() > 0 {
        lemma_run_stays_bounded(s, ops.drop_last());
    }
}

/// After any run of calls the queue holds what it held before, plus one
/// element for each accepted enqueue, less one for each dequeue that returned
/// an element. Started empty, it is empty again exactly when the two numbers
/// are equal.
pub proof fn lemma_count_is_accepted_less_returned<T>(s: Seq<T>, ops: Seq<Op<T>>)
    ensures
        run(s, ops).len() == s.len() + accepted(s, ops) - returned(s, ops),
        s.len() == 0 ==> (run(s, ops).len() == 0 <==> accepted(s, ops) == returned(s, ops)),
    decreases ops.len(),
{
    if ops.len() > 0 {
        lemma_count_is_accepted_less_returned(s, ops.drop_last());
    }
}

/// A queue accepts enqueues as long as it holds fewer than `Q_CAPACITY - 1`
/// elements, and refuses every one after that: of `items`, exactly the first
/// `Q_CAPACITY - 1 - s.len()` are taken, in order, behind what was there.
pub proof fn lemma_enqueues_fill_then_fail<T>(s: Seq<T>, items: Seq<T>)
    requires
        s.len() < Q_CAPACITY,
    ensures
        s.len() + items.len() < Q_CAPACITY ==> enqueued_all(s, items) == s + items,
        s.len() + items.len() >= Q_CAPACITY ==> enqueued_all(s, items) == s + items.take(
            Q_CAPACITY - 1 - s.len(),
        ),
        s.len() + items.len() + 1 >= Q_CAPACITY ==> !has_room(enqueued_all(s, items)),
        items.len() > 0 ==> enqueued_all(s, items).len() > 0,
    decreases items.len(),
{
    if items.len() > 0 {
        lemma_enqueues_fill_then_fail(s, items.drop_last());
    }
}

/// Dequeuing `n` times removes the `n` oldest elements, or all of them if
/// there are fewer.
pub proof fn lemma_dequeues_skip<T>(s: Seq<T>, n: nat)
    ensures
        n <= s.len() ==> dequeued_times(s, n) == s.skip(n as int),
        n >= s.len() ==> dequeued_times(s, n) == Seq::<T>::empty(),
    decreases n,
{
    if n > 0 {
        lemma_dequeues_skip(s, (n - 1) as nat);
    }
}

/// The element at the front after `k` dequeues is the one that was at place
/// `k`; past the last element there is none. A cursor yields the contents in
/// this order and then stops.
pub proof fn lemma_front_after_dequeues<T>(s: Seq<T>, k: nat)
    ensures
        k < s.len() ==> front(dequeued_times(s, k)) == Some(s[k as int]),
        k >= s.len() ==> front(dequeued_times(s, k)) is None,
{
    lemma_dequeues_skip(s, k);
}

/// First in, first out: after `items` have been enqueued on an empty queue
/// that can hold them all, the dequeue that follows `k` others returns
/// `items[k]`.
pub proof fn lemma_first_in_first_out<T>(items: Seq<T>, k: nat)
    requires
        items.len() < Q_CAPACITY,
        k < items.len(),
    ensures
        front(dequeued_times(enqueued_all(Seq::<T>::empty(), items), k)) == Some(items[k as int]),
{
    lemma_enqueues_fill_then_fail(Seq::<T>::empty(), items);
    lemma_front_after_dequeues(items, k);
}

/// Once every element has been dequeued the queue is empty, and a further
/// dequeue returns nothing and changes nothing.
pub proof fn lemma_drained_is_empty<T>(s: Seq<T>)
    ensures
        dequeued_times(s, s.len()) == Seq::<T>::empty(),
        front(dequeued_times(s, s.len())) is None,
        dequeued(dequeued_times(s, s.len())) == dequeued_times(s, s.len()),
{
    lemma_dequeues_skip(s, s.len());
}

/// Slots are used again: on an empty queue, an enqueue followed at once by a
/// dequeue is accepted, returns the element just enqueued and leaves the
/// queue empty, however many such pairs came before.
pub proof fn lemma_pairs_recycle<T>(earlier: Seq<T>, item: T)
    ensures
        cycled(Seq::<T>::empty(), earlier) == Seq::<T>::empty(),
        has_room(cycled(Seq::<T>::empty(), earlier)),
        front(enqueued(cycled(Seq::<T>::empty(), earlier), item)) == Some(item),
        cycled(Seq::<T>::empty(), earlier.push(item)) == Seq::<T>::empty(),
    decreases earlier.len(),
{
    if earlier.len() > 0 {
        lemma_pairs_recycle(earlier.drop_last(), earlier.last());
    }
    assert(earlier.push(item).drop_last() =~= earlier);
}

} // verus!
