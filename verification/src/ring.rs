//! Trusted boundary around `crossbeam::queue::ArrayQueue`, the fixed-capacity
//! ring buffer that the array-queue backend rests orders in.
//!
//! The queue is opaque to the verifier; its contents and its construction-time
//! capacity are named by two uninterpreted spec functions, and each method the
//! engine calls is wrapped in a function whose contract states, over those
//! names, what the crossbeam source shows. The engine owns each queue
//! exclusively (one logical writer per symbol), so the wrappers take `&mut`
//! even though the underlying methods take `&self`.

use vstd::prelude::*;

use crate::order::Order;

verus! {

#[verifier::external_type_specification]
#[verifier::external_body]
#[verifier::reject_recursive_types(T)]
pub struct ExArrayQueue<T>(crossbeam::queue::ArrayQueue<T>);

/// The resting orders of a ring, oldest first.
pub uninterp spec fn ring_contents(q: crossbeam::queue::ArrayQueue<Order>) -> Seq<Order>;

/// The capacity the ring was constructed with.
pub uninterp spec fn ring_capacity(q: crossbeam::queue::ArrayQueue<Order>) -> nat;

/// Relies on `ArrayQueue::new`: a queue of the given capacity, initially
/// empty. `new` panics on a zero or near-`usize::MAX` capacity, so such
/// capacities are excluded here.
#[verifier::external_body]
pub(crate) fn ring_new(cap: usize) -> (q: crossbeam::queue::ArrayQueue<Order>)
    requires
        0 < cap <= 0x1000_0000,
    ensures
        ring_contents(q) == Seq::<Order>::empty(),
        ring_capacity(q) == cap,
{
    crossbeam::queue::ArrayQueue::new(cap)
}

/// Relies on `ArrayQueue::push`: appends at the tail when the queue is not
/// full, and returns the value back (here collapsed to `false`) when it is.
#[verifier::external_body]
pub(crate) fn ring_push(q: &mut crossbeam::queue::ArrayQueue<Order>, order: Order) -> (ok: bool)
    ensures
        ring_capacity(*final(q)) == ring_capacity(*old(q)),
        ok == (ring_contents(*old(q)).len() < ring_capacity(*old(q))),
        ok ==> ring_contents(*final(q)) == ring_contents(*old(q)).push(order),
        !ok ==> ring_contents(*final(q)) == ring_contents(*old(q)),
{
    q.push(order).is_ok()
}

/// Relies on `ArrayQueue::force_push`: appends at the tail, evicting and
/// returning the oldest element when the queue is full.
#[verifier::external_body]
pub(crate) fn ring_force_push(
    q: &mut crossbeam::queue::ArrayQueue<Order>,
    order: Order,
) -> (evicted: Option<Order>)
    requires
        ring_capacity(*old(q)) > 0,
    ensures
        ring_capacity(*final(q)) == ring_capacity(*old(q)),
        ring_contents(*old(q)).len() < ring_capacity(*old(q)) ==> {
            &&& evicted is None
            &&& ring_contents(*final(q)) == ring_contents(*old(q)).push(order)
        },
        ring_contents(*old(q)).len() >= ring_capacity(*old(q)) ==> {
            &&& evicted == Some(ring_contents(*old(q))[0])
            &&& ring_contents(*final(q)) == ring_contents(*old(q)).drop_first().push(order)
        },
{
    q.force_push(order)
}

/// Relies on `ArrayQueue::pop`: removes and returns the head element, or
/// returns `None` when the queue is empty.
#[verifier::external_body]
pub(crate) fn ring_pop(q: &mut crossbeam::queue::ArrayQueue<Order>) -> (r: Option<Order>)
    ensures
        ring_capacity(*final(q)) == ring_capacity(*old(q)),
        ring_contents(*old(q)).len() == 0 ==> r is None && ring_contents(*final(q)) == ring_contents(
            *old(q),
        ),
        ring_contents(*old(q)).len() > 0 ==> {
            &&& r == Some(ring_contents(*old(q))[0])
            &&& ring_contents(*final(q)) == ring_contents(*old(q)).drop_first()
        },
{
    q.pop()
}

/// Relies on `ArrayQueue::is_empty`.
#[verifier::external_body]
pub(crate) fn ring_is_empty(q: &crossbeam::queue::ArrayQueue<Order>) -> (r: bool)
    ensures
        r == (ring_contents(*q).len() == 0),
{
    q.is_empty()
}

/// Relies on `ArrayQueue::len`.
#[verifier::external_body]
pub(crate) fn ring_len(q: &crossbeam::queue::ArrayQueue<Order>) -> (n: usize)
    ensures
        n == ring_contents(*q).len(),
{
    q.len()
}

/// Relies on `ArrayQueue::capacity`.
#[verifier::external_body]
pub(crate) fn ring_cap(q: &crossbeam::queue::ArrayQueue<Order>) -> (n: usize)
    ensures
        n == ring_capacity(*q),
{
    q.capacity()
}

} // verus!
