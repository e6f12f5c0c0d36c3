//! The fixed-capacity circular buffer behind the sample history: a
//! `heapless::spsc::Queue`, which stores its items in place and never
//! touches the heap. Verus does not read the queue's implementation, so
//! this module declares the type, gives its contents a name, and wraps
//! each operation the filter uses with the contract that the queue's
//! source shows: FIFO order, capacity `RING_CAP - 1`, `enqueue` appends
//! at the back, `dequeue` removes at the front.

use vstd::prelude::*;

verus! {

/// Size parameter of the backing ring; the queue holds at most
/// `RING_CAP - 1` samples.
pub const RING_CAP: usize = 4096;

#[verifier::external_type_specification]
#[verifier::external_body]
#[verifier::reject_recursive_types(T)]
pub struct ExQueue<T, const N: usize>(heapless::spsc::Queue<T, N>);

/// The samples the ring currently holds, front (oldest) first.
pub uninterp spec fn ring_contents(q: heapless::spsc::Queue<i64, RING_CAP>) -> Seq<i64>;

/// Relies on heapless::spsc::Queue::new: creates an empty queue.
#[verifier::external_body]
pub(crate) fn ring_new() -> (q: heapless::spsc::Queue<i64, RING_CAP>)
    ensures
        ring_contents(q) == Seq::<i64>::empty(),
{
    heapless::spsc::Queue::new()
}

/// Relies on heapless::spsc::Queue::enqueue: appends the item at the back
/// of the queue, or returns it back in `Err` when the queue already holds
/// its capacity of `RING_CAP - 1` items.
#[verifier::external_body]
pub(crate) fn ring_enqueue(q: &mut heapless::spsc::Queue<i64, RING_CAP>, x: i64) -> (r: Result<
    (),
    i64,
>)
    ensures
        ring_contents(*old(q)).len() < RING_CAP - 1 ==> (r matches Ok(())
            && ring_contents(*final(q)) == ring_contents(*old(q)).push(x)),
        ring_contents(*old(q)).len() >= RING_CAP - 1 ==> (r matches Err(y) && y == x
            && ring_contents(*final(q)) == ring_contents(*old(q))),
{
    q.enqueue(x)
}

/// Relies on heapless::spsc::Queue::dequeue: removes and returns the item
/// at the front of the queue, or returns `None` when the queue is empty.
#[verifier::external_body]
pub(crate) fn ring_dequeue(q: &mut heapless::spsc::Queue<i64, RING_CAP>) -> (r: Option<i64>)
    ensures
        ring_contents(*old(q)).len() == 0 ==> (r matches None
            && ring_contents(*final(q)) == ring_contents(*old(q))),
        ring_contents(*old(q)).len() > 0 ==> (r matches Some(y)
            && y == ring_contents(*old(q)).first()
            && ring_contents(*final(q)) == ring_contents(*old(q)).drop_first()),
{
    q.dequeue()
}

/// Relies on heapless::spsc::Queue::iter: yields the queue's items from
/// front (oldest) to back (newest) without removing them.
#[verifier::external_body]
pub(crate) fn ring_items(q: &heapless::spsc::Queue<i64, RING_CAP>) -> (v: Vec<i64>)
    ensures
        v@ == ring_contents(*q),
{
    q.iter().copied().collect()
}

} // verus!
