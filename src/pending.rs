//! The FIFO of requests waiting for admission, held in `queue::Queue`.

use vstd::prelude::*;
use queue::Queue;
use crate::store::ToastRequest;

verus! {

#[verifier::external_type_specification]
#[verifier::external_body]
#[verifier::reject_recursive_types(T)]
pub struct ExQueue<T>(Queue<T>);

/// The requests a queue holds, front first.
pub uninterp spec fn queued(q: Queue<ToastRequest>) -> Seq<ToastRequest>;

/// The bound a queue was made with, if any.
pub uninterp spec fn queue_bound(q: Queue<ToastRequest>) -> Option<usize>;

/// Relies on `Queue::new`: an empty queue without a bound.
#[verifier::external_body]
pub(crate) fn new_queue() -> (r: Queue<ToastRequest>)
    ensures
        queued(r) == Seq::<ToastRequest>::empty(),
        queue_bound(r) == None::<usize>,
{
    Queue::new()
}

/// Relies on `Queue::queue`: without a bound, or below it, the item goes to
/// the back and the new length is returned; at the bound nothing changes.
#[verifier::external_body]
pub(crate) fn enqueue(q: &mut Queue<ToastRequest>, item: ToastRequest) -> (r: Result<usize, ()>)
    ensures
        queue_bound(*final(q)) == queue_bound(*old(q)),
        match queue_bound(*old(q)) {
            Some(cap) if queued(*old(q)).len() >= cap => {
                &&& r == Err::<usize, ()>(())
                &&& queued(*final(q)) == queued(*old(q))
            },
            _ => {
                &&& queued(*final(q)) == queued(*old(q)).push(item)
                &&& r == Ok::<usize, ()>(queued(*final(q)).len() as usize)
            },
        },
{
    q.queue(item)
}

/// Relies on `Queue::dequeue`: takes the front item, if there is one.
#[verifier::external_body]
pub(crate) fn dequeue(q: &mut Queue<ToastRequest>) -> (r: Option<ToastRequest>)
    ensures
        queue_bound(*final(q)) == queue_bound(*old(q)),
        queued(*old(q)).len() == 0 ==> r == None::<ToastRequest> && queued(*final(q))
            == queued(*old(q)),
        queued(*old(q)).len() > 0 ==> r == Some(queued(*old(q))[0]) && queued(*final(q))
            == queued(*old(q)).drop_first(),
{
    q.dequeue()
}

/// Relies on `Queue::vec`: the items in queue order.
#[verifier::external_body]
pub(crate) fn queued_items(q: &Queue<ToastRequest>) -> (r: &Vec<ToastRequest>)
    ensures
        r@ == queued(*q),
{
    q.vec()
}

} // verus!
