//! What the library takes from other crates.
use vstd::prelude::*;

verus! {

/// `branches::likely` hands back the condition it is given; it only hints at
/// the branch that will be taken.
pub assume_specification [ branches::likely ](b: bool) -> (r: bool)
    ensures
        r == b,
;

/// `branches::unlikely` hands back the condition it is given; it only hints at
/// the branch that will be taken.
pub assume_specification [ branches::unlikely ](b: bool) -> (r: bool)
    ensures
        r == b,
;

/// The bounded queue of `crossbeam_queue`.
#[verifier::external_type_specification]
#[verifier::external_body]
#[verifier::reject_recursive_types(T)]
pub struct ExArrayQueue<T>(crossbeam_queue::ArrayQueue<T>);

/// The numbers in a queue, the one pushed first at the front.
pub uninterp spec fn array_queue_items(queue: crossbeam_queue::ArrayQueue<usize>) -> Seq<usize>;

/// How many numbers a queue can hold.
pub uninterp spec fn array_queue_capacity(queue: crossbeam_queue::ArrayQueue<usize>) -> nat;

/// `ArrayQueue::new`: an empty queue with the given capacity. A capacity of
/// zero, or one so large that its buffer cannot be allocated, is left out.
#[verifier::external_body]
pub(crate) fn array_queue_new(capacity: usize) -> (r: crossbeam_queue::ArrayQueue<usize>)
    requires
        0 < capacity <= 128,
    ensures
        array_queue_items(r) == Seq::<usize>::empty(),
        array_queue_capacity(r) == capacity,
{
    crossbeam_queue::ArrayQueue::new(capacity)
}

/// `ArrayQueue::push`, by the queue's only user: appends the number unless the
/// queue is full, in which case the number comes back and nothing changes.
#[verifier::external_body]
pub(crate) fn array_queue_push(
    queue: &mut crossbeam_queue::ArrayQueue<usize>,
    value: usize,
) -> (r: Result<(), usize>)
    ensures
        array_queue_capacity(*final(queue)) == array_queue_capacity(*old(queue)),
        array_queue_items(*old(queue)).len() < array_queue_capacity(*old(queue)) ==> r is Ok
            && array_queue_items(*final(queue)) == array_queue_items(*old(queue)).push(value),
        array_queue_items(*old(queue)).len() >= array_queue_capacity(*old(queue))
            ==> r is Err && r->Err_0 == value
            && array_queue_items(*final(queue)) == array_queue_items(*old(queue)),
{
    queue.push(value)
}

/// `ArrayQueue::pop`, by the queue's only user: takes the number at the front;
/// `None` if the queue is empty.
#[verifier::external_body]
pub(crate) fn array_queue_pop(queue: &mut crossbeam_queue::ArrayQueue<usize>) -> (r: Option<usize>)
    ensures
        array_queue_capacity(*final(queue)) == array_queue_capacity(*old(queue)),
        array_queue_items(*old(queue)).len() == 0 ==> r is None && array_queue_items(*final(queue))
            == array_queue_items(*old(queue)),
        array_queue_items(*old(queue)).len() > 0 ==> r == Some(array_queue_items(*old(queue))[0])
            && array_queue_items(*final(queue)) == array_queue_items(*old(queue)).skip(1),
{
    queue.pop()
}

} // verus!
