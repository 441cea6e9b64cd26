use vstd::prelude::*;

use std::collections::VecDeque;

verus! {

/// The run queue, by control-block frame number; the front runs next.
pub struct Scheduler {
    pub queue: VecDeque<usize>,
}

impl View for Scheduler {
    type V = Seq<usize>;

    open spec fn view(&self) -> Seq<usize> {
        self.queue@
    }
}

impl Scheduler {
    pub fn new() -> (r: Scheduler)
        ensures
            r@ == Seq::<usize>::empty(),
    {
        Scheduler { queue: VecDeque::new() }
    }

    pub fn enqueue_front(&mut self, t: usize)
        ensures
            final(self)@ == seq![t] + old(self)@,
    {
        self.queue.push_front(t);
    }

    pub fn enqueue_back(&mut self, t: usize)
        ensures
            final(self)@ == old(self)@.push(t),
    {
        self.queue.push_back(t);
    }

    pub fn dequeue(&mut self) -> (r: Option<usize>)
        ensures
            old(self)@.len() == 0 ==> r is None && final(self)@ == old(self)@,
            old(self)@.len() > 0 ==> r == Some(old(self)@[0]) && final(self)@ == old(self)@.drop_first(),
    {
        self.queue.pop_front()
    }
}

} // verus!
