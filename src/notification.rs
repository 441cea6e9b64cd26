use vstd::prelude::*;

use std::collections::VecDeque;

verus! {

/// A notification: a word of accumulated badges and the FIFO of threads
/// blocked receiving on it, by control-block frame number.
pub struct Notification {
    pub signal_word: usize,
    pub waiters: VecDeque<usize>,
}

impl Notification {
    /// An idle notification.
    pub fn new() -> (r: Notification)
        ensures
            r.signal_word == 0,
            r.waiters@ == Seq::<usize>::empty(),
    {
        Notification { signal_word: 0, waiters: VecDeque::new() }
    }
}

} // verus!
