use vstd::prelude::*;

use crate::constants::MR_BASE_REGISTER;
use crate::kernel::{lemma_update_in_place, live, only_released, tables_kept, KObject, KernelState};
use crate::message::{MessageInfo, ResponseLabel};
use crate::task::{TaskContext, ThreadState};

verus! {

/// `new` is thread `old` after a wakeup that delivers `word` in message
/// register 0.
pub open spec fn woken_with(old: TaskContext, new: TaskContext, word: usize) -> bool {
    &&& new.state == ThreadState::Restart
    &&& new.hal_context.regs@ == old.hal_context.regs@.update(MR_BASE_REGISTER as int, word)
    &&& new.hal_context.next_ip == old.hal_context.next_ip
    &&& new.prio == old.prio
    &&& new.is_queued == old.is_queued
    &&& new.cspace == old.cspace
    &&& new.ipc_buffer_vaddr == old.ipc_buffer_vaddr
}

/// The notification at frame `n`.
pub open spec fn notif(objs: Seq<KObject>, n: int) -> crate::notification::Notification {
    objs[n]->Notification_0
}

/// What signalling the notification at `n` with `badge` does.
pub open spec fn signal_post(old: KernelState, new: KernelState, n: int, badge: usize, r: Option<usize>) -> bool {
    &&& new.wf()
    &&& new.objects@.len() == old.objects@.len()
    &&& new.heap@ == old.heap@
    &&& new.scheduler@ == old.scheduler@
    &&& new.current_task == old.current_task
    &&& new.is_notification(n)
    &&& ({
        let before = notif(old.objects@, n);
        let after = notif(new.objects@, n);
        let word = before.signal_word | badge;
        if before.waiters@.len() == 0 {
            &&& r is None
            &&& after.signal_word == word
            &&& after.waiters@ == before.waiters@
            &&& forall|j: int| 0 <= j < old.objects@.len() && j != n ==> new.objects@[j] == old.objects@[j]
        } else {
            let w = before.waiters@[0];
            &&& after.waiters@ == before.waiters@.drop_first()
            &&& if old.is_thread(w as int) {
                &&& r == Some(w)
                &&& after.signal_word == 0
                &&& new.is_thread(w as int)
                &&& woken_with(old.task(w as int), new.task(w as int), word)
                &&& forall|j: int| 0 <= j < old.objects@.len() && j != n && j != w ==> new.objects@[j] == old.objects@[j]
            } else {
                &&& r is None
                &&& after.signal_word == word
                &&& forall|j: int| 0 <= j < old.objects@.len() && j != n ==> new.objects@[j] == old.objects@[j]
            }
        }
    })
}

/// What receiving on the notification at `n` for thread `t` does.
pub open spec fn receive_post(old: KernelState, new: KernelState, n: int, t: int) -> bool {
    let before = notif(old.objects@, n);
    let after = notif(new.objects@, n);
    let tb = old.task(t);
    let ta = new.task(t);
    &&& new.wf()
    &&& new.objects@.len() == old.objects@.len()
    &&& new.heap@ == old.heap@
    &&& new.scheduler@ == old.scheduler@
    &&& new.current_task == old.current_task
    &&& new.is_notification(n)
    &&& new.is_thread(t)
    &&& forall|j: int| 0 <= j < old.objects@.len() && j != n && j != t ==> new.objects@[j] == old.objects@[j]
    &&& after.signal_word == 0
    &&& ta.cspace == tb.cspace
    &&& ta.ipc_buffer_vaddr == tb.ipc_buffer_vaddr
    &&& ta.is_queued == tb.is_queued
    &&& ta.prio == tb.prio
    &&& if before.signal_word != 0 {
        &&& after.waiters@ == before.waiters@
        &&& ta.hal_context.regs@ == tb.hal_context.regs@.update(MR_BASE_REGISTER as int, before.signal_word)
        &&& ta.hal_context.next_ip == tb.hal_context.next_ip
        &&& ta.state == tb.state
    } else {
        &&& after.waiters@ == before.waiters@.push(t as usize)
        &&& ta.hal_context == tb.hal_context
        &&& ta.state == ThreadState::BlockedOnReceive
    }
}

impl KernelState {
    /// Delivers `word` to thread `t` in message register 0 and makes it
    /// runnable.
    fn wake_with(&mut self, t: usize, word: usize)
        requires
            old(self).wf(),
            old(self).is_thread(t as int),
        ensures
            final(self).wf(),
            final(self).is_thread(t as int),
            woken_with(old(self).task(t as int), final(self).task(t as int), word),
            final(self).objects@.len() == old(self).objects@.len(),
            forall|j: int| 0 <= j < old(self).objects@.len() && j != t ==> final(self).objects@[j] == old(self).objects@[j],
            final(self).heap@ == old(self).heap@,
            final(self).scheduler@ == old(self).scheduler@,
            final(self).current_task == old(self).current_task,
    {
        let ghost g = self.objects@;
        match &mut self.objects[t] {
            KObject::Thread(task) => {
                task.hal_context.set_mr(0, word);
                task.state = ThreadState::Restart;
            },
            _ => {},
        }
        proof {
            assert(self.objects@ == g.update(t as int, self.objects@[t as int]));
            lemma_update_in_place(g, self.heap@, t as int, self.objects@[t as int]);
        }
    }

    /// Ends the wait of thread `w` on a notification that is going away: it
    /// becomes runnable with an `InvalidParam` response and joins the back of
    /// the run queue. A frame that holds no thread is skipped.
    pub fn abort_wait(&mut self, w: usize)
        requires
            old(self).wf(),
        ensures
            final(self).wf(),
            only_released(*old(self), *final(self)),
            tables_kept(old(self).objects@, final(self).objects@),
            forall|o: int| #[trigger] live(old(self).objects@, o) ==> live(final(self).objects@, o),
            old(self).is_thread(w as int) ==> final(self).is_thread(w as int)
                && final(self).task(w as int).state == ThreadState::Restart
                && final(self).scheduler@ == old(self).scheduler@.push(w),
            !old(self).is_thread(w as int) ==> *final(self) == *old(self),
    {
        if !self.is_thread_at(w) {
            return;
        }
        let ghost g = self.objects@;
        match &mut self.objects[w] {
            KObject::Thread(task) => {
                task.hal_context.set_tag(MessageInfo::new_response(ResponseLabel::InvalidParam));
                task.state = ThreadState::Restart;
            },
            _ => {},
        }
        proof {
            assert(self.objects@ == g.update(w as int, self.objects@[w as int]));
            lemma_update_in_place(g, self.heap@, w as int, self.objects@[w as int]);
        }
        self.scheduler.enqueue_back(w);
    }

    /// Signals the notification at `n` with `badge`. With a waiter, the
    /// first one leaves the queue, receives the accumulated word and becomes
    /// runnable, and is returned; without one, the badge is accumulated.
    pub fn signal(&mut self, n: usize, badge: usize) -> (r: Option<usize>)
        requires
            old(self).wf(),
            old(self).is_notification(n as int),
        ensures
            signal_post(*old(self), *final(self), n as int, badge, r),
    {
        let ghost g = self.objects@;
        let mut woken: Option<usize> = None;
        let mut word: usize = 0;
        match &mut self.objects[n] {
            KObject::Notification(nt) => {
                word = nt.signal_word | badge;
                woken = nt.waiters.pop_front();
                nt.signal_word = word;
            },
            _ => {},
        }
        proof {
            assert(self.objects@ == g.update(n as int, self.objects@[n as int]));
            lemma_update_in_place(g, self.heap@, n as int, self.objects@[n as int]);
        }
        match woken {
            Some(w) => {
                if self.is_thread_at(w) {
                    let ghost g2 = self.objects@;
                    match &mut self.objects[n] {
                        KObject::Notification(nt) => {
                            nt.signal_word = 0;
                        },
                        _ => {},
                    }
                    proof {
                        assert(self.objects@ == g2.update(n as int, self.objects@[n as int]));
                        lemma_update_in_place(g2, self.heap@, n as int, self.objects@[n as int]);
                    }
                    self.wake_with(w, word);
                    Some(w)
                } else {
                    None
                }
            },
            None => None,
        }
    }

    /// Receives on the notification at `n` for thread `t`: a pending word is
    /// handed over in message register 0 and cleared; otherwise `t` blocks
    /// and joins the tail of the waiter queue.
    pub fn receive(&mut self, n: usize, t: usize)
        requires
            old(self).wf(),
            old(self).is_notification(n as int),
            old(self).is_thread(t as int),
        ensures
            receive_post(*old(self), *final(self), n as int, t as int),
    {
        let ghost g = self.objects@;
        let mut word: usize = 0;
        match &mut self.objects[n] {
            KObject::Notification(nt) => {
                word = nt.signal_word;
                if word != 0 {
                    nt.signal_word = 0;
                } else {
                    nt.waiters.push_back(t);
                }
            },
            _ => {},
        }
        proof {
            assert(self.objects@ == g.update(n as int, self.objects@[n as int]));
            lemma_update_in_place(g, self.heap@, n as int, self.objects@[n as int]);
        }
        let ghost g2 = self.objects@;
        match &mut self.objects[t] {
            KObject::Thread(task) => {
                if word != 0 {
                    task.hal_context.set_mr(0, word);
                } else {
                    task.state = ThreadState::BlockedOnReceive;
                }
            },
            _ => {},
        }
        proof {
            assert(self.objects@ == g2.update(t as int, self.objects@[t as int]));
            lemma_update_in_place(g2, self.heap@, t as int, self.objects@[t as int]);
        }
    }
}

} // verus!

verus! {

/// Two signals on an idle-word notification with waiters `w1, w2, w3` wake
/// `w1` and then `w2`, in that order, each with the badge of its own signal.
pub proof fn lemma_signal_fifo(
    s0: KernelState,
    s1: KernelState,
    s2: KernelState,
    n: int,
    w1: usize,
    w2: usize,
    w3: usize,
    b1: usize,
    b2: usize,
    r1: Option<usize>,
    r2: Option<usize>,
)
    requires
        s0.wf(),
        s0.is_notification(n),
        notif(s0.objects@, n).waiters@ == seq![w1, w2, w3],
        notif(s0.objects@, n).signal_word == 0,
        s0.is_thread(w1 as int),
        s0.is_thread(w2 as int),
        w1 != w2,
        signal_post(s0, s1, n, b1, r1),
        signal_post(s1, s2, n, b2, r2),
    ensures
        r1 == Some(w1),
        r2 == Some(w2),
        s2.task(w1 as int).hal_context.mr(0) == b1,
        s2.task(w2 as int).hal_context.mr(0) == b2,
        s2.task(w1 as int).state == ThreadState::Restart,
        s2.task(w2 as int).state == ThreadState::Restart,
        notif(s2.objects@, n).waiters@ == seq![w3],
{
    assert(0usize | b1 == b1) by (bit_vector);
    assert(0usize | b2 == b2) by (bit_vector);
    assert(w1 as int != n);
    assert(w2 as int != n);
    assert(notif(s1.objects@, n).waiters@ == seq![w1, w2, w3].drop_first());
    assert(seq![w1, w2, w3].drop_first() =~= seq![w2, w3]);
    assert(s1.objects@[w2 as int] == s0.objects@[w2 as int]);
    assert(s2.objects@[w1 as int] == s1.objects@[w1 as int]);
    assert(crate::kernel::object_wf(s1.objects@[w1 as int]));
    assert(crate::kernel::object_wf(s2.objects@[w2 as int]));
    assert(s1.task(w1 as int).hal_context.regs@[MR_BASE_REGISTER as int] == b1);
    assert(seq![w2, w3].drop_first() =~= seq![w3]);
}

} // verus!
