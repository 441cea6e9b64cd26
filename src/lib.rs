//! Syscall dispatch and capability invocation for a small capability kernel.
//!
//! Kernel objects live in an arena indexed by physical frame number; a
//! capability names an object by the frame number it starts at.
use vstd::prelude::*;

pub mod boot;
pub mod cap;
pub mod cnode;
pub mod constants;
pub mod heap;
pub mod invocation;
pub mod ipc;
pub mod kernel;
pub mod message;
pub mod notification;
pub mod page_table;
pub mod scheduler;
pub mod task;
pub mod vspace;

pub use invocation::cspace_handler::DeallocHandler;

use cap::Cap;
use constants::MAX_CNODE_SIZE;
use invocation::cspace_handler::{cspace_post, cspace_request_ok};
use invocation::memory_handler::{memory_post, memory_request_ok};
use invocation::task_handler::{task_post, task_request_ok};
use ipc::{receive_post, signal_post};
use invocation::cspace_handler::{lemma_table_invocation_keeps_single_owners, lemma_two_objects_refreshed, singly_owned};
use invocation::memory_handler::lemma_memory_invocation_keeps_single_owners;
use invocation::task_handler::lemma_thread_invocation_keeps_single_owners;
use kernel::{replied, unchanged, KernelState};
use message::{response_word, MessageInfo, ResponseLabel, Syscall};
use task::ThreadState;

verus! {

/// What the hardware layer is asked to do once a syscall is handled.
#[derive(Clone, Copy, Debug, PartialEq, Eq, Structural)]
pub enum HalRequest {
    Nothing,
    /// Write this byte to the console.
    PutChar(u8),
    /// Power the machine off.
    Shutdown,
}

/// Message register 0 of a reply to an invocation result.
pub open spec fn reply_mr0(r: Result<usize, MessageInfo>) -> Option<usize> {
    match r {
        Ok(v) => Some(v),
        Err(_) => None,
    }
}

/// Tag of a reply to an invocation result.
pub open spec fn reply_tag(r: Result<usize, MessageInfo>) -> usize {
    match r {
        Ok(_) => response_word(ResponseLabel::Success),
        Err(m) => m.word,
    }
}

/// Tag of a reply to an invocation result with no payload.
pub open spec fn reply_tag_unit(r: Result<(), MessageInfo>) -> usize {
    match r {
        Ok(_) => response_word(ResponseLabel::Success),
        Err(m) => m.word,
    }
}

/// Operand values that a call by thread `c` needs to stay in range.
pub open spec fn call_request_ok(st: KernelState, c: int) -> bool {
    let idx = st.task(c).hal_context.cap();
    let tag = st.task(c).hal_context.tag();
    st.has_cspace(c) && idx < MAX_CNODE_SIZE ==> {
        let cap = st.cspace(c)[idx as int];
        match cap {
            Cap::CNode { .. } => cspace_request_ok(st, c, cap.base() as int, tag),
            Cap::Thread { .. } => task_request_ok(st, c, cap.base() as int, tag),
            Cap::PageTable { .. } => memory_request_ok(st, c, tag),
            _ => true,
        }
    }
}

/// What a call by thread `c` does: the capability in the slot that its cap
/// register names is invoked with its tag register, and the reply is written
/// back.
pub open spec fn call_post(old: KernelState, new: KernelState, c: int) -> bool {
    let idx = old.task(c).hal_context.cap();
    let tag = old.task(c).hal_context.tag();
    if idx >= MAX_CNODE_SIZE {
        replied(old, new, c, None, response_word(ResponseLabel::OutOfRange))
    } else if !old.has_cspace(c) {
        replied(old, new, c, None, response_word(ResponseLabel::NotEnoughSpace))
    } else {
        let cap = old.cspace(c)[idx as int];
        match cap {
            Cap::CNode { .. } => exists|mid: KernelState, r: Result<usize, MessageInfo>|
                #[trigger] cspace_post(old, mid, c, cap.base() as int, tag, r) && replied(mid, new, c, reply_mr0(r), reply_tag(r)),
            Cap::Thread { .. } => exists|mid: KernelState, r: Result<usize, MessageInfo>|
                #[trigger] task_post(old, mid, c, cap.base() as int, tag, r) && replied(mid, new, c, reply_mr0(r), reply_tag(r)),
            Cap::PageTable { .. } => exists|mid: KernelState, r: Result<(), MessageInfo>|
                #[trigger] memory_post(old, mid, c, cap.base() as int, tag, r) && replied(mid, new, c, None, reply_tag_unit(r)),
            _ => replied(old, new, c, None, response_word(ResponseLabel::UnSupported)),
        }
    }
}

/// `new` is `mid` with `w`, when given, at the back of the run queue.
pub open spec fn woken_enqueued(mid: KernelState, new: KernelState, w: Option<usize>) -> bool {
    &&& new.wf()
    &&& new.objects@ == mid.objects@
    &&& new.heap@ == mid.heap@
    &&& new.current_task == mid.current_task
    &&& new.scheduler@ == match w {
        Some(t) => mid.scheduler@.push(t),
        None => mid.scheduler@,
    }
}

/// What a non-blocking send by thread `c` does.
pub open spec fn nb_send_post(old: KernelState, new: KernelState, c: int) -> bool {
    let idx = old.task(c).hal_context.cap();
    if idx >= MAX_CNODE_SIZE {
        replied(old, new, c, None, response_word(ResponseLabel::OutOfRange))
    } else if !old.has_cspace(c) {
        replied(old, new, c, None, response_word(ResponseLabel::NotEnoughSpace))
    } else {
        let cap = old.cspace(c)[idx as int];
        match cap {
            Cap::Notification { base_ptr, badge, .. } => if !old.is_notification(base_ptr as int) {
                replied(old, new, c, None, response_word(ResponseLabel::ErrCapType))
            } else {
                exists|mid: KernelState, mid2: KernelState, w: Option<usize>|
                    #[trigger] signal_post(old, mid, base_ptr as int, badge, w) && #[trigger] woken_enqueued(mid, mid2, w)
                        && replied(mid2, new, c, None, response_word(ResponseLabel::Success))
            },
            _ => replied(old, new, c, None, response_word(ResponseLabel::UnSupported)),
        }
    }
}

/// What a receive by thread `c` does.
pub open spec fn recv_post(old: KernelState, new: KernelState, c: int) -> bool {
    let idx = old.task(c).hal_context.cap();
    if idx >= MAX_CNODE_SIZE {
        replied(old, new, c, None, response_word(ResponseLabel::OutOfRange))
    } else if !old.has_cspace(c) {
        replied(old, new, c, None, response_word(ResponseLabel::NotEnoughSpace))
    } else {
        let cap = old.cspace(c)[idx as int];
        match cap {
            Cap::Notification { base_ptr, .. } => if !old.is_notification(base_ptr as int) {
                replied(old, new, c, None, response_word(ResponseLabel::ErrCapType))
            } else {
                exists|mid: KernelState|
                    #[trigger] receive_post(old, mid, base_ptr as int, c) && replied(mid, new, c, None, response_word(ResponseLabel::Success))
            },
            _ => replied(old, new, c, None, response_word(ResponseLabel::UnSupported)),
        }
    }
}

/// A reply keeps objects singly owned.
proof fn lemma_reply_keeps_single_owners(old: KernelState, new: KernelState, t: int, mr0: Option<usize>, tag: usize)
    requires
        old.wf(),
        singly_owned(old.objects@),
        replied(old, new, t, mr0, tag),
    ensures
        singly_owned(new.objects@),
{
    if old.is_thread(t) {
        lemma_two_objects_refreshed(old.objects@, new.objects@, t, t);
    } else {
        assert(new.objects@ == old.objects@);
    }
}

/// Signalling a notification keeps objects singly owned.
proof fn lemma_signal_keeps_single_owners(old: KernelState, new: KernelState, n: int, badge: usize, r: Option<usize>)
    requires
        old.wf(),
        old.is_notification(n),
        singly_owned(old.objects@),
        signal_post(old, new, n, badge, r),
    ensures
        singly_owned(new.objects@),
{
    let waiters = ipc::notif(old.objects@, n).waiters@;
    if waiters.len() > 0 && old.is_thread(waiters[0] as int) {
        lemma_two_objects_refreshed(old.objects@, new.objects@, n, waiters[0] as int);
    } else {
        lemma_two_objects_refreshed(old.objects@, new.objects@, n, n);
    }
}

/// Routes a call by thread `current` to the handler of the capability that
/// its cap register names, and writes the reply back.
fn handle_call(kernel_state: &mut KernelState, current: usize)
    requires
        old(kernel_state).wf(),
        old(kernel_state).is_thread(current as int),
        call_request_ok(*old(kernel_state), current as int),
    ensures
        call_post(*old(kernel_state), *final(kernel_state), current as int),
        singly_owned(old(kernel_state).objects@) ==> singly_owned(final(kernel_state).objects@),
{
    let ghost s0 = *kernel_state;
    let dest_cap_idx = match kernel_state.get_register(current, constants::CAP_REGISTER) {
        Some(v) => v,
        None => 0,
    };
    if dest_cap_idx >= MAX_CNODE_SIZE {
        kernel_state.reply(current, None, MessageInfo::new_response(ResponseLabel::OutOfRange));
        proof {
            if singly_owned(s0.objects@) {
                lemma_reply_keeps_single_owners(s0, *kernel_state, current as int, None, response_word(ResponseLabel::OutOfRange));
            }
        }
        return;
    }
    if !kernel_state.has_cspace_at(current) {
        kernel_state.reply(current, None, MessageInfo::new_response(ResponseLabel::NotEnoughSpace));
        proof {
            if singly_owned(s0.objects@) {
                lemma_reply_keeps_single_owners(s0, *kernel_state, current as int, None, response_word(ResponseLabel::NotEnoughSpace));
            }
        }
        return;
    }
    let dest_cap = kernel_state.get_slot(current, dest_cap_idx);
    let message_tag = MessageInfo::from_word(
        match kernel_state.get_register(current, constants::TAG_REGISTER) {
            Some(v) => v,
            None => 0,
        },
    );
    match dest_cap {
        Cap::CNode { .. } => {
            let r = invocation::cspace_handler::handle(kernel_state, current, dest_cap, message_tag);
            let ghost s1 = *kernel_state;
            reply_result(kernel_state, current, r);
            proof {
                if singly_owned(s0.objects@) {
                    lemma_table_invocation_keeps_single_owners(s0, s1, current as int, dest_cap.base() as int, message_tag.word, r);
                    lemma_reply_keeps_single_owners(s1, *kernel_state, current as int, reply_mr0(r), reply_tag(r));
                }
            }
        },
        Cap::Thread { .. } => {
            let r = invocation::task_handler::handle(kernel_state, current, dest_cap, message_tag);
            let ghost s1 = *kernel_state;
            reply_result(kernel_state, current, r);
            proof {
                if singly_owned(s0.objects@) {
                    lemma_thread_invocation_keeps_single_owners(s0, s1, current as int, dest_cap.base() as int, message_tag.word, r);
                    lemma_reply_keeps_single_owners(s1, *kernel_state, current as int, reply_mr0(r), reply_tag(r));
                }
            }
        },
        Cap::PageTable { .. } => {
            let r = invocation::memory_handler::handle(kernel_state, current, dest_cap, message_tag);
            let ghost s1 = *kernel_state;
            match r {
                Ok(_) => kernel_state.reply(current, None, MessageInfo::new_response(ResponseLabel::Success)),
                Err(resp) => kernel_state.reply(current, None, resp),
            }
            proof {
                if singly_owned(s0.objects@) {
                    lemma_memory_invocation_keeps_single_owners(s0, s1, current as int, dest_cap.base() as int, message_tag.word, r);
                    lemma_reply_keeps_single_owners(s1, *kernel_state, current as int, None, reply_tag_unit(r));
                }
            }
        },
        _ => {
            kernel_state.reply(current, None, MessageInfo::new_response(ResponseLabel::UnSupported));
            proof {
                if singly_owned(s0.objects@) {
                    lemma_reply_keeps_single_owners(s0, *kernel_state, current as int, None, response_word(ResponseLabel::UnSupported));
                }
            }
        },
    }
}

/// Writes an invocation result back to thread `t`.
fn reply_result(kernel_state: &mut KernelState, t: usize, r: Result<usize, MessageInfo>)
    requires
        old(kernel_state).wf(),
    ensures
        replied(*old(kernel_state), *final(kernel_state), t as int, reply_mr0(r), reply_tag(r)),
{
    match r {
        Ok(v) => kernel_state.reply(t, Some(v), MessageInfo::new_response(ResponseLabel::Success)),
        Err(resp) => kernel_state.reply(t, None, resp),
    }
}

/// Signals the notification that thread `current`'s cap register names with
/// the capability's badge; a woken waiter joins the back of the run queue.
fn handle_nb_send(kernel_state: &mut KernelState, current: usize)
    requires
        old(kernel_state).wf(),
        old(kernel_state).is_thread(current as int),
    ensures
        nb_send_post(*old(kernel_state), *final(kernel_state), current as int),
        singly_owned(old(kernel_state).objects@) ==> singly_owned(final(kernel_state).objects@),
{
    let ghost s0 = *kernel_state;
    let dest_cap_idx = match kernel_state.get_register(current, constants::CAP_REGISTER) {
        Some(v) => v,
        None => 0,
    };
    if dest_cap_idx >= MAX_CNODE_SIZE {
        kernel_state.reply(current, None, MessageInfo::new_response(ResponseLabel::OutOfRange));
        proof {
            if singly_owned(s0.objects@) {
                lemma_reply_keeps_single_owners(s0, *kernel_state, current as int, None, response_word(ResponseLabel::OutOfRange));
            }
        }
        return;
    }
    if !kernel_state.has_cspace_at(current) {
        kernel_state.reply(current, None, MessageInfo::new_response(ResponseLabel::NotEnoughSpace));
        proof {
            if singly_owned(s0.objects@) {
                lemma_reply_keeps_single_owners(s0, *kernel_state, current as int, None, response_word(ResponseLabel::NotEnoughSpace));
            }
        }
        return;
    }
    match kernel_state.get_slot(current, dest_cap_idx) {
        Cap::Notification { base_ptr, badge, .. } => {
            if !kernel_state.is_notification_at(base_ptr) {
                kernel_state.reply(current, None, MessageInfo::new_response(ResponseLabel::ErrCapType));
                proof {
                    if singly_owned(s0.objects@) {
                        lemma_reply_keeps_single_owners(s0, *kernel_state, current as int, None, response_word(ResponseLabel::ErrCapType));
                    }
                }
                return;
            }
            let woken = kernel_state.signal(base_ptr, badge);
            let ghost s1 = *kernel_state;
            if let Some(task) = woken {
                kernel_state.scheduler.enqueue_back(task);
            }
            let ghost s2 = *kernel_state;
            assert(signal_post(s0, s1, base_ptr as int, badge, woken));
            assert(woken_enqueued(s1, s2, woken));
            kernel_state.reply(current, None, MessageInfo::new_response(ResponseLabel::Success));
            proof {
                if singly_owned(s0.objects@) {
                    lemma_signal_keeps_single_owners(s0, s1, base_ptr as int, badge, woken);
                    lemma_reply_keeps_single_owners(s2, *kernel_state, current as int, None, response_word(ResponseLabel::Success));
                }
            }
        },
        _ => {
            kernel_state.reply(current, None, MessageInfo::new_response(ResponseLabel::UnSupported));
            proof {
                if singly_owned(s0.objects@) {
                    lemma_reply_keeps_single_owners(s0, *kernel_state, current as int, None, response_word(ResponseLabel::UnSupported));
                }
            }
        },
    }
}

/// Receives on the notification that thread `current`'s cap register names.
fn handle_recv(kernel_state: &mut KernelState, current: usize)
    requires
        old(kernel_state).wf(),
        old(kernel_state).is_thread(current as int),
    ensures
        recv_post(*old(kernel_state), *final(kernel_state), current as int),
        singly_owned(old(kernel_state).objects@) ==> singly_owned(final(kernel_state).objects@),
{
    let ghost s0 = *kernel_state;
    let dest_cap_idx = match kernel_state.get_register(current, constants::CAP_REGISTER) {
        Some(v) => v,
        None => 0,
    };
    if dest_cap_idx >= MAX_CNODE_SIZE {
        kernel_state.reply(current, None, MessageInfo::new_response(ResponseLabel::OutOfRange));
        proof {
            if singly_owned(s0.objects@) {
                lemma_reply_keeps_single_owners(s0, *kernel_state, current as int, None, response_word(ResponseLabel::OutOfRange));
            }
        }
        return;
    }
    if !kernel_state.has_cspace_at(current) {
        kernel_state.reply(current, None, MessageInfo::new_response(ResponseLabel::NotEnoughSpace));
        proof {
            if singly_owned(s0.objects@) {
                lemma_reply_keeps_single_owners(s0, *kernel_state, current as int, None, response_word(ResponseLabel::NotEnoughSpace));
            }
        }
        return;
    }
    match kernel_state.get_slot(current, dest_cap_idx) {
        Cap::Notification { base_ptr, .. } => {
            if !kernel_state.is_notification_at(base_ptr) {
                kernel_state.reply(current, None, MessageInfo::new_response(ResponseLabel::ErrCapType));
                proof {
                    if singly_owned(s0.objects@) {
                        lemma_reply_keeps_single_owners(s0, *kernel_state, current as int, None, response_word(ResponseLabel::ErrCapType));
                    }
                }
                return;
            }
            kernel_state.receive(base_ptr, current);
            let ghost s1 = *kernel_state;
            kernel_state.reply(current, None, MessageInfo::new_response(ResponseLabel::Success));
            proof {
                if singly_owned(s0.objects@) {
                    lemma_two_objects_refreshed(s0.objects@, s1.objects@, base_ptr as int, current as int);
                    lemma_reply_keeps_single_owners(s1, *kernel_state, current as int, None, response_word(ResponseLabel::Success));
                }
            }
        },
        _ => {
            kernel_state.reply(current, None, MessageInfo::new_response(ResponseLabel::UnSupported));
            proof {
                if singly_owned(s0.objects@) {
                    lemma_reply_keeps_single_owners(s0, *kernel_state, current as int, None, response_word(ResponseLabel::UnSupported));
                }
            }
        },
    }
}

/// `new` is `old` with the running thread `c` taken out of `current_task`
/// and, if it was running, marked to restart.
pub open spec fn demoted(old: KernelState, new: KernelState, c: int) -> bool {
    let a = old.task(c);
    let b = new.task(c);
    &&& new.wf()
    &&& new.current_task is None
    &&& new.is_thread(c)
    &&& b.state == (if a.state == ThreadState::Running {
        ThreadState::Restart
    } else {
        a.state
    })
    &&& b.hal_context == a.hal_context
    &&& b.prio == a.prio
    &&& b.is_queued == a.is_queued
    &&& b.cspace == a.cspace
    &&& b.ipc_buffer_vaddr == a.ipc_buffer_vaddr
    &&& new.objects@.len() == old.objects@.len()
    &&& forall|j: int| 0 <= j < old.objects@.len() && j != c ==> new.objects@[j] == old.objects@[j]
    &&& new.heap@ == old.heap@
    &&& new.scheduler@ == old.scheduler@
}

/// `new` is `old` after thread `c` left the kernel: a thread to restart
/// goes to the front of the run queue; any other is marked not queued.
pub open spec fn requeued(old: KernelState, new: KernelState, c: int) -> bool {
    &&& new.wf()
    &&& if old.is_thread(c) && old.task(c).state == ThreadState::Restart {
        &&& new.objects@ == old.objects@
        &&& new.heap@ == old.heap@
        &&& new.current_task == old.current_task
        &&& new.scheduler@ == seq![c as usize] + old.scheduler@
    } else if old.is_thread(c) {
        let a = old.task(c);
        let b = new.task(c);
        &&& new.is_thread(c)
        &&& !b.is_queued
        &&& b.state == a.state
        &&& b.hal_context == a.hal_context
        &&& b.prio == a.prio
        &&& b.cspace == a.cspace
        &&& b.ipc_buffer_vaddr == a.ipc_buffer_vaddr
        &&& new.objects@.len() == old.objects@.len()
        &&& forall|j: int| 0 <= j < old.objects@.len() && j != c ==> new.objects@[j] == old.objects@[j]
        &&& new.heap@ == old.heap@
        &&& new.scheduler@ == old.scheduler@
        &&& new.current_task == old.current_task
    } else {
        unchanged(old, new)
    }
}

/// What the handler of `syscall` does for thread `c`.
pub open spec fn syscall_step(old: KernelState, new: KernelState, c: int, syscall: Syscall) -> bool {
    match syscall {
        Syscall::Syscall => call_post(old, new, c),
        Syscall::SysNBSend => nb_send_post(old, new, c),
        Syscall::SysRecv => recv_post(old, new, c),
        _ => unchanged(old, new) && new.wf(),
    }
}

/// What the hardware is asked to do for `syscall` by thread `c`.
pub open spec fn hal_request_of(st: KernelState, c: int, syscall: Syscall) -> HalRequest {
    match syscall {
        Syscall::SysDebugPutChar => HalRequest::PutChar((st.task(c).hal_context.cap() % 256) as u8),
        Syscall::SysDebugShutdown => HalRequest::Shutdown,
        _ => HalRequest::Nothing,
    }
}

/// Operand values that `syscall` by the current thread needs to stay in range.
pub open spec fn syscall_request_ok(st: KernelState, syscall: Syscall) -> bool {
    &&& st.current_task is Some
    &&& st.is_thread(st.current_task->0 as int)
    &&& syscall == Syscall::Syscall ==> call_request_ok(st, st.current_task->0 as int)
}

/// Handles a trap of the current thread: takes it out of `current_task`,
/// marks it to restart if it was running, runs the handler of `syscall`, and
/// puts it at the front of the run queue if it is still to restart. Returns
/// what the hardware layer is to do.
pub fn handle_syscall(kernel_state: &mut KernelState, _cptr: usize, _msg_info: MessageInfo, syscall: Syscall) -> (r: HalRequest)
    requires
        old(kernel_state).wf(),
        syscall_request_ok(*old(kernel_state), syscall),
    ensures
        final(kernel_state).wf(),
        final(kernel_state).current_task is None,
        r == hal_request_of(*old(kernel_state), old(kernel_state).current_task->0 as int, syscall),
        singly_owned(old(kernel_state).objects@) ==> singly_owned(final(kernel_state).objects@),
        exists|s1: KernelState, s2: KernelState|
            #![trigger demoted(*old(kernel_state), s1, old(kernel_state).current_task->0 as int), requeued(s2, *final(kernel_state), old(kernel_state).current_task->0 as int)]
            demoted(*old(kernel_state), s1, old(kernel_state).current_task->0 as int)
                && syscall_step(s1, s2, old(kernel_state).current_task->0 as int, syscall)
                && requeued(s2, *final(kernel_state), old(kernel_state).current_task->0 as int),
{
    let current = match kernel_state.current_task {
        Some(c) => c,
        None => 0,
    };
    let ghost s0 = *kernel_state;
    kernel_state.current_task = None;
    if kernel_state.task_state(current) == Some(ThreadState::Running) {
        kernel_state.set_task_state(current, ThreadState::Restart);
    }
    let ghost s1 = *kernel_state;
    assert(demoted(s0, s1, current as int));
    proof {
        if singly_owned(s0.objects@) {
            lemma_two_objects_refreshed(s0.objects@, s1.objects@, current as int, current as int);
        }
    }
    let mut request = HalRequest::Nothing;
    match syscall {
        Syscall::SysDebugPutChar => {
            let c = match kernel_state.get_register(current, constants::CAP_REGISTER) {
                Some(v) => v,
                None => 0,
            };
            request = HalRequest::PutChar((c % 256) as u8);
        },
        Syscall::SysDebugShutdown => {
            request = HalRequest::Shutdown;
        },
        Syscall::Syscall => {
            assert(call_request_ok(s1, current as int));
            handle_call(kernel_state, current);
        },
        Syscall::SysNBSend => {
            handle_nb_send(kernel_state, current);
        },
        Syscall::SysRecv => {
            handle_recv(kernel_state, current);
        },
    }
    let ghost s2 = *kernel_state;
    assert(syscall_step(s1, s2, current as int, syscall));
    if kernel_state.task_state(current) == Some(ThreadState::Restart) {
        kernel_state.scheduler.enqueue_front(current);
    } else {
        kernel_state.clear_queued(current);
        proof {
            if singly_owned(s2.objects@) && s2.is_thread(current as int) {
                lemma_two_objects_refreshed(s2.objects@, kernel_state.objects@, current as int, current as int);
            }
        }
    }
    assert(requeued(s2, *kernel_state, current as int));
    request
}

} // verus!
