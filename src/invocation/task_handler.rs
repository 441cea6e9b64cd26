use vstd::prelude::*;

use crate::cap::Cap;
use crate::constants::{
    CAP_INIT_VSPACE, FRAME_LEVEL_2M, MAX_CNODE_SIZE, MAX_GENERAL_REGISTER_NUM, PAGE_SIZE_NORMAL,
    USER_CONTEXT_WORDS, WORDS_PER_PAGE,
};
use crate::invocation::cspace_handler::{
    self, cspace_post, cspace_request_ok, lemma_delete_keeps_single_owners, lemma_object_replaced,
    lemma_put_non_owning, lemma_single_owners_kept_all, lemma_table_invocation_keeps_single_owners,
    singly_owned,
};
use crate::kernel::{lemma_update_in_place, same_but_cspace, unchanged, user_context, KObject, KernelState};
use crate::constants::TLS_REGISTER;
use crate::message::{err_response, label_of, InvocationLabel, MessageInfo, ResponseLabel};
use crate::task::{TaskContext, ThreadState};
use crate::vspace::page_frame;

verus! {

/// Frame number of the top table of thread `t`'s address space: the table
/// designated by the capability in its `CAP_INIT_VSPACE` slot.
pub open spec fn vspace_of(st: KernelState, t: int) -> Option<int> {
    if st.has_cspace(t) && st.cspace(t)[CAP_INIT_VSPACE as int] is PageTable {
        Some(st.cspace(t)[CAP_INIT_VSPACE as int].base() as int)
    } else {
        None
    }
}

/// Where thread `t`'s IPC buffer lies: the frame object holding it and the
/// word offset in that frame, when the buffer's page is mapped to a frame
/// with room for a user context from there.
pub open spec fn ipc_location(st: KernelState, t: int) -> Option<(int, int)> {
    let objs = st.objects@;
    let v = st.task(t).ipc_buffer_vaddr;
    if v is None || vspace_of(st, t) is None {
        None
    } else {
        match page_frame(objs, vspace_of(st, t)->0, (v->0 / PAGE_SIZE_NORMAL) as nat) {
            None => None,
            Some(pf) => {
                let b = pf - pf % 512;
                if pf < objs.len() && objs[pf as int] is Frame
                    && USER_CONTEXT_WORDS <= objs[pf as int]->Frame_0.data@.len() {
                    Some((pf as int, 0))
                } else if 0 <= b < objs.len() && objs[b] is Frame && objs[b]->Frame_0.size_level == FRAME_LEVEL_2M
                    && (pf - b) * 512 + USER_CONTEXT_WORDS <= objs[b]->Frame_0.data@.len() {
                    Some((b, (pf - b) * 512))
                } else {
                    None
                }
            },
        }
    }
}

/// The words of frame `f` from offset `off` on that a user context takes.
pub open spec fn buffer_words(st: KernelState, f: int, off: int) -> Seq<usize> {
    st.objects@[f]->Frame_0.data@.subrange(off, off + USER_CONTEXT_WORDS)
}

impl KernelState {
    /// Frame number of the top table of thread `t`'s address space.
    pub fn get_vspace(&self, t: usize) -> (r: Option<usize>)
        requires
            self.wf(),
        ensures
            r == (match vspace_of(*self, t as int) {
                Some(v) => Some(v as usize),
                None => None,
            }),
    {
        if !self.has_cspace_at(t) {
            return None;
        }
        match self.get_slot(t, CAP_INIT_VSPACE) {
            Cap::PageTable { base_ptr, .. } => Some(base_ptr),
            _ => None,
        }
    }

    /// Locates thread `t`'s IPC buffer.
    pub fn get_ipc_buffer(&self, t: usize) -> (r: Option<(usize, usize)>)
        requires
            self.wf(),
            self.is_thread(t as int),
        ensures
            r == (match ipc_location(*self, t as int) {
                Some((f, off)) => Some((f as usize, off as usize)),
                None => None,
            }),
    {
        let vaddr = match &self.objects[t] {
            KObject::Thread(task) => task.ipc_buffer_vaddr,
            _ => None,
        };
        let vaddr = match vaddr {
            Some(v) => v,
            None => {
                return None;
            },
        };
        let vspace = match self.get_vspace(t) {
            Some(v) => v,
            None => {
                return None;
            },
        };
        let pf = match self.va_to_frame(vspace, vaddr) {
            Some(pf) => pf,
            None => {
                return None;
            },
        };
        if pf < self.objects.len() {
            if let KObject::Frame(fo) = &self.objects[pf] {
                if USER_CONTEXT_WORDS <= fo.data.len() {
                    return Some((pf, 0));
                }
            }
        }
        let b = pf - pf % WORDS_PER_PAGE;
        if b < self.objects.len() {
            if let KObject::Frame(fo) = &self.objects[b] {
                if fo.size_level == FRAME_LEVEL_2M {
                    assert(pf - b < 512);
                    let off = (pf - b) * WORDS_PER_PAGE;
                    if off + USER_CONTEXT_WORDS <= fo.data.len() {
                        return Some((b, off));
                    }
                }
            }
        }
        None
    }
}

/// What `TCBReadRegisters` of thread `task` by `current` does.
pub open spec fn read_registers_post(old: KernelState, new: KernelState, task: int, current: int, r: Result<usize, MessageInfo>) -> bool {
    &&& new.wf()
    &&& ipc_location(old, current) is None ==> r == err_response(ResponseLabel::NoIpcBuffer) && unchanged(old, new)
    &&& ipc_location(old, current) matches Some((f, off)) ==> {
        &&& r == Ok::<usize, MessageInfo>(0)
        &&& new.objects@.len() == old.objects@.len()
        &&& new.objects@[f] is Frame
        &&& new.objects@[f]->Frame_0.size_level == old.objects@[f]->Frame_0.size_level
        &&& new.objects@[f]->Frame_0.data@ == old.objects@[f]->Frame_0.data@.subrange(0, off) + user_context(
            old.task(task),
        ) + old.objects@[f]->Frame_0.data@.subrange(off + USER_CONTEXT_WORDS, old.objects@[f]->Frame_0.data@.len() as int)
        &&& forall|j: int| 0 <= j < old.objects@.len() && j != f ==> new.objects@[j] == old.objects@[j]
        &&& new.heap@ == old.heap@
        &&& new.scheduler@ == old.scheduler@
        &&& new.current_task == old.current_task
    }
}

/// What `TCBWriteRegisters` of thread `task` by `current` does.
pub open spec fn write_registers_post(old: KernelState, new: KernelState, task: int, current: int, r: Result<usize, MessageInfo>) -> bool {
    &&& new.wf()
    &&& ipc_location(old, current) is None ==> r == err_response(ResponseLabel::NoIpcBuffer) && unchanged(old, new)
    &&& ipc_location(old, current) matches Some((f, off)) ==> {
        let t0 = old.task(task);
        let t1 = new.task(task);
        &&& r == Ok::<usize, MessageInfo>(0)
        &&& new.is_thread(task)
        &&& user_context(t1) == buffer_words(old, f, off)
        &&& t1.state == t0.state
        &&& t1.prio == t0.prio
        &&& t1.is_queued == t0.is_queued
        &&& t1.cspace == t0.cspace
        &&& t1.ipc_buffer_vaddr == t0.ipc_buffer_vaddr
        &&& new.objects@.len() == old.objects@.len()
        &&& forall|j: int| 0 <= j < old.objects@.len() && j != task ==> new.objects@[j] == old.objects@[j]
        &&& new.heap@ == old.heap@
        &&& new.scheduler@ == old.scheduler@
        &&& new.current_task == old.current_task
    }
}

/// Copies the user context of `task` into the IPC buffer of `current`.
pub fn handle_read_registers(st: &mut KernelState, task: usize, current: usize) -> (r: Result<usize, MessageInfo>)
    requires
        old(st).wf(),
        old(st).is_thread(task as int),
        old(st).is_thread(current as int),
    ensures
        read_registers_post(*old(st), *final(st), task as int, current as int, r),
{
    let (f, off) = match st.get_ipc_buffer(current) {
        Some(loc) => loc,
        None => {
            return Err(MessageInfo::new_response(ResponseLabel::NoIpcBuffer));
        },
    };
    let ctx = st.user_context_of(task);
    let ghost g = st.objects@;
    match &mut st.objects[f] {
        KObject::Frame(fo) => {
            let ghost d0 = fo.data@;
            let ghost lvl = fo.size_level;
            let mut i: usize = 0;
            while i < USER_CONTEXT_WORDS
                invariant
                    i <= USER_CONTEXT_WORDS,
                    ctx@.len() == USER_CONTEXT_WORDS,
                    off + USER_CONTEXT_WORDS <= fo.data.len(),
                    off + USER_CONTEXT_WORDS <= d0.len(),
                    fo.size_level == lvl,
                    fo.data@.len() == d0.len(),
                    forall|k: int|
                        0 <= k < d0.len() ==> #[trigger] fo.data@[k] == (if off <= k < off + i {
                            ctx@[k - off]
                        } else {
                            d0[k]
                        }),
                decreases USER_CONTEXT_WORDS - i,
            {
                fo.data.set(off + i, ctx[i]);
                i = i + 1;
            }
            assert(fo.data@ =~= d0.subrange(0, off as int) + ctx@ + d0.subrange(off + USER_CONTEXT_WORDS, d0.len() as int));
        },
        _ => {},
    }
    proof {
        assert(st.objects@ == g.update(f as int, st.objects@[f as int]));
        lemma_update_in_place(g, st.heap@, f as int, st.objects@[f as int]);
    }
    Ok(0)
}

/// Loads the user context stored in the IPC buffer of `current` into `task`.
pub fn handle_write_registers(st: &mut KernelState, task: usize, current: usize) -> (r: Result<usize, MessageInfo>)
    requires
        old(st).wf(),
        old(st).is_thread(task as int),
        old(st).is_thread(current as int),
    ensures
        write_registers_post(*old(st), *final(st), task as int, current as int, r),
{
    let (f, off) = match st.get_ipc_buffer(current) {
        Some(loc) => loc,
        None => {
            return Err(MessageInfo::new_response(ResponseLabel::NoIpcBuffer));
        },
    };
    let mut words: Vec<usize> = Vec::new();
    match &st.objects[f] {
        KObject::Frame(fo) => {
            let mut i: usize = 0;
            while i < USER_CONTEXT_WORDS
                invariant
                    i <= USER_CONTEXT_WORDS,
                    off + USER_CONTEXT_WORDS <= fo.data.len(),
                    words@ == fo.data@.subrange(off as int, off + i),
                decreases USER_CONTEXT_WORDS - i,
            {
                words.push(fo.data[off + i]);
                i = i + 1;
            }
        },
        _ => {},
    }
    let ghost g = st.objects@;
    match &mut st.objects[task] {
        KObject::Thread(t) => {
            let ghost t0 = *t;
            let mut i: usize = 0;
            while i < MAX_GENERAL_REGISTER_NUM
                invariant
                    i <= MAX_GENERAL_REGISTER_NUM,
                    t.hal_context.wf(),
                    t.state == t0.state,
                    t.prio == t0.prio,
                    t.is_queued == t0.is_queued,
                    t.cspace == t0.cspace,
                    t.ipc_buffer_vaddr == t0.ipc_buffer_vaddr,
                    words@.len() == USER_CONTEXT_WORDS,
                    forall|k: int| 0 <= k < i ==> #[trigger] t.hal_context.regs@[k] == words@[k],
                decreases MAX_GENERAL_REGISTER_NUM - i,
            {
                t.hal_context.set_reg(i, words[i]);
                i = i + 1;
            }
            t.hal_context.next_ip = words[MAX_GENERAL_REGISTER_NUM];
            assert(t.hal_context.regs@.push(t.hal_context.next_ip) =~= words@);
        },
        _ => {},
    }
    proof {
        assert(st.objects@ == g.update(task as int, st.objects@[task as int]));
        lemma_update_in_place(g, st.heap@, task as int, st.objects@[task as int]);
    }
    Ok(0)
}

/// `new` is `old` with thread `t` replaced by `nt` alone.
pub open spec fn thread_changed(old: KernelState, new: KernelState, t: int, nt: TaskContext) -> bool {
    &&& new.wf()
    &&& new.is_thread(t)
    &&& new.task(t) == nt
    &&& new.objects@.len() == old.objects@.len()
    &&& forall|j: int| 0 <= j < old.objects@.len() && j != t ==> new.objects@[j] == old.objects@[j]
    &&& new.heap@ == old.heap@
    &&& new.current_task == old.current_task
}

/// `b` is thread `a` with the state `s`.
pub open spec fn with_state(a: TaskContext, b: TaskContext, s: ThreadState) -> bool {
    &&& b.state == s
    &&& b.hal_context == a.hal_context
    &&& b.prio == a.prio
    &&& b.is_queued == a.is_queued
    &&& b.cspace == a.cspace
    &&& b.ipc_buffer_vaddr == a.ipc_buffer_vaddr
}

/// What `TCBSetSpace` on thread `t` by `current` with the page-table
/// capability in `current`'s slot `i` does.
pub open spec fn set_space_post(old: KernelState, new: KernelState, t: int, current: int, i: int, r: Result<usize, MessageInfo>) -> bool {
    let cap = old.cspace(current)[i];
    &&& new.wf()
    &&& new.current_task == old.current_task
    &&& singly_owned(old.objects@) ==> singly_owned(new.objects@)
    &&& if !(cap is PageTable) {
        r == err_response(ResponseLabel::ErrCapType) && unchanged(old, new)
    } else if t == current && i == CAP_INIT_VSPACE {
        r == Ok::<usize, MessageInfo>(0) && unchanged(old, new)
    } else if t != current && !old.has_cspace(t) {
        r == err_response(ResponseLabel::NotEnoughSpace) && unchanged(old, new)
    } else {
        &&& r == Ok::<usize, MessageInfo>(0)
        &&& new.has_cspace(t) ==> new.cspace(t)[CAP_INIT_VSPACE as int] == cap.derived_of()
        &&& t != current && new.is_page_table(cap.base() as int)
            ==> new.objects@[cap.base() as int]->PageTable_0.kernel_window
    }
}

/// Whether an invocation label is one of the capability-table labels.
pub open spec fn is_table_label(l: InvocationLabel) -> bool {
    match l {
        InvocationLabel::CNodeAlloc | InvocationLabel::CNodeDelete | InvocationLabel::CNodeCopy
        | InvocationLabel::CNodeMint | InvocationLabel::CNodeMove | InvocationLabel::CNodeMutate
        | InvocationLabel::CNodeRotate | InvocationLabel::CNodeSaveCaller => true,
        _ => false,
    }
}

/// Operand values that a thread invocation needs to stay in range.
pub open spec fn task_request_ok(st: KernelState, current: int, t: int, tag: usize) -> bool {
    match label_of(tag) {
        Some(l) => if is_table_label(l) {
            cspace_request_ok(st, current, t, tag)
        } else if l == InvocationLabel::TCBSetSpace {
            st.task(current).hal_context.mr(0) < MAX_CNODE_SIZE
        } else {
            true
        },
        None => true,
    }
}

/// What an invocation of the thread at `t` by `current` with tag `tag` does.
pub open spec fn task_post(old: KernelState, new: KernelState, current: int, t: int, tag: usize, r: Result<usize, MessageInfo>) -> bool {
    let mr0 = old.task(current).hal_context.mr(0);
    let t0 = old.task(t);
    if !old.is_thread(t) {
        r == err_response(ResponseLabel::ErrCapType) && unchanged(old, new) && new.wf()
    } else {
        match label_of(tag) {
            Some(l) => if is_table_label(l) {
                cspace_post(old, new, current, t, tag, r)
            } else {
                match l {
                    InvocationLabel::TCBSuspend => {
                        &&& r == Ok::<usize, MessageInfo>(0)
                        &&& thread_changed(old, new, t, new.task(t))
                        &&& with_state(t0, new.task(t), ThreadState::Inactive)
                        &&& new.scheduler@ == old.scheduler@
                    },
                    InvocationLabel::TCBResume => {
                        &&& r == Ok::<usize, MessageInfo>(0)
                        &&& if t0.is_queued {
                            unchanged(old, new) && new.wf()
                        } else if t == current {
                            thread_changed(old, new, t, new.task(t)) && with_state(t0, new.task(t), ThreadState::Restart)
                                && new.scheduler@ == old.scheduler@
                        } else {
                            &&& thread_changed(old, new, t, new.task(t))
                            &&& new.task(t).state == ThreadState::Restart
                            &&& new.task(t).is_queued
                            &&& new.task(t).hal_context == t0.hal_context
                            &&& new.task(t).cspace == t0.cspace
                            &&& new.task(t).ipc_buffer_vaddr == t0.ipc_buffer_vaddr
                            &&& new.task(t).prio == t0.prio
                            &&& new.scheduler@ == old.scheduler@.push(t as usize)
                        }
                    },
                    InvocationLabel::TCBSetIPCBuffer => if mr0 % PAGE_SIZE_NORMAL != 0 {
                        r == err_response(ResponseLabel::InvalidParam) && unchanged(old, new) && new.wf()
                    } else {
                        &&& r == Ok::<usize, MessageInfo>(0)
                        &&& if vspace_of(old, current) is Some && page_frame(
                            old.objects@,
                            vspace_of(old, current)->0,
                            (mr0 / PAGE_SIZE_NORMAL) as nat,
                        ) is Some {
                            &&& thread_changed(old, new, t, new.task(t))
                            &&& new.task(t).ipc_buffer_vaddr == Some(mr0)
                            &&& new.task(t).hal_context == t0.hal_context
                            &&& new.task(t).state == t0.state
                            &&& new.task(t).cspace == t0.cspace
                            &&& new.scheduler@ == old.scheduler@
                        } else {
                            unchanged(old, new) && new.wf()
                        }
                    },
                    InvocationLabel::TCBSetSpace => set_space_post(old, new, t, current, mr0 as int, r),
                    InvocationLabel::TCBSetTLSBase => {
                        &&& r == Ok::<usize, MessageInfo>(0)
                        &&& thread_changed(old, new, t, new.task(t))
                        &&& new.task(t).hal_context.regs@ == t0.hal_context.regs@.update(TLS_REGISTER as int, mr0)
                        &&& new.task(t).hal_context.next_ip == t0.hal_context.next_ip
                        &&& new.task(t).state == t0.state
                        &&& new.task(t).cspace == t0.cspace
                        &&& new.task(t).ipc_buffer_vaddr == t0.ipc_buffer_vaddr
                        &&& new.scheduler@ == old.scheduler@
                    },
                    InvocationLabel::TCBReadRegisters => read_registers_post(old, new, t, current, r),
                    InvocationLabel::TCBWriteRegisters => write_registers_post(old, new, t, current, r),
                    _ => r == err_response(ResponseLabel::UnSupported) && unchanged(old, new) && new.wf(),
                }
            },
            None => r == err_response(ResponseLabel::UnSupported) && unchanged(old, new) && new.wf(),
        }
    }
}

/// Handles an invocation, by thread `current`, of a capability to the
/// thread at `dest_cap`'s frame. Capability-table labels act on that
/// thread's own table.
pub fn handle(st: &mut KernelState, current: usize, dest_cap: Cap, message_info: MessageInfo) -> (r: Result<usize, MessageInfo>)
    requires
        old(st).wf(),
        old(st).has_cspace(current as int),
        task_request_ok(*old(st), current as int, dest_cap.base() as int, message_info.word),
    ensures
        task_post(*old(st), *final(st), current as int, dest_cap.base() as int, message_info.word, r),
{
    let task = dest_cap.base_ptr();
    if !st.is_thread_at(task) {
        return Err(MessageInfo::new_response(ResponseLabel::ErrCapType));
    }
    let label = message_info.get_label();
    if label >= 1 && label <= 8 {
        return cspace_handler::handle(st, current, dest_cap, message_info);
    }
    match InvocationLabel::from_usize(label) {
        Some(InvocationLabel::TCBSuspend) => {
            let ghost g = st.objects@;
            match &mut st.objects[task] {
                KObject::Thread(t) => {
                    t.state = ThreadState::Inactive;
                },
                _ => {},
            }
            proof {
                assert(st.objects@ == g.update(task as int, st.objects@[task as int]));
                lemma_update_in_place(g, st.heap@, task as int, st.objects@[task as int]);
            }
            Ok(0)
        },
        Some(InvocationLabel::TCBResume) => {
            let queued = match &st.objects[task] {
                KObject::Thread(t) => t.is_queued,
                _ => true,
            };
            if !queued {
                let ghost g = st.objects@;
                let enqueue = task != current;
                match &mut st.objects[task] {
                    KObject::Thread(t) => {
                        t.state = ThreadState::Restart;
                        if enqueue {
                            t.is_queued = true;
                        }
                    },
                    _ => {},
                }
                proof {
                    assert(st.objects@ == g.update(task as int, st.objects@[task as int]));
                    lemma_update_in_place(g, st.heap@, task as int, st.objects@[task as int]);
                }
                if enqueue {
                    st.scheduler.enqueue_back(task);
                }
            }
            Ok(0)
        },
        Some(InvocationLabel::TCBSetIPCBuffer) => {
            let vaddr = st.get_mr(current, 0);
            if vaddr % PAGE_SIZE_NORMAL != 0 {
                return Err(MessageInfo::new_response(ResponseLabel::InvalidParam));
            }
            if let Some(vspace) = st.get_vspace(current) {
                if st.va_to_frame(vspace, vaddr).is_some() {
                    let ghost g = st.objects@;
                    match &mut st.objects[task] {
                        KObject::Thread(t) => {
                            t.ipc_buffer_vaddr = Some(vaddr);
                        },
                        _ => {},
                    }
                    proof {
                        assert(st.objects@ == g.update(task as int, st.objects@[task as int]));
                        lemma_update_in_place(g, st.heap@, task as int, st.objects@[task as int]);
                    }
                }
            }
            Ok(0)
        },
        Some(InvocationLabel::TCBSetSpace) => handle_set_space(st, task, current),
        Some(InvocationLabel::TCBSetTLSBase) => {
            let tls_base = st.get_mr(current, 0);
            let ghost g = st.objects@;
            match &mut st.objects[task] {
                KObject::Thread(t) => {
                    t.hal_context.set_tls_base(tls_base);
                },
                _ => {},
            }
            proof {
                assert(st.objects@ == g.update(task as int, st.objects@[task as int]));
                lemma_update_in_place(g, st.heap@, task as int, st.objects@[task as int]);
            }
            Ok(0)
        },
        Some(InvocationLabel::TCBReadRegisters) => handle_read_registers(st, task, current),
        Some(InvocationLabel::TCBWriteRegisters) => handle_write_registers(st, task, current),
        _ => Err(MessageInfo::new_response(ResponseLabel::UnSupported)),
    }
}

/// Gives thread `task` the address space whose page-table capability is in
/// slot `mr0` of `current`'s table: the old `CAP_INIT_VSPACE` slot is
/// released and a copy of that capability takes its place. Another thread's
/// new address space gets the kernel window.
pub fn handle_set_space(st: &mut KernelState, task: usize, current: usize) -> (r: Result<usize, MessageInfo>)
    requires
        old(st).wf(),
        old(st).has_cspace(current as int),
        old(st).is_thread(task as int),
        old(st).task(current as int).hal_context.mr(0) < MAX_CNODE_SIZE,
    ensures
        set_space_post(*old(st), *final(st), task as int, current as int, old(st).task(current as int).hal_context.mr(0) as int, r),
{
    let is_current = task == current;
    let index = st.get_mr(current, 0);
    let vspace_cap = st.get_slot(current, index);
    let vspace = match vspace_cap {
        Cap::PageTable { base_ptr, .. } => base_ptr,
        _ => {
            return Err(MessageInfo::new_response(ResponseLabel::ErrCapType));
        },
    };
    let copy = vspace_cap.derive();
    let ghost s0 = *st;
    if is_current {
        if index != CAP_INIT_VSPACE {
            st.free_slot(current, CAP_INIT_VSPACE);
            let ghost s1 = *st;
            proof {
                if singly_owned(s0.objects@) {
                    lemma_delete_keeps_single_owners(s0, s1, current as int, CAP_INIT_VSPACE as int);
                }
            }
            if st.has_cspace_at(current) {
                st.set_slot(current, CAP_INIT_VSPACE, copy);
                proof {
                    if singly_owned(s0.objects@) {
                        lemma_put_non_owning(s1, *st, current as int, CAP_INIT_VSPACE as int, copy);
                    }
                }
            }
        }
    } else {
        if !st.has_cspace_at(task) {
            return Err(MessageInfo::new_response(ResponseLabel::NotEnoughSpace));
        }
        st.free_slot(task, CAP_INIT_VSPACE);
        let ghost s1 = *st;
        proof {
            if singly_owned(s0.objects@) {
                lemma_delete_keeps_single_owners(s0, s1, task as int, CAP_INIT_VSPACE as int);
            }
        }
        if st.is_page_table_at(vspace) {
            st.map_kernel_window(vspace);
            proof {
                lemma_object_replaced(s1.objects@, st.objects@, vspace as int);
                if singly_owned(s0.objects@) {
                    lemma_single_owners_kept_all(s1.objects@, st.objects@);
                }
            }
        }
        let ghost s2 = *st;
        if st.has_cspace_at(task) {
            proof {
                if !s1.has_cspace(task as int) {
                    assert(s2.objects@[task as int] == s1.objects@[task as int]);
                }
                assert(s2.cspace(task as int) == s1.cspace(task as int));
            }
            st.set_slot(task, CAP_INIT_VSPACE, copy);
            proof {
                if singly_owned(s0.objects@) {
                    lemma_put_non_owning(s2, *st, task as int, CAP_INIT_VSPACE as int, copy);
                }
            }
        }
    }
    Ok(0)
}

} // verus!

verus! {

/// Every invocation of a thread keeps objects singly owned.
pub proof fn lemma_thread_invocation_keeps_single_owners(
    s0: KernelState,
    s1: KernelState,
    current: int,
    t: int,
    tag: usize,
    r: Result<usize, MessageInfo>,
)
    requires
        s0.wf(),
        s0.has_cspace(current),
        singly_owned(s0.objects@),
        task_request_ok(s0, current, t, tag),
        task_post(s0, s1, current, t, tag, r),
    ensures
        singly_owned(s1.objects@),
{
    let o0 = s0.objects@;
    let o1 = s1.objects@;
    if !s0.is_thread(t) {
        assert(o1 == o0);
    } else {
        match label_of(tag) {
            Some(l) => if is_table_label(l) {
                lemma_table_invocation_keeps_single_owners(s0, s1, current, t, tag, r);
            } else {
                match l {
                    InvocationLabel::TCBSetSpace => {},
                    InvocationLabel::TCBReadRegisters => {
                        match ipc_location(s0, current) {
                            Some((f, off)) => {
                                lemma_object_replaced(o0, o1, f);
                                lemma_single_owners_kept_all(o0, o1);
                            },
                            None => {
                                assert(o1 == o0);
                            },
                        }
                    },
                    _ => {
                        if o1 != o0 {
                            assert(s1.is_thread(t));
                            assert(o1[t]->Thread_0.cspace == o0[t]->Thread_0.cspace);
                            lemma_object_replaced(o0, o1, t);
                            lemma_single_owners_kept_all(o0, o1);
                        }
                    },
                }
            },
            None => {
                assert(o1 == o0);
            },
        }
    }
}

} // verus!
