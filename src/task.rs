use vstd::prelude::*;

use crate::cnode::CapNode;
use crate::constants::{
    CAP_REGISTER, MAX_GENERAL_REGISTER_NUM, MAX_MR, MR_BASE_REGISTER, TAG_REGISTER, TLS_REGISTER,
};
use crate::message::MessageInfo;

verus! {

/// Scheduling state of a thread.
#[derive(Clone, Copy, Debug, PartialEq, Eq, Structural)]
pub enum ThreadState {
    Inactive,
    Restart,
    Running,
    BlockedOnReceive,
}

/// Saved user registers of a thread.
pub struct HalContext {
    pub regs: Vec<usize>,
    pub next_ip: usize,
}

impl HalContext {
    pub open spec fn wf(&self) -> bool {
        self.regs.len() == MAX_GENERAL_REGISTER_NUM
    }

    pub open spec fn reg(&self, i: int) -> usize {
        self.regs@[i]
    }

    /// Message register `i`.
    pub open spec fn mr(&self, i: int) -> usize {
        self.regs@[MR_BASE_REGISTER + i]
    }

    pub open spec fn cap(&self) -> usize {
        self.regs@[CAP_REGISTER as int]
    }

    pub open spec fn tag(&self) -> usize {
        self.regs@[TAG_REGISTER as int]
    }

    pub fn new() -> (r: HalContext)
        ensures
            r.wf(),
            forall|i: int| 0 <= i < MAX_GENERAL_REGISTER_NUM ==> #[trigger] r.reg(i) == 0,
            r.next_ip == 0,
    {
        let mut regs: Vec<usize> = Vec::new();
        let mut i: usize = 0;
        while i < MAX_GENERAL_REGISTER_NUM
            invariant
                i <= MAX_GENERAL_REGISTER_NUM,
                regs@ == Seq::new(i as nat, |j: int| 0usize),
            decreases MAX_GENERAL_REGISTER_NUM - i,
        {
            regs.push(0);
            i = i + 1;
        }
        HalContext { regs, next_ip: 0 }
    }

    pub fn get_reg(&self, i: usize) -> (r: usize)
        requires
            self.wf(),
            i < MAX_GENERAL_REGISTER_NUM,
        ensures
            r == self.reg(i as int),
    {
        self.regs[i]
    }

    pub fn set_reg(&mut self, i: usize, v: usize)
        requires
            old(self).wf(),
            i < MAX_GENERAL_REGISTER_NUM,
        ensures
            final(self).wf(),
            final(self).regs@ == old(self).regs@.update(i as int, v),
            final(self).next_ip == old(self).next_ip,
    {
        self.regs.set(i, v);
    }

    /// Destination capability index of the pending syscall.
    pub fn get_cap(&self) -> (r: usize)
        requires
            self.wf(),
        ensures
            r == self.cap(),
    {
        self.regs[CAP_REGISTER]
    }

    pub fn get_tag(&self) -> (r: MessageInfo)
        requires
            self.wf(),
        ensures
            r.word == self.tag(),
    {
        MessageInfo::from_word(self.regs[TAG_REGISTER])
    }

    pub fn set_tag(&mut self, tag: MessageInfo)
        requires
            old(self).wf(),
        ensures
            final(self).wf(),
            final(self).regs@ == old(self).regs@.update(TAG_REGISTER as int, tag.word),
            final(self).next_ip == old(self).next_ip,
    {
        self.regs.set(TAG_REGISTER, tag.word);
    }

    pub fn get_mr(&self, i: usize) -> (r: usize)
        requires
            self.wf(),
            i < MAX_MR,
        ensures
            r == self.mr(i as int),
    {
        self.regs[MR_BASE_REGISTER + i]
    }

    pub fn set_mr(&mut self, i: usize, v: usize)
        requires
            old(self).wf(),
            i < MAX_MR,
        ensures
            final(self).wf(),
            final(self).regs@ == old(self).regs@.update(MR_BASE_REGISTER + i, v),
            final(self).next_ip == old(self).next_ip,
    {
        self.regs.set(MR_BASE_REGISTER + i, v);
    }

    pub fn set_tls_base(&mut self, v: usize)
        requires
            old(self).wf(),
        ensures
            final(self).wf(),
            final(self).regs@ == old(self).regs@.update(TLS_REGISTER as int, v),
            final(self).next_ip == old(self).next_ip,
    {
        self.regs.set(TLS_REGISTER, v);
    }
}

/// A thread control block.
pub struct TaskContext {
    pub hal_context: HalContext,
    pub state: ThreadState,
    pub prio: usize,
    pub is_queued: bool,
    /// The thread's own capability table, which it owns.
    pub cspace: Option<CapNode>,
    /// Virtual address of the IPC buffer in the thread's address space.
    pub ipc_buffer_vaddr: Option<usize>,
}

impl TaskContext {
    pub open spec fn wf(&self) -> bool {
        &&& self.hal_context.wf()
        &&& self.cspace is Some ==> self.cspace->0.wf()
    }

    /// A fresh inactive user thread with zeroed registers and no tables.
    pub fn new_user_thread() -> (r: TaskContext)
        ensures
            r.wf(),
            r.state == ThreadState::Inactive,
            r.prio == 0,
            !r.is_queued,
            r.cspace is None,
            r.ipc_buffer_vaddr is None,
            forall|i: int| 0 <= i < MAX_GENERAL_REGISTER_NUM ==> #[trigger] r.hal_context.reg(i) == 0,
    {
        TaskContext {
            hal_context: HalContext::new(),
            state: ThreadState::Inactive,
            prio: 0,
            is_queued: false,
            cspace: None,
            ipc_buffer_vaddr: None,
        }
    }

    /// Gives the thread an empty capability table of its own.
    pub fn init_cspace(&mut self)
        requires
            old(self).wf(),
        ensures
            final(self).wf(),
            final(self).cspace is Some,
            final(self).cspace->0@ == crate::cnode::empty_table(),
            final(self).hal_context == old(self).hal_context,
            final(self).state == old(self).state,
            final(self).prio == old(self).prio,
            final(self).is_queued == old(self).is_queued,
            final(self).ipc_buffer_vaddr == old(self).ipc_buffer_vaddr,
    {
        self.cspace = Some(CapNode::new());
    }
}

} // verus!
