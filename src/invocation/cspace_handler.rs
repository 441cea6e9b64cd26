use vstd::prelude::*;

use crate::cap::Cap;
use crate::cnode::{empty_table, first_free, CapNode};
use crate::constants::{
    CAP_INIT_VSPACE, FRAME_LEVEL_2M, FRAME_LEVEL_4K, MAX_CNODE_SIZE, MAX_THREAD_PRIO, PAGE_SIZE_2M,
    PAGE_SIZE_NORMAL,
};
use crate::heap::{block_free, mark, pages_for};
use crate::kernel::{
    block_len, has_table, lemma_only_released_refl, lemma_only_released_trans, lemma_tables_kept_trans,
    live, live_count, only_released, same_but_cspace, table_of, tables_kept, unchanged, FrameObject,
    KObject, KernelState,
};
use crate::message::{
    err_response, label_of, object_type_of, InvocationLabel, MessageInfo, ObjectType, ResponseLabel,
};
use crate::task::ThreadState;
use crate::notification::Notification;
use crate::page_table::PageTable;
use crate::task::TaskContext;

verus! {

/// Whether `cap` owns the live object it designates: the object at its
/// frame is of its type (and, for a frame, of its size level).
pub open spec fn owns_live(objs: Seq<KObject>, cap: Cap) -> bool {
    let b = cap.base() as int;
    &&& cap.is_owning()
    &&& 0 <= b < objs.len()
    &&& match cap {
        Cap::Frame { size_level, .. } => objs[b] is Frame && objs[b]->Frame_0.size_level == size_level,
        Cap::PageTable { .. } => objs[b] is PageTable,
        Cap::Thread { .. } => objs[b] is Thread,
        Cap::Notification { .. } => objs[b] is Notification,
        _ => false,
    }
}

/// Whether releasing what `cap` owns frees that object alone: it is not a
/// thread with capabilities to walk, nor a notification with waiters.
pub open spec fn releases_alone(objs: Seq<KObject>, cap: Cap) -> bool {
    let o = objs[cap.base() as int];
    &&& owns_live(objs, cap)
    &&& match o {
        KObject::Thread(t) => t.cspace is None || forall|j: int|
            0 <= j < MAX_CNODE_SIZE ==> (#[trigger] t.cspace->0@[j]) is Null,
        KObject::Notification(n) => n.waiters@.len() == 0,
        _ => true,
    }
}

/// Whether object `o` is owned by a capability in the table of a thread of
/// `old` that `new` no longer has.
pub open spec fn owned_in_gone_table(old: Seq<KObject>, new: Seq<KObject>, o: int) -> bool {
    exists|w: int, j: int|
        #![trigger table_of(old, w)[j], live(new, w)]
        !live(new, w) && has_table(old, w) && 0 <= j < MAX_CNODE_SIZE && table_of(old, w)[j].is_owning()
            && table_of(old, w)[j].base() == o
}

/// Every object of `old` that `new` no longer has is the one `cap` owns,
/// or was owned from the table of a thread that is gone too.
pub open spec fn freed_by(old: Seq<KObject>, new: Seq<KObject>, cap: Cap) -> bool {
    forall|o: int|
        #[trigger] live(old, o) && !live(new, o) ==> (o == cap.base() && owns_live(old, cap))
            || owned_in_gone_table(old, new, o)
}

/// What releasing `cap` does to the kernel.
pub open spec fn released(old: KernelState, new: KernelState, cap: Cap) -> bool {
    let b = cap.base() as int;
    &&& new.wf()
    &&& only_released(old, new)
    &&& tables_kept(old.objects@, new.objects@)
    &&& freed_by(old.objects@, new.objects@, cap)
    &&& !owns_live(old.objects@, cap) ==> new == old
    &&& owns_live(old.objects@, cap) ==> !live(new.objects@, b) && block_free(
        new.heap@,
        b,
        block_len(old.objects@, b) as int,
    )
    &&& releases_alone(old.objects@, cap) ==> {
        &&& new.objects@ == old.objects@.update(b, KObject::Free)
        &&& new.heap@ == mark(old.heap@, b, block_len(old.objects@, b) as int, false)
        &&& new.scheduler@ == old.scheduler@
    }
}

/// Heap layout (size, alignment) in bytes of an object of type `ty`.
pub open spec fn layout_of(ty: ObjectType) -> (nat, nat) {
    match ty {
        ObjectType::CNode => (vstd::layout::size_of::<CapNode>(), PAGE_SIZE_NORMAL as nat),
        ObjectType::Thread => (vstd::layout::size_of::<TaskContext>(), PAGE_SIZE_NORMAL as nat),
        ObjectType::PageTable => (vstd::layout::size_of::<PageTable>(), PAGE_SIZE_NORMAL as nat),
        ObjectType::Frame4K => (PAGE_SIZE_NORMAL as nat, PAGE_SIZE_NORMAL as nat),
        ObjectType::Frame2M => (PAGE_SIZE_2M as nat, PAGE_SIZE_2M as nat),
        ObjectType::Notification => (vstd::layout::size_of::<Notification>(), PAGE_SIZE_NORMAL as nat),
    }
}

/// The owning capability to a new object of type `ty` at frame `p`.
pub open spec fn fresh_cap(ty: ObjectType, p: usize) -> Cap {
    match ty {
        ObjectType::Frame4K => Cap::Frame {
            base_ptr: p,
            size_level: FRAME_LEVEL_4K,
            is_mapped: false,
            mapped_addr: 0,
            derived: false,
        },
        ObjectType::Frame2M => Cap::Frame {
            base_ptr: p,
            size_level: FRAME_LEVEL_2M,
            is_mapped: false,
            mapped_addr: 0,
            derived: false,
        },
        ObjectType::PageTable => Cap::PageTable {
            base_ptr: p,
            is_mapped: false,
            mapped_addr: 0,
            level: 0,
            derived: false,
        },
        ObjectType::Thread => Cap::Thread { base_ptr: p, derived: false },
        ObjectType::Notification => Cap::Notification { base_ptr: p, badge: 0, derived: false },
        ObjectType::CNode => Cap::Null,
    }
}

/// Whether `o` is a newly made object of type `ty`.
pub open spec fn is_fresh_object(o: KObject, ty: ObjectType) -> bool {
    match ty {
        ObjectType::Frame4K => o is Frame && o->Frame_0.size_level == FRAME_LEVEL_4K,
        ObjectType::Frame2M => o is Frame && o->Frame_0.size_level == FRAME_LEVEL_2M,
        ObjectType::PageTable => o is PageTable && o->PageTable_0.entries@.len() == 0
            && !o->PageTable_0.kernel_window,
        ObjectType::Thread => o is Thread && {
            let t = o->Thread_0;
            &&& t.state == ThreadState::Inactive
            &&& t.prio == MAX_THREAD_PRIO - 1
            &&& !t.is_queued
            &&& t.cspace is Some
            &&& t.cspace->0@ == empty_table()
            &&& t.ipc_buffer_vaddr is None
        },
        ObjectType::Notification => o is Notification && o->Notification_0.signal_word == 0
            && o->Notification_0.waiters@.len() == 0,
        ObjectType::CNode => false,
    }
}

/// What `CNodeAlloc` of type `ty` into thread `t`'s table does.
pub open spec fn alloc_post(old: KernelState, new: KernelState, t: int, ty: ObjectType, r: Result<usize, MessageInfo>) -> bool {
    let n = pages_for(layout_of(ty).0) as int;
    let step = (layout_of(ty).1 / PAGE_SIZE_NORMAL as nat) as int;
    &&& new.wf()
    &&& match first_free(old.cspace(t)) {
        None => r == err_response(ResponseLabel::NotEnoughSpace) && unchanged(old, new),
        Some(k) => match r {
            Ok(v) => {
                let c = new.cspace(t)[k as int];
                let p = c.base() as int;
                &&& v == k
                &&& c == fresh_cap(ty, c.base())
                &&& !live(old.objects@, p)
                &&& block_free(old.heap@, p, n)
                &&& p % step == 0
                &&& new.heap@ == mark(old.heap@, p, n, true)
                &&& is_fresh_object(new.objects@[p], ty)
                &&& new.has_cspace(t)
                &&& new.cspace(t) == old.cspace(t).update(k as int, c)
                &&& same_but_cspace(old.task(t), new.task(t))
                &&& new.objects@.len() == old.objects@.len()
                &&& forall|j: int| 0 <= j < old.objects@.len() && j != p && j != t ==> new.objects@[j] == old.objects@[j]
                &&& new.scheduler@ == old.scheduler@
                &&& new.current_task == old.current_task
            },
            Err(_) => r == err_response(ResponseLabel::NotEnoughSpace) && unchanged(old, new)
                && forall|q: int| 0 <= q && q % step == 0 ==> !block_free(old.heap@, q, n),
        },
    }
}

/// Allocates kernel objects into the table of the thread at `holder`.
pub struct AllocHandler {
    pub holder: usize,
}

impl AllocHandler {
    /// Allocates an object of type `object_type` and stores its owning
    /// capability in the lowest free slot; returns that slot.
    pub fn handle(&self, st: &mut KernelState, object_type: ObjectType) -> (r: Result<usize, MessageInfo>)
        requires
            old(st).wf(),
            old(st).has_cspace(self.holder as int),
            object_type != ObjectType::CNode,
        ensures
            alloc_post(*old(st), *final(st), self.holder as int, object_type, r),
    {
        let slot = match st.alloc_free_slot(self.holder) {
            Some(slot) => slot,
            None => {
                return Err(MessageInfo::new_response(ResponseLabel::NotEnoughSpace));
            },
        };
        let (size, align) = Self::get_layout(&object_type);
        let (obj, level) = match object_type {
            ObjectType::Frame4K => (
                KObject::Frame(FrameObject { size_level: FRAME_LEVEL_4K, data: vec![0usize; 512] }),
                FRAME_LEVEL_4K,
            ),
            ObjectType::Frame2M => (
                KObject::Frame(FrameObject { size_level: FRAME_LEVEL_2M, data: vec![0usize; 262144] }),
                FRAME_LEVEL_2M,
            ),
            ObjectType::PageTable => (KObject::PageTable(PageTable::new()), 0),
            ObjectType::Thread => {
                let mut task = TaskContext::new_user_thread();
                task.init_cspace();
                task.prio = MAX_THREAD_PRIO - 1;
                (KObject::Thread(task), 0)
            },
            ObjectType::Notification => (KObject::Notification(Notification::new()), 0),
            ObjectType::CNode => (KObject::Free, 0),
        };
        assert(size == crate::kernel::object_bytes(obj));
        let ghost s0 = *st;
        let p = match st.place_object(obj, align) {
            Some(p) => p,
            None => {
                return Err(MessageInfo::new_response(ResponseLabel::NotEnoughSpace));
            },
        };
        let cap = match object_type {
            ObjectType::Frame4K | ObjectType::Frame2M => Cap::Frame {
                base_ptr: p,
                size_level: level,
                is_mapped: false,
                mapped_addr: 0,
                derived: false,
            },
            ObjectType::PageTable => Cap::PageTable {
                base_ptr: p,
                is_mapped: false,
                mapped_addr: 0,
                level: 0,
                derived: false,
            },
            ObjectType::Thread => Cap::Thread { base_ptr: p, derived: false },
            ObjectType::Notification => Cap::Notification { base_ptr: p, badge: 0, derived: false },
            ObjectType::CNode => Cap::Null,
        };
        assert(p != self.holder);
        st.set_slot(self.holder, slot, cap);
        Ok(slot)
    }

    /// Heap size and alignment, in bytes, of an object of type `object_type`.
    pub fn get_layout(object_type: &ObjectType) -> (r: (usize, usize))
        ensures
            r.0 == layout_of(*object_type).0,
            r.1 == layout_of(*object_type).1,
    {
        match object_type {
            ObjectType::CNode => (core::mem::size_of::<CapNode>(), PAGE_SIZE_NORMAL),
            ObjectType::Thread => (core::mem::size_of::<TaskContext>(), PAGE_SIZE_NORMAL),
            ObjectType::PageTable => (core::mem::size_of::<PageTable>(), PAGE_SIZE_NORMAL),
            ObjectType::Frame4K => (PAGE_SIZE_NORMAL, PAGE_SIZE_NORMAL),
            ObjectType::Frame2M => (PAGE_SIZE_2M, PAGE_SIZE_2M),
            ObjectType::Notification => (core::mem::size_of::<Notification>(), PAGE_SIZE_NORMAL),
        }
    }
}

/// One step of walking a freed thread's table: what the release of slot
/// `i`'s capability freed was owned from a table that is gone.
proof fn lemma_freed_step(s0: Seq<KObject>, s2: Seq<KObject>, s3: Seq<KObject>, b: int, i: int, cap: Cap)
    requires
        has_table(s0, b),
        0 <= i < MAX_CNODE_SIZE,
        table_of(s0, b)[i] == cap,
        !live(s2, b),
        tables_kept(s0, s2),
        tables_kept(s2, s3),
        forall|o: int| #[trigger] live(s3, o) ==> live(s2, o),
        freed_by(s2, s3, cap),
        forall|o: int| #[trigger] live(s0, o) && !live(s2, o) ==> o == b || owned_in_gone_table(s0, s2, o),
    ensures
        forall|o: int| #[trigger] live(s0, o) && !live(s3, o) ==> o == b || owned_in_gone_table(s0, s3, o),
{
    assert forall|o: int| #[trigger] live(s0, o) && !live(s3, o) implies o == b || owned_in_gone_table(s0, s3, o) by {
        if o != b {
            assert(!live(s3, b));
            if live(s2, o) {
                if o == cap.base() && owns_live(s2, cap) {
                    assert(table_of(s0, b)[i].base() == o);
                    assert(owned_in_gone_table(s0, s3, o));
                } else {
                    assert(owned_in_gone_table(s2, s3, o));
                    let (w, j) = choose|w: int, j: int|
                        #![trigger table_of(s2, w)[j], live(s3, w)]
                        !live(s3, w) && has_table(s2, w) && 0 <= j < MAX_CNODE_SIZE && table_of(s2, w)[j].is_owning()
                            && table_of(s2, w)[j].base() == o;
                    assert(has_table(s0, w) && table_of(s0, w) == table_of(s2, w));
                    assert(table_of(s0, w)[j].base() == o);
                    assert(owned_in_gone_table(s0, s3, o));
                }
            } else {
                assert(owned_in_gone_table(s0, s2, o));
                let (w, j) = choose|w: int, j: int|
                    #![trigger table_of(s0, w)[j], live(s2, w)]
                    !live(s2, w) && has_table(s0, w) && 0 <= j < MAX_CNODE_SIZE && table_of(s0, w)[j].is_owning()
                        && table_of(s0, w)[j].base() == o;
                assert(!live(s3, w));
                assert(table_of(s0, w)[j].base() == o);
                assert(owned_in_gone_table(s0, s3, o));
            }
        }
    }
}

/// Destructors of kernel objects, run when an owning capability is deleted.
pub struct DeallocHandler;

impl DeallocHandler {
    /// Releases the object that `cap` owns; a capability that owns nothing
    /// live (a copy, a `CNode` capability, a stale one) releases nothing.
    pub fn free(&self, st: &mut KernelState, cap: Cap)
        requires
            old(st).wf(),
        ensures
            released(*old(st), *final(st), cap),
        decreases live_count(st.objects@), 1nat,
    {
        proof {
            lemma_only_released_refl(*st);
        }
        match cap {
            Cap::Frame { base_ptr, size_level, derived, .. } => {
                if !derived && base_ptr < st.objects.len() && match &st.objects[base_ptr] {
                    KObject::Frame(f) => f.size_level == size_level,
                    _ => false,
                } {
                    self.free_frame(st, cap);
                }
            },
            Cap::PageTable { base_ptr, derived, .. } => {
                if !derived && st.is_page_table_at(base_ptr) {
                    self.free_page_table(st, cap);
                }
            },
            Cap::Thread { base_ptr, derived } => {
                if !derived && st.is_thread_at(base_ptr) {
                    self.free_task(st, cap);
                }
            },
            Cap::Notification { base_ptr, derived, .. } => {
                if !derived && st.is_notification_at(base_ptr) {
                    self.free_notification(st, cap);
                }
            },
            _ => {},
        }
    }

    /// Returns a frame's block to the heap.
    pub fn free_frame(&self, st: &mut KernelState, cap: Cap)
        requires
            old(st).wf(),
            cap is Frame,
            owns_live(old(st).objects@, cap),
        ensures
            released(*old(st), *final(st), cap),
    {
        let b = cap.base_ptr();
        let ghost s0 = *st;
        let o = st.take_object(b);
        let bytes = KernelState::object_size(&o);
        let ghost s1 = *st;
        st.release_block(b, bytes);
        proof {
            lemma_only_released_trans(s0, s1, *st);
        }
    }

    /// Returns a page table's block to the heap.
    pub fn free_page_table(&self, st: &mut KernelState, cap: Cap)
        requires
            old(st).wf(),
            cap is PageTable,
            owns_live(old(st).objects@, cap),
        ensures
            released(*old(st), *final(st), cap),
    {
        let b = cap.base_ptr();
        let ghost s0 = *st;
        let _o = st.take_object(b);
        let ghost s1 = *st;
        st.release_block(b, core::mem::size_of::<PageTable>());
        proof {
            lemma_only_released_trans(s0, s1, *st);
        }
    }

    /// Ends the wait of every thread blocked on the notification, then
    /// returns its block to the heap.
    pub fn free_notification(&self, st: &mut KernelState, cap: Cap)
        requires
            old(st).wf(),
            cap is Notification,
            owns_live(old(st).objects@, cap),
        ensures
            released(*old(st), *final(st), cap),
    {
        let b = cap.base_ptr();
        let ghost s0 = *st;
        let o = st.take_object(b);
        let ghost s1 = *st;
        proof {
            lemma_only_released_refl(s1);
        }
        if let KObject::Notification(mut nt) = o {
            let ghost had_waiters = nt.waiters@.len() > 0;
            while nt.waiters.len() > 0
                invariant
                    st.wf(),
                    only_released(s1, *st),
                    crate::kernel::clear_of_objects(st.objects@, b as int, block_len(s0.objects@, b as int)),
                    !live(st.objects@, b as int),
                    !had_waiters ==> *st == s1,
                    !had_waiters ==> nt.waiters@.len() == 0,
                    tables_kept(s1.objects@, st.objects@),
                    forall|o: int| #[trigger] live(s1.objects@, o) ==> live(st.objects@, o),
                decreases nt.waiters@.len(),
            {
                let w = nt.waiters.pop_front().unwrap();
                let ghost s2 = *st;
                st.abort_wait(w);
                proof {
                    lemma_only_released_trans(s1, s2, *st);
                    lemma_tables_kept_trans(s1.objects@, s2.objects@, st.objects@);
                }
            }
        }
        let ghost s3 = *st;
        st.release_block(b, core::mem::size_of::<Notification>());
        proof {
            lemma_only_released_trans(s1, s3, *st);
            lemma_only_released_trans(s0, s1, *st);
            lemma_tables_kept_trans(s1.objects@, s3.objects@, st.objects@);
            lemma_tables_kept_trans(s0.objects@, s1.objects@, st.objects@);
            assert forall|o: int| #[trigger] live(s0.objects@, o) && !live(st.objects@, o) implies o == b by {
                if o != b {
                    assert(live(s1.objects@, o));
                    assert(live(s3.objects@, o));
                }
            }
        }
    }

    /// Releases, in slot order from `CAP_INIT_VSPACE` up, what every
    /// capability in the thread's own table owns, then returns the control
    /// block to the heap.
    pub fn free_task(&self, st: &mut KernelState, cap: Cap)
        requires
            old(st).wf(),
            cap is Thread,
            owns_live(old(st).objects@, cap),
        ensures
            released(*old(st), *final(st), cap),
        decreases live_count(st.objects@), 0nat,
    {
        let b = cap.base_ptr();
        let ghost s0 = *st;
        let o = st.take_object(b);
        let ghost s1 = *st;
        proof {
            lemma_only_released_refl(s1);
        }
        if let KObject::Thread(task) = o {
            if let Some(cspace) = task.cspace {
                if !cspace.empty() {
                    let mut i: usize = CAP_INIT_VSPACE;
                    proof {
                        assert(has_table(s0.objects@, b as int));
                        assert(table_of(s0.objects@, b as int) == cspace@);
                    }
                    while i < MAX_CNODE_SIZE
                        invariant
                            st.wf(),
                            cspace.wf(),
                            has_table(s0.objects@, b as int),
                            table_of(s0.objects@, b as int) == cspace@,
                            tables_kept(s0.objects@, s1.objects@),
                            tables_kept(s1.objects@, st.objects@),
                            forall|o: int|
                                #[trigger] live(s0.objects@, o) && !live(st.objects@, o) ==> o == b
                                    || owned_in_gone_table(s0.objects@, st.objects@, o),
                            only_released(s1, *st),
                            crate::kernel::clear_of_objects(st.objects@, b as int, block_len(s0.objects@, b as int)),
                            !live(st.objects@, b as int),
                            live_count(st.objects@) < live_count(s0.objects@),
                            s0 == *old(st),
                        decreases MAX_CNODE_SIZE - i,
                    {
                        if cspace.is_used(i) {
                            let ghost s2 = *st;
                            assert(live_count(st.objects@) < live_count(s0.objects@));
                            let cap_i = cspace.get(i);
                            self.free(st, cap_i);
                            proof {
                                lemma_only_released_trans(s1, s2, *st);
                                lemma_tables_kept_trans(s0.objects@, s1.objects@, s2.objects@);
                                lemma_freed_step(s0.objects@, s2.objects@, st.objects@, b as int, i as int, cap_i);
                                lemma_tables_kept_trans(s1.objects@, s2.objects@, st.objects@);
                            }
                        }
                        i = i + 1;
                    }
                }
            }
        }
        let ghost s3 = *st;
        proof {
            if !(forall|o: int|
                #[trigger] live(s0.objects@, o) && !live(s3.objects@, o) ==> o == b
                    || owned_in_gone_table(s0.objects@, s3.objects@, o)) {
                assert forall|o: int|
                    #[trigger] live(s0.objects@, o) && !live(s3.objects@, o) implies o == b by {
                    if o != b {
                        assert(live(s1.objects@, o));
                    }
                }
            }
            if !tables_kept(s1.objects@, s3.objects@) {
                assert(s3 == s1);
            }
        }
        st.release_block(b, core::mem::size_of::<TaskContext>());
        proof {
            lemma_only_released_trans(s1, s3, *st);
            lemma_only_released_trans(s0, s1, *st);
            lemma_tables_kept_trans(s1.objects@, s3.objects@, st.objects@);
            lemma_tables_kept_trans(s0.objects@, s1.objects@, st.objects@);
            assert forall|o: int| #[trigger] live(s0.objects@, o) && !live(st.objects@, o) implies (o == cap.base() && owns_live(s0.objects@, cap))
                || owned_in_gone_table(s0.objects@, st.objects@, o) by {
                assert(!live(s3.objects@, o));
                if o != b {
                    let (w, j) = choose|w: int, j: int|
                        #![trigger table_of(s0.objects@, w)[j], live(s3.objects@, w)]
                        !live(s3.objects@, w) && has_table(s0.objects@, w) && 0 <= j < MAX_CNODE_SIZE
                            && table_of(s0.objects@, w)[j].is_owning() && table_of(s0.objects@, w)[j].base() == o;
                    assert(!live(st.objects@, w));
                    assert(table_of(s0.objects@, w)[j].base() == o);
                }
            }
        }
    }
}

} // verus!

verus! {

/// What deleting slot `i` of thread `t`'s table does.
pub open spec fn delete_post(old: KernelState, new: KernelState, t: int, i: int) -> bool {
    let cap = old.cspace(t)[i];
    let b = cap.base() as int;
    &&& new.wf()
    &&& only_released(old, new)
    &&& freed_by(old.objects@, new.objects@, cap)
    &&& forall|u: int| #[trigger] has_table(new.objects@, u) && u != t ==> has_table(old.objects@, u) && table_of(new.objects@, u) == table_of(old.objects@, u)
    &&& has_table(new.objects@, t) ==> table_of(new.objects@, t) == table_of(old.objects@, t).update(i, Cap::Null)
    &&& live(new.objects@, t) ==> new.has_cspace(t) && new.cspace(t)[i] is Null
    &&& owns_live(old.objects@, cap) ==> !live(new.objects@, b) && block_free(
        new.heap@,
        b,
        block_len(old.objects@, b) as int,
    )
    &&& (!owns_live(old.objects@, cap) || (releases_alone(old.objects@, cap) && b != t)) ==> {
        &&& new.has_cspace(t)
        &&& new.cspace(t) == old.cspace(t).update(i, Cap::Null)
        &&& same_but_cspace(old.task(t), new.task(t))
        &&& new.heap@ == (if owns_live(old.objects@, cap) {
            mark(old.heap@, b, block_len(old.objects@, b) as int, false)
        } else {
            old.heap@
        })
        &&& new.objects@.len() == old.objects@.len()
        &&& forall|j: int|
            0 <= j < old.objects@.len() && j != t ==> new.objects@[j] == (if owns_live(old.objects@, cap) && j == b {
                KObject::Free
            } else {
                old.objects@[j]
            })
        &&& new.scheduler@ == old.scheduler@
        &&& new.current_task == old.current_task
    }
}

/// `new` is `old` with capability `c` stored in slot `k` of thread `d`'s table.
pub open spec fn slot_written(old: KernelState, new: KernelState, d: int, k: int, c: Cap) -> bool {
    &&& new.wf()
    &&& new.has_cspace(d)
    &&& new.cspace(d) == old.cspace(d).update(k, c)
    &&& same_but_cspace(old.task(d), new.task(d))
    &&& new.objects@.len() == old.objects@.len()
    &&& forall|j: int| 0 <= j < old.objects@.len() && j != d ==> new.objects@[j] == old.objects@[j]
    &&& new.heap@ == old.heap@
    &&& new.scheduler@ == old.scheduler@
    &&& new.current_task == old.current_task
}

/// What `CNodeCopy` of slot `src` of thread `t`'s table, through the thread
/// capability in slot `via`, to slot `dest` does.
pub open spec fn copy_post(
    old: KernelState,
    new: KernelState,
    t: int,
    src: int,
    via: int,
    dest: int,
    r: Result<usize, MessageInfo>,
) -> bool {
    let input = old.cspace(t)[via];
    let copy = old.cspace(t)[src].derived_of();
    let d = input.base() as int;
    if !(input is Thread) {
        r == err_response(ResponseLabel::ErrCapType) && unchanged(old, new) && new.wf()
    } else if !old.has_cspace(d) {
        r == err_response(ResponseLabel::NotEnoughSpace) && unchanged(old, new) && new.wf()
    } else if old.cspace(d)[dest] is Null {
        r == Ok::<usize, MessageInfo>(dest as usize) && slot_written(old, new, d, dest, copy)
    } else {
        match first_free(old.cspace(d)) {
            Some(k) => r == Ok::<usize, MessageInfo>(k) && slot_written(old, new, d, k as int, copy),
            None => r == err_response(ResponseLabel::NotEnoughSpace) && unchanged(old, new) && new.wf(),
        }
    }
}

/// Operand values in message registers that a table invocation needs to
/// stay in range.
pub open spec fn cspace_request_ok(st: KernelState, current: int, t: int, tag: usize) -> bool {
    let mr0 = st.task(current).hal_context.mr(0);
    let mr1 = st.task(current).hal_context.mr(1);
    let mr2 = st.task(current).hal_context.mr(2);
    st.has_cspace(t) ==> match label_of(tag) {
        Some(InvocationLabel::CNodeAlloc) => 1 <= mr0 < 6,
        Some(InvocationLabel::CNodeDelete) => mr0 < MAX_CNODE_SIZE,
        Some(InvocationLabel::CNodeCopy) => mr0 < MAX_CNODE_SIZE && mr1 < MAX_CNODE_SIZE && mr2 < MAX_CNODE_SIZE,
        _ => true,
    }
}

/// What an invocation of thread `t`'s table by `current` with tag `tag` does.
pub open spec fn cspace_post(
    old: KernelState,
    new: KernelState,
    current: int,
    t: int,
    tag: usize,
    r: Result<usize, MessageInfo>,
) -> bool {
    let mr0 = old.task(current).hal_context.mr(0);
    let mr1 = old.task(current).hal_context.mr(1);
    let mr2 = old.task(current).hal_context.mr(2);
    if !old.has_cspace(t) {
        r == err_response(ResponseLabel::NotEnoughSpace) && unchanged(old, new) && new.wf()
    } else {
        match label_of(tag) {
            Some(InvocationLabel::CNodeAlloc) => alloc_post(old, new, t, object_type_of(mr0 as nat), r),
            Some(InvocationLabel::CNodeDelete) => r == Ok::<usize, MessageInfo>(mr0) && delete_post(
                old,
                new,
                t,
                mr0 as int,
            ),
            Some(InvocationLabel::CNodeCopy) => copy_post(old, new, t, mr0 as int, mr1 as int, mr2 as int, r),
            _ => r == err_response(ResponseLabel::UnSupported) && unchanged(old, new) && new.wf(),
        }
    }
}

impl KernelState {
    /// Runs the destructor of what slot `i` of thread `t`'s table owns, then
    /// empties the slot.
    pub fn free_slot(&mut self, t: usize, i: usize)
        requires
            old(self).wf(),
            old(self).has_cspace(t as int),
            i < MAX_CNODE_SIZE,
        ensures
            delete_post(*old(self), *final(self), t as int, i as int),
    {
        let cap = self.get_slot(t, i);
        let ghost s0 = *self;
        DeallocHandler.free(self, cap);
        let ghost s1 = *self;
        if self.has_cspace_at(t) {
            self.set_slot(t, i, Cap::Null);
            proof {
                assert(has_table(s1.objects@, t as int));
                assert(table_of(s1.objects@, t as int) == table_of(s0.objects@, t as int));
                assert(table_of(self.objects@, t as int) =~= table_of(s0.objects@, t as int).update(i as int, Cap::Null));
                assert forall|u: int| #[trigger] has_table(self.objects@, u) && u != t implies has_table(s0.objects@, u)
                    && table_of(self.objects@, u) == table_of(s0.objects@, u) by {
                    assert(self.objects@[u] == s1.objects@[u]);
                    assert(has_table(s1.objects@, u));
                }
                assert forall|o: int| #[trigger] live(s0.objects@, o) && !live(self.objects@, o) implies (o == cap.base() && owns_live(s0.objects@, cap))
                    || owned_in_gone_table(s0.objects@, self.objects@, o) by {
                    assert(!live(s1.objects@, o));
                    if !(o == cap.base() && owns_live(s0.objects@, cap)) {
                        let (w, j) = choose|w: int, j: int|
                            #![trigger table_of(s0.objects@, w)[j], live(s1.objects@, w)]
                            !live(s1.objects@, w) && has_table(s0.objects@, w) && 0 <= j < MAX_CNODE_SIZE
                                && table_of(s0.objects@, w)[j].is_owning() && table_of(s0.objects@, w)[j].base() == o;
                        assert(!live(self.objects@, w));
                        assert(table_of(s0.objects@, w)[j].base() == o);
                    }
                }
                lemma_only_released_trans(s0, s1, *self);
                if !owns_live(s0.objects@, cap) || (releases_alone(s0.objects@, cap) && cap.base() != t) {
                    assert(self.cspace(t as int) =~= s0.cspace(t as int).update(i as int, Cap::Null));
                }
            }
        } else {
            proof {
                assert(!live(self.objects@, t as int));
            }
        }
    }
}

/// Handles an invocation, by thread `current`, of a capability to a
/// capability table: that of the thread at `dest_cap`'s frame.
pub fn handle(st: &mut KernelState, current: usize, dest_cap: Cap, message_info: MessageInfo) -> (r: Result<usize, MessageInfo>)
    requires
        old(st).wf(),
        old(st).is_thread(current as int),
        cspace_request_ok(*old(st), current as int, dest_cap.base() as int, message_info.word),
    ensures
        cspace_post(*old(st), *final(st), current as int, dest_cap.base() as int, message_info.word, r),
{
    let t = dest_cap.base_ptr();
    if !st.has_cspace_at(t) {
        return Err(MessageInfo::new_response(ResponseLabel::NotEnoughSpace));
    }
    match InvocationLabel::from_usize(message_info.get_label()) {
        Some(InvocationLabel::CNodeAlloc) => {
            let handler = AllocHandler { holder: t };
            let obj_type = match ObjectType::from_usize(st.get_mr(current, 0)) {
                Some(ty) => ty,
                None => ObjectType::CNode,
            };
            handler.handle(st, obj_type)
        },
        Some(InvocationLabel::CNodeDelete) => {
            let object_idx = st.get_mr(current, 0);
            st.free_slot(t, object_idx);
            Ok(object_idx)
        },
        Some(InvocationLabel::CNodeCopy) => {
            let src_cap = st.get_slot(t, st.get_mr(current, 0));
            let input_cap = st.get_slot(t, st.get_mr(current, 1));
            let dest_slot = st.get_mr(current, 2);
            let d = match input_cap {
                Cap::Thread { base_ptr, .. } => base_ptr,
                _ => {
                    return Err(MessageInfo::new_response(ResponseLabel::ErrCapType));
                },
            };
            if !st.has_cspace_at(d) {
                return Err(MessageInfo::new_response(ResponseLabel::NotEnoughSpace));
            }
            let copy = src_cap.derive();
            if st.get_slot(d, dest_slot) != Cap::Null {
                match st.alloc_free_slot(d) {
                    Some(slot) => {
                        st.set_slot(d, slot, copy);
                        Ok(slot)
                    },
                    None => Err(MessageInfo::new_response(ResponseLabel::NotEnoughSpace)),
                }
            } else {
                st.set_slot(d, dest_slot, copy);
                Ok(dest_slot)
            }
        },
        _ => Err(MessageInfo::new_response(ResponseLabel::UnSupported)),
    }
}

} // verus!

verus! {

/// Allocating an object into thread `t`'s table and then deleting the slot
/// it landed in gives back the table, the memory and every other object as
/// they were before the allocation.
pub proof fn lemma_alloc_delete_round_trip(
    s0: KernelState,
    s1: KernelState,
    s2: KernelState,
    t: int,
    ty: ObjectType,
    k: usize,
)
    requires
        s0.wf(),
        s0.has_cspace(t),
        ty != ObjectType::CNode,
        alloc_post(s0, s1, t, ty, Ok(k)),
        delete_post(s1, s2, t, k as int),
    ensures
        s2.has_cspace(t),
        s2.cspace(t) == s0.cspace(t),
        same_but_cspace(s0.task(t), s2.task(t)),
        s2.heap@ == s0.heap@,
        s2.objects@.len() == s0.objects@.len(),
        forall|j: int| 0 <= j < s0.objects@.len() && j != t ==> s2.objects@[j] == s0.objects@[j],
        s2.scheduler@ == s0.scheduler@,
        s2.current_task == s0.current_task,
{
    assert(first_free(s0.cspace(t)) is Some);
    let c = s1.cspace(t)[k as int];
    let p = c.base() as int;
    let n = pages_for(layout_of(ty).0) as int;
    assert(s0.cspace(t)[k as int] is Null) by {
        crate::cnode::lemma_first_free_null(s0.cspace(t));
    }
    assert(crate::kernel::object_bytes(s1.objects@[p]) == layout_of(ty).0);
    assert(owns_live(s1.objects@, c));
    if ty == ObjectType::Thread {
        let tc = s1.objects@[p]->Thread_0;
        assert forall|j: int| 0 <= j < MAX_CNODE_SIZE implies (#[trigger] tc.cspace->0@[j]) is Null by {
            assert(tc.cspace->0@ == empty_table());
        }
    }
    assert(releases_alone(s1.objects@, c));
    assert(p != t);
    assert(s2.cspace(t) =~= s0.cspace(t));
    assert(s2.heap@ =~= s0.heap@);
}

/// Copying a capability into another slot and deleting the copy leaves the
/// source capability, and the object it designates, as they were.
pub proof fn lemma_copy_delete_keeps_source(
    s0: KernelState,
    s1: KernelState,
    s2: KernelState,
    t: int,
    src: int,
    via: int,
    dest: int,
    k: usize,
)
    requires
        s0.wf(),
        s0.has_cspace(t),
        0 <= src < MAX_CNODE_SIZE,
        0 <= via < MAX_CNODE_SIZE,
        0 <= dest < MAX_CNODE_SIZE,
        !(s0.cspace(t)[src] is Null),
        copy_post(s0, s1, t, src, via, dest, Ok(k)),
        delete_post(s1, s2, s0.cspace(t)[via].base() as int, k as int),
    ensures
        s2.has_cspace(t),
        s2.cspace(t)[src] == s0.cspace(t)[src],
        live(s0.objects@, s0.cspace(t)[src].base() as int) ==> live(s2.objects@, s0.cspace(t)[src].base() as int),
        s2.heap@ == s0.heap@,
        forall|j: int|
            0 <= j < s0.objects@.len() && j != t && j != s0.cspace(t)[via].base() ==> s2.objects@[j] == s0.objects@[j],
{
    let d = s0.cspace(t)[via].base() as int;
    let copy = s0.cspace(t)[src].derived_of();
    if !(s0.cspace(t)[dest] is Null) {
        crate::cnode::lemma_first_free_null(s0.cspace(t));
        crate::cnode::lemma_first_free_null(s0.cspace(d));
    }
    assert(s1.cspace(d)[k as int] == copy);
    assert(!owns_live(s1.objects@, copy));
    if d == t {
        assert(k != src);
    }
}

} // verus!



verus! {

/// Whether slot `j` of the thread at `u` holds an owning capability.
pub open spec fn owning_at(objs: Seq<KObject>, u: int, j: int) -> bool {
    has_table(objs, u) && 0 <= j < MAX_CNODE_SIZE && table_of(objs, u)[j].is_owning()
}

/// Objects are singly owned: every owning capability designates a live
/// object of its type, and two owning capabilities in different slots
/// designate different objects.
pub open spec fn singly_owned(objs: Seq<KObject>) -> bool {
    &&& forall|u: int, j: int| #[trigger] owning_at(objs, u, j) ==> owns_live(objs, table_of(objs, u)[j])
    &&& forall|u1: int, j1: int, u2: int, j2: int|
        #[trigger] owning_at(objs, u1, j1) && #[trigger] owning_at(objs, u2, j2) && (u1 != u2 || j1 != j2)
            ==> table_of(objs, u1)[j1].base() != table_of(objs, u2)[j2].base()
}

/// An object that stays live keeps its kind, so an owning capability that
/// designated it still does.
proof fn lemma_owns_live_kept(old: Seq<KObject>, new: Seq<KObject>, c: Cap)
    requires
        owns_live(old, c),
        live(new, c.base() as int),
        crate::kernel::same_shape(old[c.base() as int], new[c.base() as int]),
    ensures
        owns_live(new, c),
{
}

/// Deleting a slot keeps objects singly owned.
pub proof fn lemma_delete_keeps_single_owners(s0: KernelState, s1: KernelState, t: int, i: int)
    requires
        s0.wf(),
        s0.has_cspace(t),
        0 <= i < MAX_CNODE_SIZE,
        singly_owned(s0.objects@),
        delete_post(s0, s1, t, i),
    ensures
        singly_owned(s1.objects@),
{
    let o0 = s0.objects@;
    let o1 = s1.objects@;
    let cap = s0.cspace(t)[i];
    assert forall|u: int, j: int| #[trigger] owning_at(o1, u, j) implies owning_at(o0, u, j) && table_of(o1, u)[j] == table_of(o0, u)[j] && (u != t || j != i) by {
        if u == t {
            assert(table_of(o1, t) == table_of(o0, t).update(i, Cap::Null));
        }
    }
    assert forall|u: int, j: int| #[trigger] owning_at(o1, u, j) implies owns_live(o1, table_of(o1, u)[j]) by {
        let c = table_of(o1, u)[j];
        assert(owning_at(o0, u, j));
        assert(owns_live(o0, c));
        let o = c.base() as int;
        if !live(o1, o) {
            assert(live(o0, o));
            if o == cap.base() && owns_live(o0, cap) {
                assert(owning_at(o0, t, i));
            } else {
                assert(owned_in_gone_table(o0, o1, o));
                let (w, jj) = choose|w: int, jj: int|
                    #![trigger table_of(o0, w)[jj], live(o1, w)]
                    !live(o1, w) && has_table(o0, w) && 0 <= jj < MAX_CNODE_SIZE && table_of(o0, w)[jj].is_owning()
                        && table_of(o0, w)[jj].base() == o;
                assert(owning_at(o0, w, jj));
                assert(live(o1, u));
            }
        }
        assert(live(o1, o));
        lemma_owns_live_kept(o0, o1, c);
    }
    assert forall|u1: int, j1: int, u2: int, j2: int|
        #[trigger] owning_at(o1, u1, j1) && #[trigger] owning_at(o1, u2, j2) && (u1 != u2 || j1 != j2)
            implies table_of(o1, u1)[j1].base() != table_of(o1, u2)[j2].base() by {
        assert(owning_at(o0, u1, j1) && owning_at(o0, u2, j2));
    }
}

/// Allocating into a table keeps objects singly owned.
pub proof fn lemma_alloc_keeps_single_owners(
    s0: KernelState,
    s1: KernelState,
    t: int,
    ty: ObjectType,
    r: Result<usize, MessageInfo>,
)
    requires
        s0.wf(),
        s0.has_cspace(t),
        ty != ObjectType::CNode,
        singly_owned(s0.objects@),
        alloc_post(s0, s1, t, ty, r),
    ensures
        singly_owned(s1.objects@),
{
    let o0 = s0.objects@;
    let o1 = s1.objects@;
    if first_free(s0.cspace(t)) is None || r is Err {
        assert(o1 == o0);
    } else {
        let k = first_free(s0.cspace(t))->0 as int;
        let c = s1.cspace(t)[k];
        let p = c.base() as int;
        assert(p != t);
        assert forall|u: int, j: int| #[trigger] owning_at(o1, u, j) implies (u == t && j == k) || (owning_at(o0, u, j)
            && table_of(o1, u)[j] == table_of(o0, u)[j]) by {
            if u == p {
                if ty == ObjectType::Thread {
                    assert(table_of(o1, p) == empty_table());
                }
            } else if u != t {
                assert(o1[u] == o0[u]);
            }
        }
        assert forall|u: int, j: int| #[trigger] owning_at(o1, u, j) implies owns_live(o1, table_of(o1, u)[j]) by {
            if !(u == t && j == k) {
                let cu = table_of(o0, u)[j];
                assert(owns_live(o0, cu));
                let o = cu.base() as int;
                assert(live(o0, o));
                assert(o != p);
                if o != t {
                    assert(o1[o] == o0[o]);
                }
            }
        }
        assert forall|u1: int, j1: int, u2: int, j2: int|
            #[trigger] owning_at(o1, u1, j1) && #[trigger] owning_at(o1, u2, j2) && (u1 != u2 || j1 != j2)
                implies table_of(o1, u1)[j1].base() != table_of(o1, u2)[j2].base() by {
            if u1 == t && j1 == k {
                assert(owns_live(o0, table_of(o0, u2)[j2]));
            } else if u2 == t && j2 == k {
                assert(owns_live(o0, table_of(o0, u1)[j1]));
            } else {
                assert(owning_at(o0, u1, j1) && owning_at(o0, u2, j2));
            }
        }
    }
}

/// Copying a capability keeps objects singly owned: the copy owns nothing.
pub proof fn lemma_copy_keeps_single_owners(
    s0: KernelState,
    s1: KernelState,
    t: int,
    src: int,
    via: int,
    dest: int,
    r: Result<usize, MessageInfo>,
)
    requires
        s0.wf(),
        s0.has_cspace(t),
        0 <= src < MAX_CNODE_SIZE,
        0 <= via < MAX_CNODE_SIZE,
        0 <= dest < MAX_CNODE_SIZE,
        singly_owned(s0.objects@),
        copy_post(s0, s1, t, src, via, dest, r),
    ensures
        singly_owned(s1.objects@),
{
    let o0 = s0.objects@;
    let o1 = s1.objects@;
    let copy = s0.cspace(t)[src].derived_of();
    let d = s0.cspace(t)[via].base() as int;
    if r is Err {
        assert(o1 == o0);
    } else {
        let k = r->Ok_0 as int;
        assert(slot_written(s0, s1, d, k, copy));
        assert(!copy.is_owning());
        assert forall|u: int, j: int| #[trigger] owning_at(o1, u, j) implies owning_at(o0, u, j)
            && table_of(o1, u)[j] == table_of(o0, u)[j] by {
            if u != d {
                assert(o1[u] == o0[u]);
            }
        }
        assert forall|u: int, j: int| #[trigger] owning_at(o1, u, j) implies owns_live(o1, table_of(o1, u)[j]) by {
            let cu = table_of(o0, u)[j];
            assert(owns_live(o0, cu));
            let o = cu.base() as int;
            if o != d {
                assert(o1[o] == o0[o]);
            }
        }
        assert forall|u1: int, j1: int, u2: int, j2: int|
            #[trigger] owning_at(o1, u1, j1) && #[trigger] owning_at(o1, u2, j2) && (u1 != u2 || j1 != j2)
                implies table_of(o1, u1)[j1].base() != table_of(o1, u2)[j2].base() by {
            assert(owning_at(o0, u1, j1) && owning_at(o0, u2, j2));
        }
    }
}

/// Every capability-table invocation keeps objects singly owned.
pub proof fn lemma_table_invocation_keeps_single_owners(
    s0: KernelState,
    s1: KernelState,
    current: int,
    t: int,
    tag: usize,
    r: Result<usize, MessageInfo>,
)
    requires
        s0.wf(),
        s0.is_thread(current),
        singly_owned(s0.objects@),
        cspace_request_ok(s0, current, t, tag),
        cspace_post(s0, s1, current, t, tag, r),
    ensures
        singly_owned(s1.objects@),
{
    let mr0 = s0.task(current).hal_context.mr(0);
    let mr1 = s0.task(current).hal_context.mr(1);
    let mr2 = s0.task(current).hal_context.mr(2);
    if !s0.has_cspace(t) {
        assert(s1.objects@ == s0.objects@);
    } else {
        match label_of(tag) {
            Some(InvocationLabel::CNodeAlloc) => {
                lemma_alloc_keeps_single_owners(s0, s1, t, object_type_of(mr0 as nat), r);
            },
            Some(InvocationLabel::CNodeDelete) => {
                lemma_delete_keeps_single_owners(s0, s1, t, mr0 as int);
            },
            Some(InvocationLabel::CNodeCopy) => {
                lemma_copy_keeps_single_owners(s0, s1, t, mr0 as int, mr1 as int, mr2 as int, r);
            },
            _ => {
                assert(s1.objects@ == s0.objects@);
            },
        }
    }
}

/// `new` has the objects of `old`, of the same kinds, with the same tables,
/// except that slot `i` of the thread at `c` may hold `x`, a capability of
/// the same type, object and ownership as the one it replaces.
pub open spec fn tables_kept_but(old: Seq<KObject>, new: Seq<KObject>, c: int, i: int, x: Cap) -> bool {
    &&& new.len() == old.len()
    &&& forall|o: int| #[trigger] live(new, o) == live(old, o)
    &&& forall|o: int| 0 <= o < old.len() ==> crate::kernel::same_shape(old[o], #[trigger] new[o])
    &&& forall|u: int| #[trigger] has_table(new, u) && u != c ==> table_of(new, u) == table_of(old, u)
    &&& has_table(new, c) ==> has_table(old, c) && table_of(old, c).len() == MAX_CNODE_SIZE && 0 <= i < MAX_CNODE_SIZE && table_of(new, c) == table_of(old, c).update(i, x)
        && x.is_owning() == table_of(old, c)[i].is_owning() && (x.is_owning() ==> x.base() == table_of(old, c)[i].base())
        && (owns_live(old, table_of(old, c)[i]) ==> owns_live(old, x))
}

/// Objects stay singly owned when no object appears, disappears or changes
/// kind and tables change at most in one slot, to an equivalent capability.
pub proof fn lemma_single_owners_kept(old: Seq<KObject>, new: Seq<KObject>, c: int, i: int, x: Cap)
    requires
        singly_owned(old),
        tables_kept_but(old, new, c, i, x),
    ensures
        singly_owned(new),
{
    assert forall|u: int, j: int| #[trigger] owning_at(new, u, j) implies owning_at(old, u, j)
        && table_of(new, u)[j].base() == table_of(old, u)[j].base()
        && owns_live(old, table_of(new, u)[j]) by {
        assert(has_table(old, u)) by {
            assert(crate::kernel::same_shape(old[u], new[u]));
        }
        if u == c && j == i {
            assert(table_of(new, c)[i] == x);
            assert(owning_at(old, c, i));
            assert(owns_live(old, table_of(old, c)[i]));
        } else if u == c {
            assert(table_of(new, c)[j] == table_of(old, c)[j]);
        }
    }
    assert forall|u: int, j: int| #[trigger] owning_at(new, u, j) implies owns_live(new, table_of(new, u)[j]) by {
        let cu = table_of(new, u)[j];
        assert(owns_live(old, cu));
        let o = cu.base() as int;
        assert(live(new, o) == live(old, o));
        assert(crate::kernel::same_shape(old[o], new[o]));
    }
    assert forall|u1: int, j1: int, u2: int, j2: int|
        #[trigger] owning_at(new, u1, j1) && #[trigger] owning_at(new, u2, j2) && (u1 != u2 || j1 != j2)
            implies table_of(new, u1)[j1].base() != table_of(new, u2)[j2].base() by {
        assert(owning_at(old, u1, j1) && owning_at(old, u2, j2));
    }
}

/// `new` has the objects of `old`, of the same kinds, with the same tables.
pub open spec fn tables_and_kinds_kept(old: Seq<KObject>, new: Seq<KObject>) -> bool {
    &&& new.len() == old.len()
    &&& forall|o: int| #[trigger] live(new, o) == live(old, o)
    &&& forall|o: int| 0 <= o < old.len() ==> crate::kernel::same_shape(old[o], #[trigger] new[o])
    &&& forall|u: int| #[trigger] has_table(new, u) ==> table_of(new, u) == table_of(old, u)
}

/// Objects stay singly owned when no object appears, disappears or changes
/// kind and no table changes.
pub proof fn lemma_single_owners_kept_all(old: Seq<KObject>, new: Seq<KObject>)
    requires
        singly_owned(old),
        tables_and_kinds_kept(old, new),
    ensures
        singly_owned(new),
{
    assert forall|u: int, j: int| #[trigger] owning_at(new, u, j) implies owning_at(old, u, j)
        && table_of(new, u)[j] == table_of(old, u)[j] by {
        assert(crate::kernel::same_shape(old[u], new[u]));
    }
    assert forall|u: int, j: int| #[trigger] owning_at(new, u, j) implies owns_live(new, table_of(new, u)[j]) by {
        let cu = table_of(new, u)[j];
        assert(owns_live(old, cu));
        let o = cu.base() as int;
        assert(live(new, o) == live(old, o));
        assert(crate::kernel::same_shape(old[o], new[o]));
    }
    assert forall|u1: int, j1: int, u2: int, j2: int|
        #[trigger] owning_at(new, u1, j1) && #[trigger] owning_at(new, u2, j2) && (u1 != u2 || j1 != j2)
            implies table_of(new, u1)[j1].base() != table_of(new, u2)[j2].base() by {
        assert(owning_at(old, u1, j1) && owning_at(old, u2, j2));
    }
}

/// Replacing one object by another of the same kind, keeping a thread's
/// table, keeps the tables and kinds.
pub proof fn lemma_object_replaced(old: Seq<KObject>, new: Seq<KObject>, u: int)
    requires
        new.len() == old.len(),
        0 <= u < old.len(),
        crate::kernel::same_shape(old[u], new[u]),
        old[u] is Thread ==> new[u]->Thread_0.cspace == old[u]->Thread_0.cspace,
        forall|j: int| 0 <= j < old.len() && j != u ==> new[j] == old[j],
    ensures
        tables_and_kinds_kept(old, new),
{
    assert forall|o: int| #[trigger] live(new, o) == live(old, o) by {
        if 0 <= o < old.len() && o != u {
            assert(new[o] == old[o]);
        }
    }
}

/// Keeping tables and kinds is transitive.
pub proof fn lemma_tables_and_kinds_trans(a: Seq<KObject>, b: Seq<KObject>, c: Seq<KObject>)
    requires
        tables_and_kinds_kept(a, b),
        tables_and_kinds_kept(b, c),
    ensures
        tables_and_kinds_kept(a, c),
{
    assert forall|o: int| 0 <= o < a.len() implies crate::kernel::same_shape(a[o], #[trigger] c[o]) by {
        assert(crate::kernel::same_shape(a[o], b[o]));
        assert(crate::kernel::same_shape(b[o], c[o]));
    }
    assert forall|u: int| #[trigger] has_table(c, u) implies table_of(c, u) == table_of(a, u) by {
        assert(crate::kernel::same_shape(b[u], c[u]));
        assert(has_table(b, u));
    }
}

/// Storing a capability that owns nothing over one that owns nothing keeps
/// objects singly owned.
pub proof fn lemma_put_non_owning(s1: KernelState, s2: KernelState, t: int, i: int, x: Cap)
    requires
        s1.wf(),
        s1.has_cspace(t),
        0 <= i < MAX_CNODE_SIZE,
        singly_owned(s1.objects@),
        !x.is_owning(),
        !s1.cspace(t)[i].is_owning(),
        s2.has_cspace(t),
        s2.cspace(t) == s1.cspace(t).update(i, x),
        same_but_cspace(s1.task(t), s2.task(t)),
        s2.objects@.len() == s1.objects@.len(),
        forall|j: int| 0 <= j < s1.objects@.len() && j != t ==> s2.objects@[j] == s1.objects@[j],
    ensures
        singly_owned(s2.objects@),
{
    let o1 = s1.objects@;
    let o2 = s2.objects@;
    assert(crate::kernel::object_wf(o1[t]));
    assert forall|o: int| #[trigger] live(o2, o) == live(o1, o) by {
        if 0 <= o < o1.len() && o != t {
            assert(o2[o] == o1[o]);
        }
    }
    assert forall|o: int| 0 <= o < o1.len() implies crate::kernel::same_shape(o1[o], #[trigger] o2[o]) by {
        if o != t {
            assert(o2[o] == o1[o]);
        }
    }
    assert forall|u: int| #[trigger] has_table(o2, u) && u != t implies table_of(o2, u) == table_of(o1, u) by {
        assert(o2[u] == o1[u]);
    }
    assert(tables_kept_but(o1, o2, t, i, x));
    lemma_single_owners_kept(o1, o2, t, i, x);
}

/// Refreshing the objects at `a` and `b` in place, each keeping its kind
/// and a thread its table, keeps objects singly owned.
pub proof fn lemma_two_objects_refreshed(old: Seq<KObject>, new: Seq<KObject>, a: int, b: int)
    requires
        singly_owned(old),
        new.len() == old.len(),
        0 <= a < old.len(),
        0 <= b < old.len(),
        crate::kernel::same_shape(old[a], new[a]),
        crate::kernel::same_shape(old[b], new[b]),
        old[a] is Thread ==> new[a]->Thread_0.cspace == old[a]->Thread_0.cspace,
        old[b] is Thread ==> new[b]->Thread_0.cspace == old[b]->Thread_0.cspace,
        forall|j: int| 0 <= j < old.len() && j != a && j != b ==> new[j] == old[j],
    ensures
        singly_owned(new),
{
    let mid = old.update(a, new[a]);
    lemma_object_replaced(old, mid, a);
    if a == b {
        assert(new =~= mid);
    } else {
        lemma_object_replaced(mid, new, b);
        lemma_tables_and_kinds_trans(old, mid, new);
    }
    lemma_tables_and_kinds_trans(old, mid, mid);
    if a == b {
        lemma_single_owners_kept_all(old, mid);
    } else {
        lemma_single_owners_kept_all(old, new);
    }
}

} // verus!
