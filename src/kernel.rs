use vstd::prelude::*;

use crate::cap::Cap;
use crate::constants::{MAX_CNODE_SIZE, MR_BASE_REGISTER, TAG_REGISTER};
use crate::message::MessageInfo;
use crate::task::ThreadState;
use crate::constants::{FRAME_LEVEL_2M, FRAME_LEVEL_4K, PAGE_SIZE_2M, PAGE_SIZE_NORMAL};
use crate::heap::{block_free, mark, pages_for, Heap};
use crate::notification::Notification;
use crate::page_table::PageTable;
use crate::scheduler::Scheduler;
use crate::task::TaskContext;

verus! {

/// Contents of a frame, as machine words.
pub struct FrameObject {
    pub size_level: usize,
    pub data: Vec<usize>,
}

/// What starts at a frame of physical memory.
pub enum KObject {
    Free,
    Thread(TaskContext),
    PageTable(PageTable),
    Frame(FrameObject),
    Notification(Notification),
}

/// Bytes of a frame of size level `level` (4 KiB at level 3, 2 MiB at 2).
pub open spec fn frame_bytes(level: usize) -> nat {
    if level == FRAME_LEVEL_2M {
        PAGE_SIZE_2M as nat
    } else {
        PAGE_SIZE_NORMAL as nat
    }
}

/// Bytes of heap that an object of this kind occupies.
pub open spec fn object_bytes(o: KObject) -> nat {
    match o {
        KObject::Free => 0,
        KObject::Thread(_) => vstd::layout::size_of::<TaskContext>(),
        KObject::PageTable(_) => vstd::layout::size_of::<PageTable>(),
        KObject::Frame(f) => frame_bytes(f.size_level),
        KObject::Notification(_) => vstd::layout::size_of::<Notification>(),
    }
}

/// Internal consistency of one object.
pub open spec fn object_wf(o: KObject) -> bool {
    match o {
        KObject::Thread(t) => t.wf(),
        KObject::Frame(f) => (f.size_level == FRAME_LEVEL_4K || f.size_level == FRAME_LEVEL_2M)
            && f.data@.len() == frame_bytes(f.size_level) / 8,
        _ => true,
    }
}

/// Number of live objects.
pub open spec fn live_count(objs: Seq<KObject>) -> nat
    decreases objs.len(),
{
    if objs.len() == 0 {
        0
    } else {
        live_count(objs.drop_last()) + if objs.last() is Free {
            0nat
        } else {
            1nat
        }
    }
}

/// Replacing one object by another of the same liveness keeps the count;
/// freeing a live one lowers it by one.
pub proof fn lemma_live_count_update(objs: Seq<KObject>, i: int, o: KObject)
    requires
        0 <= i < objs.len(),
    ensures
        (objs[i] is Free) == (o is Free) ==> live_count(objs.update(i, o)) == live_count(objs),
        !(objs[i] is Free) && o is Free ==> live_count(objs.update(i, o)) + 1 == live_count(objs),
        objs[i] is Free && !(o is Free) ==> live_count(objs.update(i, o)) == live_count(objs) + 1,
    decreases objs.len(),
{
    let u = objs.update(i, o);
    if i == objs.len() - 1 {
        assert(u.drop_last() =~= objs.drop_last());
    } else {
        lemma_live_count_update(objs.drop_last(), i, o);
        assert(u.drop_last() =~= objs.drop_last().update(i, o));
    }
}

/// Whether an object starts at frame `i`.
pub open spec fn live(objs: Seq<KObject>, i: int) -> bool {
    0 <= i < objs.len() && !(objs[i] is Free)
}

/// Frames of the block of the object at `i`.
pub open spec fn block_len(objs: Seq<KObject>, i: int) -> nat {
    pages_for(object_bytes(objs[i]))
}

/// Whether frames `[p, p + n)` exist and are all in use.
pub open spec fn block_used(used: Seq<bool>, p: int, n: nat) -> bool {
    0 <= p && p + n <= used.len() && forall|q: int| p <= q < p + n ==> #[trigger] used[q]
}

/// Whether the runs `[a, a + n)` and `[b, b + m)` do not overlap.
pub open spec fn apart(a: int, n: nat, b: int, m: nat) -> bool {
    a + n <= b || b + m <= a
}

/// Whether run `[b, b + n)` overlaps no live object's block.
pub open spec fn clear_of_objects(objs: Seq<KObject>, b: int, n: nat) -> bool {
    forall|i: int| #[trigger] live(objs, i) ==> apart(i, block_len(objs, i), b, n)
}

/// `b` is of the same kind as `a`: a thread keeps whether it has a table,
/// a frame its size level.
pub open spec fn same_shape(a: KObject, b: KObject) -> bool {
    match a {
        KObject::Free => b is Free,
        KObject::Thread(x) => b is Thread && (x.cspace is Some) == (b->Thread_0.cspace is Some),
        KObject::PageTable(_) => b is PageTable,
        KObject::Frame(x) => b is Frame && x.size_level == b->Frame_0.size_level,
        KObject::Notification(_) => b is Notification,
    }
}

/// Objects of the same kind occupy the same number of bytes.
pub proof fn lemma_same_shape_bytes(a: KObject, b: KObject)
    requires
        same_shape(a, b),
    ensures
        object_bytes(a) == object_bytes(b),
{
}

/// `new` came from `old` by releasing objects and updating live ones in
/// place: no object appeared, none changed kind, no frame was taken.
pub open spec fn only_released(old: KernelState, new: KernelState) -> bool {
    &&& new.objects@.len() == old.objects@.len()
    &&& new.heap@.len() == old.heap@.len()
    &&& forall|i: int| #[trigger] live(new.objects@, i) ==> live(old.objects@, i) && same_shape(old.objects@[i], new.objects@[i])
    &&& forall|q: int| 0 <= q < old.heap@.len() && !old.heap@[q] ==> !(#[trigger] new.heap@[q])
    &&& live_count(new.objects@) <= live_count(old.objects@)
    &&& new.current_task == old.current_task
}

/// Whether the object at `u` is a thread with a capability table.
pub open spec fn has_table(objs: Seq<KObject>, u: int) -> bool {
    0 <= u < objs.len() && objs[u] is Thread && objs[u]->Thread_0.cspace is Some
}

/// The capability table of the thread at `u`.
pub open spec fn table_of(objs: Seq<KObject>, u: int) -> Seq<Cap> {
    objs[u]->Thread_0.cspace->0@
}

/// Every table that `new` has, `old` had, with the same capabilities.
pub open spec fn tables_kept(old: Seq<KObject>, new: Seq<KObject>) -> bool {
    forall|u: int| #[trigger] has_table(new, u) ==> has_table(old, u) && table_of(new, u) == table_of(old, u)
}

/// Keeping tables is transitive.
pub proof fn lemma_tables_kept_trans(a: Seq<KObject>, b: Seq<KObject>, c: Seq<KObject>)
    requires
        tables_kept(a, b),
        tables_kept(b, c),
    ensures
        tables_kept(a, c),
{
    assert forall|u: int| #[trigger] has_table(c, u) implies has_table(a, u) && table_of(c, u) == table_of(a, u) by {
        assert(has_table(b, u));
    }
}

/// Every object is consistent, owns a block of used frames, and no two
/// blocks overlap.
pub open spec fn memory_wf(objs: Seq<KObject>, heap: Seq<bool>) -> bool {
    &&& objs.len() == heap.len()
    &&& forall|i: int| 0 <= i < objs.len() ==> object_wf(#[trigger] objs[i])
    &&& forall|i: int| #[trigger] live(objs, i) ==> block_used(heap, i, block_len(objs, i))
    &&& forall|i: int, j: int|
        #[trigger] live(objs, i) && #[trigger] live(objs, j) && i != j ==> apart(
            i,
            block_len(objs, i),
            j,
            block_len(objs, j),
        )
}

/// Replacing a live object by a consistent one of the same size keeps the
/// memory consistent.
pub proof fn lemma_update_in_place(objs: Seq<KObject>, heap: Seq<bool>, t: int, o: KObject)
    requires
        memory_wf(objs, heap),
        live(objs, t),
        !(o is Free),
        object_wf(o),
        object_bytes(o) == object_bytes(objs[t]),
    ensures
        memory_wf(objs.update(t, o), heap),
        live_count(objs.update(t, o)) == live_count(objs),
{
    let n = objs.update(t, o);
    assert forall|i: int| #[trigger] live(n, i) implies live(objs, i) && block_len(n, i) == block_len(objs, i) by {}
    assert forall|i: int| 0 <= i < n.len() implies object_wf(#[trigger] n[i]) by {}
    assert forall|i: int| #[trigger] live(n, i) implies block_used(heap, i, block_len(n, i)) by {
        assert(live(objs, i));
    }
    assert forall|i: int, j: int|
        #[trigger] live(n, i) && #[trigger] live(n, j) && i != j implies apart(i, block_len(n, i), j, block_len(n, j)) by {
        assert(live(objs, i) && live(objs, j));
    }
    lemma_live_count_update(objs, t, o);
}

/// Every block takes at least one frame.
pub proof fn lemma_pages_positive(size: nat)
    ensures
        pages_for(size) >= 1,
{
    if size != 0 && size % 4096 == 0 {
        assert(size / 4096 >= 1) by (nonlinear_arith)
            requires size != 0, size % 4096 == 0;
    }
}

/// A run of free frames is apart from a run of used ones.
pub proof fn lemma_free_apart(heap: Seq<bool>, p: int, n: nat, j: int, m: nat)
    requires
        block_free(heap, p, n as int),
        block_used(heap, j, m),
        n >= 1,
        m >= 1,
    ensures
        apart(p, n, j, m),
{
    if !apart(p, n, j, m) {
        let q = if p > j { p } else { j };
        assert(heap[q]);
        assert(!heap[q]);
    }
}

/// Releasing is transitive, and a run clear of all objects stays clear.
pub proof fn lemma_only_released_trans(a: KernelState, b: KernelState, c: KernelState)
    requires
        only_released(a, b),
        only_released(b, c),
    ensures
        only_released(a, c),
        forall|p: int, n: nat| clear_of_objects(b.objects@, p, n) ==> #[trigger] clear_of_objects(c.objects@, p, n),
        forall|i: int| !live(b.objects@, i) ==> !#[trigger] live(c.objects@, i),
{
    assert forall|i: int| #[trigger] live(c.objects@, i) implies live(a.objects@, i) && same_shape(a.objects@[i], c.objects@[i]) by {
        assert(live(b.objects@, i));
    }
    assert forall|p: int, n: nat| clear_of_objects(b.objects@, p, n) implies #[trigger] clear_of_objects(c.objects@, p, n) by {
        assert forall|i: int| #[trigger] live(c.objects@, i) implies apart(i, block_len(c.objects@, i), p, n) by {
            assert(live(b.objects@, i));
            lemma_same_shape_bytes(b.objects@[i], c.objects@[i]);
        }
    }
}

/// A state is released from itself.
pub proof fn lemma_only_released_refl(a: KernelState)
    ensures
        only_released(a, a),
{
}

/// `b` is thread `a` with at most its capability table changed.
pub open spec fn same_but_cspace(a: TaskContext, b: TaskContext) -> bool {
    &&& b.hal_context == a.hal_context
    &&& b.state == a.state
    &&& b.prio == a.prio
    &&& b.is_queued == a.is_queued
    &&& b.ipc_buffer_vaddr == a.ipc_buffer_vaddr
}

/// `b` holds the same objects, memory, run queue and current thread as `a`.
pub open spec fn unchanged(a: KernelState, b: KernelState) -> bool {
    &&& b.objects@ == a.objects@
    &&& b.heap@ == a.heap@
    &&& b.scheduler@ == a.scheduler@
    &&& b.current_task == a.current_task
}

/// The words of a saved user context: the registers, then the next pc.
pub open spec fn user_context(t: TaskContext) -> Seq<usize> {
    t.hal_context.regs@.push(t.hal_context.next_ip)
}

/// `new` is `old` after a reply to thread `t`: `mr0`, when given, in message
/// register 0 and `tag` in the tag register.
pub open spec fn replied(old: KernelState, new: KernelState, t: int, mr0: Option<usize>, tag: usize) -> bool {
    &&& new.wf()
    &&& if old.is_thread(t) {
        let regs0 = old.task(t).hal_context.regs@;
        let regs1 = match mr0 {
            Some(v) => regs0.update(MR_BASE_REGISTER as int, v),
            None => regs0,
        };
        &&& new.is_thread(t)
        &&& new.task(t).hal_context.regs@ == regs1.update(TAG_REGISTER as int, tag)
        &&& new.task(t).hal_context.next_ip == old.task(t).hal_context.next_ip
        &&& new.task(t).state == old.task(t).state
        &&& new.task(t).prio == old.task(t).prio
        &&& new.task(t).is_queued == old.task(t).is_queued
        &&& new.task(t).cspace == old.task(t).cspace
        &&& new.task(t).ipc_buffer_vaddr == old.task(t).ipc_buffer_vaddr
        &&& new.objects@.len() == old.objects@.len()
        &&& forall|j: int| 0 <= j < old.objects@.len() && j != t ==> new.objects@[j] == old.objects@[j]
        &&& new.heap@ == old.heap@
        &&& new.scheduler@ == old.scheduler@
        &&& new.current_task == old.current_task
    } else {
        unchanged(old, new)
    }
}

/// The whole kernel: physical memory, the objects in it, the run queue and
/// the thread now running.
pub struct KernelState {
    pub heap: Heap,
    /// Indexed by frame number: the object whose block starts there.
    pub objects: Vec<KObject>,
    pub scheduler: Scheduler,
    pub current_task: Option<usize>,
}

impl KernelState {
    pub open spec fn wf(&self) -> bool {
        memory_wf(self.objects@, self.heap@)
    }

    pub open spec fn is_thread(&self, t: int) -> bool {
        0 <= t < self.objects@.len() && self.objects@[t] is Thread
    }

    pub open spec fn task(&self, t: int) -> TaskContext {
        self.objects@[t]->Thread_0
    }

    pub open spec fn is_page_table(&self, t: int) -> bool {
        0 <= t < self.objects@.len() && self.objects@[t] is PageTable
    }

    pub open spec fn is_notification(&self, t: int) -> bool {
        0 <= t < self.objects@.len() && self.objects@[t] is Notification
    }

    /// The capability table of thread `t`.
    pub open spec fn cspace(&self, t: int) -> Seq<Cap> {
        self.task(t).cspace->0@
    }

    pub open spec fn has_cspace(&self, t: int) -> bool {
        self.is_thread(t) && self.task(t).cspace is Some
    }

    /// A kernel with `frames` frames of free memory and nothing running.
    pub fn new(frames: usize) -> (r: KernelState)
        ensures
            r.wf(),
            r.heap@ == Seq::new(frames as nat, |q: int| false),
            forall|i: int| 0 <= i < frames ==> #[trigger] r.objects@[i] is Free,
            r.scheduler@ == Seq::<usize>::empty(),
            r.current_task is None,
            crate::invocation::cspace_handler::singly_owned(r.objects@),
    {
        let heap = Heap::new(frames);
        let mut objects: Vec<KObject> = Vec::new();
        let mut i: usize = 0;
        while i < frames
            invariant
                i <= frames,
                objects@.len() == i,
                forall|j: int| 0 <= j < i ==> #[trigger] objects@[j] is Free,
            decreases frames - i,
        {
            objects.push(KObject::Free);
            i = i + 1;
        }
        KernelState { heap, objects, scheduler: Scheduler::new(), current_task: None }
    }

    /// Bytes of heap that `o` occupies.
    pub fn object_size(o: &KObject) -> (r: usize)
        ensures
            r == object_bytes(*o),
    {
        match o {
            KObject::Free => 0,
            KObject::Thread(_) => core::mem::size_of::<TaskContext>(),
            KObject::PageTable(_) => core::mem::size_of::<PageTable>(),
            KObject::Frame(f) => if f.size_level == FRAME_LEVEL_2M {
                PAGE_SIZE_2M
            } else {
                PAGE_SIZE_NORMAL
            },
            KObject::Notification(_) => core::mem::size_of::<Notification>(),
        }
    }

    /// Allocates a block for `obj`, aligned to `align` bytes, and puts
    /// `obj` there; returns the block's first frame.
    pub fn place_object(&mut self, obj: KObject, align: usize) -> (r: Option<usize>)
        requires
            old(self).wf(),
            !(obj is Free),
            object_wf(obj),
            align >= PAGE_SIZE_NORMAL,
            align % PAGE_SIZE_NORMAL == 0,
        ensures
            final(self).wf(),
            final(self).scheduler@ == old(self).scheduler@,
            final(self).current_task == old(self).current_task,
            r is Some ==> {
                let p = r->0 as int;
                let n = pages_for(object_bytes(obj)) as int;
                &&& p % (align / PAGE_SIZE_NORMAL) as int == 0
                &&& block_free(old(self).heap@, p, n)
                &&& !live(old(self).objects@, p)
                &&& final(self).objects@ == old(self).objects@.update(p, obj)
                &&& final(self).heap@ == mark(old(self).heap@, p, n, true)
                &&& forall|q: int|
                    0 <= q < p && q % (align / PAGE_SIZE_NORMAL) as int == 0 ==> !block_free(old(self).heap@, q, n)
            },
            r is None ==> final(self).objects@ == old(self).objects@ && final(self).heap@ == old(self).heap@
                && forall|q: int|
                0 <= q && q % (align / PAGE_SIZE_NORMAL) as int == 0 ==> !block_free(
                    old(self).heap@,
                    q,
                    pages_for(object_bytes(obj)) as int,
                ),
    {
        let size = Self::object_size(&obj);
        let ghost objs = self.objects@;
        let ghost heap0 = self.heap@;
        match self.heap.alloc_zeroed(size, align) {
            None => None,
            Some(p) => {
                let ghost n = pages_for(object_bytes(obj));
                proof {
                    lemma_pages_positive(object_bytes(obj));
                    if live(objs, p as int) {
                        assert(block_used(heap0, p as int, block_len(objs, p as int)));
                        lemma_pages_positive(object_bytes(objs[p as int]));
                        assert(heap0[p as int]);
                    }
                }
                self.objects.set(p, obj);
                proof {
                    let no = self.objects@;
                    let nh = self.heap@;
                    assert(no == objs.update(p as int, obj));
                    assert forall|i: int| 0 <= i < no.len() implies object_wf(#[trigger] no[i]) by {}
                    assert forall|i: int| #[trigger] live(no, i) implies block_used(nh, i, block_len(no, i)) by {
                        if i != p {
                            assert(live(objs, i));
                            assert(block_used(heap0, i, block_len(objs, i)));
                        }
                    }
                    assert forall|i: int, j: int|
                        #[trigger] live(no, i) && #[trigger] live(no, j) && i != j implies apart(
                        i,
                        block_len(no, i),
                        j,
                        block_len(no, j),
                    ) by {
                        if i == p {
                            assert(live(objs, j));
                            lemma_pages_positive(object_bytes(objs[j]));
                            lemma_free_apart(heap0, p as int, n, j, block_len(objs, j));
                        } else if j == p {
                            assert(live(objs, i));
                            lemma_pages_positive(object_bytes(objs[i]));
                            lemma_free_apart(heap0, p as int, n, i, block_len(objs, i));
                        } else {
                            assert(live(objs, i) && live(objs, j));
                        }
                    }
                }
                Some(p)
            },
        }
    }

    /// Takes the object at frame `b` out, leaving `b` free; its block stays
    /// in use.
    pub fn take_object(&mut self, b: usize) -> (r: KObject)
        requires
            old(self).wf(),
            b < old(self).objects@.len(),
        ensures
            final(self).wf(),
            r == old(self).objects@[b as int],
            final(self).objects@ == old(self).objects@.update(b as int, KObject::Free),
            final(self).heap@ == old(self).heap@,
            final(self).scheduler@ == old(self).scheduler@,
            final(self).current_task == old(self).current_task,
            live(old(self).objects@, b as int) ==> {
                &&& clear_of_objects(final(self).objects@, b as int, block_len(old(self).objects@, b as int))
                &&& block_used(old(self).heap@, b as int, block_len(old(self).objects@, b as int))
                &&& live_count(final(self).objects@) + 1 == live_count(old(self).objects@)
            },
            only_released(*old(self), *final(self)),
            tables_kept(old(self).objects@, final(self).objects@),
    {
        let ghost objs = self.objects@;
        let mut taken = KObject::Free;
        std::mem::swap(&mut self.objects[b], &mut taken);
        proof {
            let no = self.objects@;
            assert(no == objs.update(b as int, KObject::Free));
            assert forall|i: int| #[trigger] live(no, i) implies live(objs, i) && block_len(no, i) == block_len(objs, i) by {}
            assert forall|i: int| #[trigger] live(no, i) implies block_used(self.heap@, i, block_len(no, i)) by {
                assert(live(objs, i));
            }
            assert forall|i: int, j: int|
                #[trigger] live(no, i) && #[trigger] live(no, j) && i != j implies apart(i, block_len(no, i), j, block_len(no, j)) by {
                assert(live(objs, i) && live(objs, j));
            }
            assert forall|i: int| #[trigger] live(no, i) implies same_shape(objs[i], no[i]) by {}
            if live(objs, b as int) {
                assert forall|i: int| #[trigger] live(no, i) implies apart(i, block_len(no, i), b as int, block_len(objs, b as int)) by {
                    assert(live(objs, i));
                    assert(live(objs, b as int));
                }
            }
            lemma_live_count_update(objs, b as int, KObject::Free);
        }
        taken
    }

    /// Returns the frames `[b, b + pages_for(bytes))` to the heap.
    pub fn release_block(&mut self, b: usize, bytes: usize)
        requires
            old(self).wf(),
            b + pages_for(bytes as nat) <= old(self).heap@.len(),
            clear_of_objects(old(self).objects@, b as int, pages_for(bytes as nat)),
        ensures
            final(self).wf(),
            final(self).objects@ == old(self).objects@,
            final(self).heap@ == mark(old(self).heap@, b as int, pages_for(bytes as nat) as int, false),
            final(self).scheduler@ == old(self).scheduler@,
            final(self).current_task == old(self).current_task,
            only_released(*old(self), *final(self)),
            tables_kept(old(self).objects@, final(self).objects@),
    {
        let ghost heap0 = self.heap@;
        self.heap.dealloc(b, bytes);
        proof {
            let objs = self.objects@;
            let n = pages_for(bytes as nat);
            assert forall|i: int| #[trigger] live(objs, i) implies block_used(self.heap@, i, block_len(objs, i)) by {
                assert(apart(i, block_len(objs, i), b as int, n));
                assert(block_used(heap0, i, block_len(objs, i)));
            }
        }
    }

    /// Capability in slot `i` of thread `t`'s table.
    pub fn get_slot(&self, t: usize, i: usize) -> (r: Cap)
        requires
            self.wf(),
            self.has_cspace(t as int),
            i < MAX_CNODE_SIZE,
        ensures
            r == self.cspace(t as int)[i as int],
    {
        match &self.objects[t] {
            KObject::Thread(task) => match &task.cspace {
                Some(cs) => cs.get(i),
                None => Cap::Null,
            },
            _ => Cap::Null,
        }
    }

    /// Stores `cap` in slot `i` of thread `t`'s table.
    pub fn set_slot(&mut self, t: usize, i: usize, cap: Cap)
        requires
            old(self).wf(),
            old(self).has_cspace(t as int),
            i < MAX_CNODE_SIZE,
        ensures
            final(self).wf(),
            final(self).has_cspace(t as int),
            final(self).cspace(t as int) == old(self).cspace(t as int).update(i as int, cap),
            same_but_cspace(old(self).task(t as int), final(self).task(t as int)),
            final(self).objects@.len() == old(self).objects@.len(),
            forall|j: int| 0 <= j < old(self).objects@.len() && j != t ==> final(self).objects@[j] == old(self).objects@[j],
            final(self).heap@ == old(self).heap@,
            final(self).scheduler@ == old(self).scheduler@,
            final(self).current_task == old(self).current_task,
            only_released(*old(self), *final(self)),
    {
        let ghost g = self.objects@;
        match &mut self.objects[t] {
            KObject::Thread(task) => match &mut task.cspace {
                Some(cs) => cs.set(i, cap),
                None => {},
            },
            _ => {},
        }
        proof {
            assert(self.objects@ == g.update(t as int, self.objects@[t as int]));
            lemma_update_in_place(g, self.heap@, t as int, self.objects@[t as int]);
            assert forall|j: int| #[trigger] live(self.objects@, j) implies live(g, j) && same_shape(g[j], self.objects@[j]) by {}
        }
    }

    /// Message register `i` of thread `t`.
    pub fn get_mr(&self, t: usize, i: usize) -> (r: usize)
        requires
            self.wf(),
            self.is_thread(t as int),
            i < crate::constants::MAX_MR,
        ensures
            r == self.task(t as int).hal_context.mr(i as int),
    {
        match &self.objects[t] {
            KObject::Thread(task) => task.hal_context.get_mr(i),
            _ => 0,
        }
    }

    /// The lowest free slot at or above `CAP_FIRST_FREE` in thread `t`'s table.
    pub fn alloc_free_slot(&self, t: usize) -> (r: Option<usize>)
        requires
            self.wf(),
            self.has_cspace(t as int),
        ensures
            r == crate::cnode::first_free(self.cspace(t as int)),
            r is Some ==> r->0 < MAX_CNODE_SIZE && self.cspace(t as int)[r->0 as int] is Null,
    {
        match &self.objects[t] {
            KObject::Thread(task) => match &task.cspace {
                Some(cs) => cs.alloc_free(),
                None => None,
            },
            _ => None,
        }
    }

    /// The saved user context of thread `t`: its registers, then its next pc.
    pub fn user_context_of(&self, t: usize) -> (r: Vec<usize>)
        requires
            self.wf(),
            self.is_thread(t as int),
        ensures
            r@ == user_context(self.task(t as int)),
    {
        let mut ctx: Vec<usize> = Vec::new();
        match &self.objects[t] {
            KObject::Thread(task) => {
                let mut i: usize = 0;
                while i < crate::constants::MAX_GENERAL_REGISTER_NUM
                    invariant
                        task.hal_context.wf(),
                        i <= crate::constants::MAX_GENERAL_REGISTER_NUM,
                        ctx@ == task.hal_context.regs@.subrange(0, i as int),
                    decreases crate::constants::MAX_GENERAL_REGISTER_NUM - i,
                {
                    ctx.push(task.hal_context.get_reg(i));
                    i = i + 1;
                }
                ctx.push(task.hal_context.next_ip);
                assert(task.hal_context.regs@.subrange(0, 32) == task.hal_context.regs@);
            },
            _ => {},
        }
        ctx
    }

    /// Writes a reply into thread `t`'s registers: `mr0` into message
    /// register 0 when given, and `tag` into the tag register. A frame that
    /// holds no thread is left alone.
    pub fn reply(&mut self, t: usize, mr0: Option<usize>, tag: MessageInfo)
        requires
            old(self).wf(),
        ensures
            replied(*old(self), *final(self), t as int, mr0, tag.word),
    {
        if !self.is_thread_at(t) {
            return;
        }
        let ghost g = self.objects@;
        match &mut self.objects[t] {
            KObject::Thread(task) => {
                if let Some(v) = mr0 {
                    task.hal_context.set_mr(0, v);
                }
                task.hal_context.set_tag(tag);
            },
            _ => {},
        }
        proof {
            assert(self.objects@ == g.update(t as int, self.objects@[t as int]));
            lemma_update_in_place(g, self.heap@, t as int, self.objects@[t as int]);
        }
    }

    /// Sets the state of thread `t`, if it is one.
    pub fn set_task_state(&mut self, t: usize, state: ThreadState)
        requires
            old(self).wf(),
        ensures
            final(self).wf(),
            final(self).objects@.len() == old(self).objects@.len(),
            old(self).is_thread(t as int) ==> final(self).is_thread(t as int) && {
                let a = old(self).task(t as int);
                let b = final(self).task(t as int);
                &&& b.state == state
                &&& b.hal_context == a.hal_context
                &&& b.prio == a.prio
                &&& b.is_queued == a.is_queued
                &&& b.cspace == a.cspace
                &&& b.ipc_buffer_vaddr == a.ipc_buffer_vaddr
            },
            forall|j: int| 0 <= j < old(self).objects@.len() && j != t ==> final(self).objects@[j] == old(self).objects@[j],
            !old(self).is_thread(t as int) ==> final(self).objects@ == old(self).objects@,
            final(self).heap@ == old(self).heap@,
            final(self).scheduler@ == old(self).scheduler@,
            final(self).current_task == old(self).current_task,
    {
        if !self.is_thread_at(t) {
            return;
        }
        let ghost g = self.objects@;
        match &mut self.objects[t] {
            KObject::Thread(task) => {
                task.state = state;
            },
            _ => {},
        }
        proof {
            assert(self.objects@ == g.update(t as int, self.objects@[t as int]));
            lemma_update_in_place(g, self.heap@, t as int, self.objects@[t as int]);
        }
    }

    /// Clears the queued flag of thread `t`, if it is one.
    pub fn clear_queued(&mut self, t: usize)
        requires
            old(self).wf(),
        ensures
            final(self).wf(),
            final(self).objects@.len() == old(self).objects@.len(),
            old(self).is_thread(t as int) ==> final(self).is_thread(t as int) && {
                let a = old(self).task(t as int);
                let b = final(self).task(t as int);
                &&& !b.is_queued
                &&& b.state == a.state
                &&& b.hal_context == a.hal_context
                &&& b.prio == a.prio
                &&& b.cspace == a.cspace
                &&& b.ipc_buffer_vaddr == a.ipc_buffer_vaddr
            },
            forall|j: int| 0 <= j < old(self).objects@.len() && j != t ==> final(self).objects@[j] == old(self).objects@[j],
            !old(self).is_thread(t as int) ==> final(self).objects@ == old(self).objects@,
            final(self).heap@ == old(self).heap@,
            final(self).scheduler@ == old(self).scheduler@,
            final(self).current_task == old(self).current_task,
    {
        if !self.is_thread_at(t) {
            return;
        }
        let ghost g = self.objects@;
        match &mut self.objects[t] {
            KObject::Thread(task) => {
                task.is_queued = false;
            },
            _ => {},
        }
        proof {
            assert(self.objects@ == g.update(t as int, self.objects@[t as int]));
            lemma_update_in_place(g, self.heap@, t as int, self.objects@[t as int]);
        }
    }

    /// The state of thread `t`, if it is one.
    pub fn task_state(&self, t: usize) -> (r: Option<ThreadState>)
        ensures
            r == (if self.is_thread(t as int) {
                Some(self.task(t as int).state)
            } else {
                None
            }),
    {
        if t < self.objects.len() {
            match &self.objects[t] {
                KObject::Thread(task) => Some(task.state),
                _ => None,
            }
        } else {
            None
        }
    }

    /// Register `i` of thread `t`, if it is one.
    pub fn get_register(&self, t: usize, i: usize) -> (r: Option<usize>)
        requires
            self.wf(),
            i < crate::constants::MAX_GENERAL_REGISTER_NUM,
        ensures
            r == (if self.is_thread(t as int) {
                Some(self.task(t as int).hal_context.reg(i as int))
            } else {
                None
            }),
    {
        if t < self.objects.len() {
            match &self.objects[t] {
                KObject::Thread(task) => Some(task.hal_context.get_reg(i)),
                _ => None,
            }
        } else {
            None
        }
    }

    /// Whether thread `t` has a capability table.
    pub fn has_cspace_at(&self, t: usize) -> (r: bool)
        ensures
            r == self.has_cspace(t as int),
    {
        t < self.objects.len() && match &self.objects[t] {
            KObject::Thread(task) => task.cspace.is_some(),
            _ => false,
        }
    }

    pub fn is_thread_at(&self, t: usize) -> (r: bool)
        ensures
            r == self.is_thread(t as int),
    {
        t < self.objects.len() && match &self.objects[t] {
            KObject::Thread(_) => true,
            _ => false,
        }
    }
}

} // verus!
