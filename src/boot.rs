use vstd::prelude::*;

use crate::cap::Cap;
use crate::cnode::empty_table;
use crate::constants::{
    CAP_INIT_CNODE, CAP_INIT_TCB, CAP_INIT_VSPACE, MAX_CNODE_SIZE, MAX_GENERAL_REGISTER_NUM,
    MAX_THREAD_PRIO, PAGE_SIZE_NORMAL,
};
use crate::heap::{block_free, mark, pages_for};
use crate::invocation::cspace_handler::{owning_at, owns_live, singly_owned};
use crate::kernel::{has_table, live, table_of, KObject, KernelState};
use crate::page_table::PageTable;
use crate::task::{TaskContext, ThreadState};

verus! {

/// Whether no run of `n` free frames starts at a page boundary.
pub open spec fn no_room(heap: Seq<bool>, n: nat) -> bool {
    forall|q: int| 0 <= q ==> !#[trigger] block_free(heap, q, n as int)
}

/// The table of the first thread at frame `t` whose address space is the
/// page table at frame `v`.
pub open spec fn root_table(t: usize, v: usize) -> Seq<Cap> {
    empty_table().update(
        CAP_INIT_VSPACE as int,
        Cap::PageTable { base_ptr: v, is_mapped: false, mapped_addr: 0, level: 0, derived: false },
    ).update(CAP_INIT_TCB as int, Cap::Thread { base_ptr: t, derived: true }).update(
        CAP_INIT_CNODE as int,
        Cap::CNode { base_ptr: t, radix: 8 },
    )
}

/// A new object that is not a thread, at a frame where none was, keeps
/// objects singly owned.
proof fn lemma_new_object_single_owners(o0: Seq<KObject>, o1: Seq<KObject>, v: int)
    requires
        singly_owned(o0),
        o1.len() == o0.len(),
        0 <= v < o0.len(),
        !live(o0, v),
        !(o1[v] is Thread),
        forall|j: int| 0 <= j < o0.len() && j != v ==> o1[j] == o0[j],
    ensures
        singly_owned(o1),
{
    assert forall|u: int, j: int| #[trigger] owning_at(o1, u, j) implies owning_at(o0, u, j)
        && table_of(o1, u)[j] == table_of(o0, u)[j] by {
        assert(o1[u] == o0[u]);
    }
    assert forall|u: int, j: int| #[trigger] owning_at(o1, u, j) implies owns_live(o1, table_of(o1, u)[j]) by {
        let c = table_of(o0, u)[j];
        assert(owns_live(o0, c));
        assert(o1[c.base() as int] == o0[c.base() as int]);
    }
    assert forall|u1: int, j1: int, u2: int, j2: int|
        #[trigger] owning_at(o1, u1, j1) && #[trigger] owning_at(o1, u2, j2) && (u1 != u2 || j1 != j2)
            implies table_of(o1, u1)[j1].base() != table_of(o1, u2)[j2].base() by {
        assert(owning_at(o0, u1, j1) && owning_at(o0, u2, j2));
    }
}

/// A new thread at `t` whose table is the first thread's, beside a new page
/// table at `v`, keeps objects singly owned.
proof fn lemma_root_single_owners(o0: Seq<KObject>, o1: Seq<KObject>, t: int, v: int)
    requires
        singly_owned(o0),
        o1.len() == o0.len(),
        0 <= t < o0.len(),
        0 <= v < o0.len(),
        t <= usize::MAX,
        v <= usize::MAX,
        t != v,
        !live(o0, t),
        !live(o0, v),
        o1[v] is PageTable,
        has_table(o1, t),
        table_of(o1, t) == root_table(t as usize, v as usize),
        forall|j: int| 0 <= j < o0.len() && j != t && j != v ==> o1[j] == o0[j],
    ensures
        singly_owned(o1),
{
    assert forall|u: int, j: int| #[trigger] owning_at(o1, u, j) implies (u == t && j == CAP_INIT_VSPACE) || (owning_at(o0, u, j)
        && table_of(o1, u)[j] == table_of(o0, u)[j]) by {
        if u == t {
            assert(root_table(t as usize, v as usize)[j] == (if j == CAP_INIT_VSPACE {
                Cap::PageTable { base_ptr: v as usize, is_mapped: false, mapped_addr: 0, level: 0, derived: false }
            } else if j == CAP_INIT_TCB {
                Cap::Thread { base_ptr: t as usize, derived: true }
            } else if j == CAP_INIT_CNODE {
                Cap::CNode { base_ptr: t as usize, radix: 8 }
            } else {
                Cap::Null
            }));
        } else {
            assert(u != v);
            assert(o1[u] == o0[u]);
        }
    }
    assert forall|u: int, j: int| #[trigger] owning_at(o1, u, j) implies owns_live(o1, table_of(o1, u)[j]) by {
        if u == t && j == CAP_INIT_VSPACE {
            assert(empty_table().len() == MAX_CNODE_SIZE);
            assert(table_of(o1, t)[j] == Cap::PageTable {
                base_ptr: v as usize,
                is_mapped: false,
                mapped_addr: 0,
                level: 0,
                derived: false,
            });
        } else {
            assert(owning_at(o0, u, j));
            let c = table_of(o0, u)[j];
            assert(owns_live(o0, c));
            let o = c.base() as int;
            assert(o != t && o != v);
            assert(o1[o] == o0[o]);
        }
    }
    assert forall|u1: int, j1: int, u2: int, j2: int|
        #[trigger] owning_at(o1, u1, j1) && #[trigger] owning_at(o1, u2, j2) && (u1 != u2 || j1 != j2)
            implies table_of(o1, u1)[j1].base() != table_of(o1, u2)[j2].base() by {
        if u1 == t && j1 == CAP_INIT_VSPACE {
            assert(owning_at(o0, u2, j2));
            assert(owns_live(o0, table_of(o0, u2)[j2]));
            assert(empty_table().len() == MAX_CNODE_SIZE);
            assert(table_of(o1, t)[j1].base() == v);
        } else if u2 == t && j2 == CAP_INIT_VSPACE {
            assert(owning_at(o0, u1, j1));
            assert(owns_live(o0, table_of(o0, u1)[j1]));
            assert(empty_table().len() == MAX_CNODE_SIZE);
            assert(table_of(o1, t)[j2].base() == v);
        } else {
            assert(owning_at(o0, u1, j1) && owning_at(o0, u2, j2));
        }
    }
}

impl KernelState {
    /// Creates the first thread and makes it current: it runs, and its own
    /// table holds an owning capability to a new top-level page table that
    /// shares the kernel window, a copy of its own thread capability and a
    /// capability to the table itself. `None` when memory runs out.
    pub fn create_root_thread(&mut self) -> (r: Option<usize>)
        requires
            old(self).wf(),
        ensures
            final(self).wf(),
            r is None ==> final(self).current_task == old(self).current_task && (no_room(
                old(self).heap@,
                pages_for(vstd::layout::size_of::<PageTable>()),
            ) || exists|p: int|
                #![trigger mark(old(self).heap@, p, pages_for(vstd::layout::size_of::<PageTable>()) as int, true)]
                block_free(old(self).heap@, p, pages_for(vstd::layout::size_of::<PageTable>()) as int) && no_room(
                    mark(old(self).heap@, p, pages_for(vstd::layout::size_of::<PageTable>()) as int, true),
                    pages_for(vstd::layout::size_of::<TaskContext>()),
                )),
            r is Some ==> {
                let t = r->0;
                let v = final(self).cspace(t as int)[CAP_INIT_VSPACE as int].base();
                &&& final(self).current_task == Some(t)
                &&& final(self).has_cspace(t as int)
                &&& final(self).task(t as int).state == ThreadState::Running
                &&& final(self).is_page_table(v as int)
                &&& final(self).objects@[v as int]->PageTable_0.entries@.len() == 0
                &&& final(self).cspace(t as int) == root_table(t, v)
            },
            singly_owned(old(self).objects@) ==> singly_owned(final(self).objects@),
    {
        let ghost s0 = *self;
        let ghost h0 = self.heap@;
        let table = KObject::PageTable(PageTable::new());
        let ghost table_bytes = crate::kernel::object_bytes(table);
        let vspace = match self.place_object(table, PAGE_SIZE_NORMAL) {
            Some(v) => v,
            None => {
                proof {
                    let n = pages_for(vstd::layout::size_of::<PageTable>());
                    assert(table_bytes == vstd::layout::size_of::<PageTable>());
                    assert forall|q: int| 0 <= q implies !#[trigger] block_free(h0, q, n as int) by {
                        assert(q % 1 == 0);
                        assert(q % (PAGE_SIZE_NORMAL / PAGE_SIZE_NORMAL) as int == 0);
                    }
                }
                return None;
            },
        };
        let ghost h1 = self.heap@;
        self.map_kernel_window(vspace);
        let mut task = TaskContext::new_user_thread();
        task.init_cspace();
        task.prio = MAX_THREAD_PRIO - 1;
        task.state = ThreadState::Running;
        let thread = KObject::Thread(task);
        let ghost thread_bytes = crate::kernel::object_bytes(thread);
        let t = match self.place_object(thread, PAGE_SIZE_NORMAL) {
            Some(t) => t,
            None => {
                proof {
                    let n = pages_for(vstd::layout::size_of::<TaskContext>());
                    assert(thread_bytes == vstd::layout::size_of::<TaskContext>());
                    assert forall|q: int| 0 <= q implies !#[trigger] block_free(h1, q, n as int) by {
                        assert(q % 1 == 0);
                        assert(q % (PAGE_SIZE_NORMAL / PAGE_SIZE_NORMAL) as int == 0);
                    }
                    assert(mark(h0, vspace as int, pages_for(vstd::layout::size_of::<PageTable>()) as int, true) == h1);
                    if singly_owned(s0.objects@) {
                        lemma_new_object_single_owners(s0.objects@, self.objects@, vspace as int);
                    }
                }
                return None;
            },
        };
        self.set_slot(
            t,
            CAP_INIT_VSPACE,
            Cap::PageTable { base_ptr: vspace, is_mapped: false, mapped_addr: 0, level: 0, derived: false },
        );
        self.set_slot(t, CAP_INIT_TCB, Cap::Thread { base_ptr: t, derived: true });
        self.set_slot(t, CAP_INIT_CNODE, Cap::CNode { base_ptr: t, radix: 8 });
        self.current_task = Some(t);
        proof {
            assert(self.cspace(t as int) =~= root_table(t, vspace));
            if singly_owned(s0.objects@) {
                lemma_root_single_owners(s0.objects@, self.objects@, t as int, vspace as int);
            }
        }
        Some(t)
    }

    /// Sets register `i` of thread `t`, if it is one.
    pub fn set_register(&mut self, t: usize, i: usize, v: usize)
        requires
            old(self).wf(),
            i < MAX_GENERAL_REGISTER_NUM,
        ensures
            final(self).wf(),
            final(self).objects@.len() == old(self).objects@.len(),
            old(self).is_thread(t as int) ==> final(self).is_thread(t as int)
                && final(self).task(t as int).hal_context.regs@ == old(self).task(t as int).hal_context.regs@.update(i as int, v),
            forall|j: int| 0 <= j < old(self).objects@.len() && j != t ==> final(self).objects@[j] == old(self).objects@[j],
            final(self).heap@ == old(self).heap@,
            final(self).scheduler@ == old(self).scheduler@,
            final(self).current_task == old(self).current_task,
    {
        if !self.is_thread_at(t) {
            return;
        }
        let ghost g = self.objects@;
        match &mut self.objects[t] {
            KObject::Thread(task) => {
                task.hal_context.set_reg(i, v);
            },
            _ => {},
        }
        proof {
            assert(self.objects@ == g.update(t as int, self.objects@[t as int]));
            crate::kernel::lemma_update_in_place(g, self.heap@, t as int, self.objects@[t as int]);
        }
    }
}

} // verus!
