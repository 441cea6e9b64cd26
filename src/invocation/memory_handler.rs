use vstd::prelude::*;

use crate::cap::Cap;
use crate::constants::{MAX_CNODE_SIZE, PAGE_SIZE_NORMAL};
use crate::invocation::cspace_handler::{lemma_single_owners_kept, singly_owned, tables_kept_but};
use crate::kernel::{has_table, live, same_but_cspace, table_of, unchanged, KernelState};
use crate::message::{err_unit, label_of, InvocationLabel, MessageInfo, ResponseLabel, VMRights};
use crate::page_table::{entry_key, Pte};
use crate::vspace::{entries_of, leaf_entry, map_frame_result, map_table_result, table_at, table_entry};

verus! {

/// `new` is `old` with slot `i` of thread `c`'s table set to `cap` and the
/// entries of page table `t` set to `es`.
pub open spec fn mapping_written(old: KernelState, new: KernelState, c: int, i: int, cap: Cap, t: int, es: Seq<Pte>) -> bool {
    &&& new.wf()
    &&& new.has_cspace(c)
    &&& new.cspace(c) == old.cspace(c).update(i, cap)
    &&& same_but_cspace(old.task(c), new.task(c))
    &&& new.is_page_table(t)
    &&& entries_of(new.objects@, t) == es
    &&& new.objects@[t]->PageTable_0.kernel_window == old.objects@[t]->PageTable_0.kernel_window
    &&& new.objects@.len() == old.objects@.len()
    &&& forall|j: int| 0 <= j < old.objects@.len() && j != c && j != t ==> new.objects@[j] == old.objects@[j]
    &&& new.heap@ == old.heap@
    &&& new.scheduler@ == old.scheduler@
    &&& new.current_task == old.current_task
}

/// What `PageTableMap` of the table capability in slot `i` of thread `c`'s
/// table at `vaddr` in the address space `root` does.
pub open spec fn page_table_map_post(old: KernelState, new: KernelState, c: int, root: int, i: int, vaddr: usize, r: Result<(), MessageInfo>) -> bool {
    let cap = old.cspace(c)[i];
    let vpn = (vaddr / PAGE_SIZE_NORMAL) as nat;
    if !(cap is PageTable) {
        r == err_unit(ResponseLabel::ErrCapType) && unchanged(old, new) && new.wf()
    } else if cap->PageTable_is_mapped {
        r == err_unit(ResponseLabel::InvalidParam) && unchanged(old, new) && new.wf()
    } else if !old.is_page_table(root) {
        r == err_unit(ResponseLabel::ErrCapType) && unchanged(old, new) && new.wf()
    } else {
        match map_table_result(old.objects@, root, vpn) {
            Err(e) => r == err_unit(e) && unchanged(old, new) && new.wf(),
            Ok(level) => {
                let parent = if level == 2 { root } else { table_at(old.objects@, root, vpn, 2)->0 };
                let pte = Pte {
                    vpn: entry_key(vpn, (level - 1) as nat) as usize,
                    ppn: cap.base(),
                    is_table: true,
                    execute: false,
                    write: false,
                    read: false,
                };
                &&& r is Ok
                &&& mapping_written(
                    old,
                    new,
                    c,
                    i,
                    Cap::PageTable {
                        base_ptr: cap.base(),
                        is_mapped: true,
                        mapped_addr: vpn as usize,
                        level,
                        derived: cap->PageTable_derived,
                    },
                    parent,
                    entries_of(old.objects@, parent).push(pte),
                )
            },
        }
    }
}

/// What `PageTableUnmap` of the table capability in slot `i` does.
pub open spec fn page_table_unmap_post(old: KernelState, new: KernelState, c: int, root: int, i: int, r: Result<(), MessageInfo>) -> bool {
    let cap = old.cspace(c)[i];
    if !(cap is PageTable) {
        r == err_unit(ResponseLabel::ErrCapType) && unchanged(old, new) && new.wf()
    } else if !cap->PageTable_is_mapped || cap->PageTable_level == 0 {
        r == err_unit(ResponseLabel::InvalidParam) && unchanged(old, new) && new.wf()
    } else if cap->PageTable_level != 2 && cap->PageTable_level != 3 {
        r == err_unit(ResponseLabel::InvalidParam) && unchanged(old, new) && new.wf()
    } else {
        match table_entry(old.objects@, root, cap->PageTable_mapped_addr as nat, cap.base(), cap->PageTable_level as nat) {
            None => r == err_unit(ResponseLabel::NoMappingError) && unchanged(old, new) && new.wf(),
            Some((t, k)) => {
                &&& r is Ok
                &&& mapping_written(
                    old,
                    new,
                    c,
                    i,
                    Cap::PageTable {
                        base_ptr: cap.base(),
                        is_mapped: false,
                        mapped_addr: 0,
                        level: 0,
                        derived: cap->PageTable_derived,
                    },
                    t,
                    entries_of(old.objects@, t).remove(k),
                )
            },
        }
    }
}

/// What `PageMap` of the frame capability in slot `i` at `vaddr` with
/// rights bits `rights` does.
pub open spec fn page_map_post(old: KernelState, new: KernelState, c: int, root: int, i: int, vaddr: usize, rights: usize, r: Result<(), MessageInfo>) -> bool {
    let cap = old.cspace(c)[i];
    let vpn = (vaddr / PAGE_SIZE_NORMAL) as nat;
    if rights >= 8 {
        r == err_unit(ResponseLabel::InvalidParam) && unchanged(old, new) && new.wf()
    } else if !(cap is Frame) {
        r == err_unit(ResponseLabel::ErrCapType) && unchanged(old, new) && new.wf()
    } else if cap->Frame_is_mapped {
        r == err_unit(ResponseLabel::InvalidParam) && unchanged(old, new) && new.wf()
    } else {
        match map_frame_result(old.objects@, root, vaddr, cap.base(), cap->Frame_size_level) {
            Err(e) => r == err_unit(e) && unchanged(old, new) && new.wf(),
            Ok(_) => {
                let t = table_at(old.objects@, root, vpn, cap->Frame_size_level as nat)->0;
                let pte = Pte {
                    vpn: vpn as usize,
                    ppn: cap.base(),
                    is_table: false,
                    execute: (rights / 4) % 2 == 1,
                    write: (rights / 2) % 2 == 1,
                    read: rights % 2 == 1,
                };
                &&& r is Ok
                &&& mapping_written(
                    old,
                    new,
                    c,
                    i,
                    Cap::Frame {
                        base_ptr: cap.base(),
                        size_level: cap->Frame_size_level,
                        is_mapped: true,
                        mapped_addr: vpn as usize,
                        derived: cap->Frame_derived,
                    },
                    t,
                    entries_of(old.objects@, t).push(pte),
                )
            },
        }
    }
}

/// What `PageUnmap` of the frame capability in slot `i` does.
pub open spec fn page_unmap_post(old: KernelState, new: KernelState, c: int, root: int, i: int, r: Result<(), MessageInfo>) -> bool {
    let cap = old.cspace(c)[i];
    if !(cap is Frame) {
        r == err_unit(ResponseLabel::ErrCapType) && unchanged(old, new) && new.wf()
    } else if !cap->Frame_is_mapped {
        r == err_unit(ResponseLabel::InvalidParam) && unchanged(old, new) && new.wf()
    } else {
        match leaf_entry(old.objects@, root, cap->Frame_mapped_addr as nat) {
            None => r == err_unit(ResponseLabel::NoMappingError) && unchanged(old, new) && new.wf(),
            Some((t, k)) => {
                &&& r is Ok
                &&& mapping_written(
                    old,
                    new,
                    c,
                    i,
                    Cap::Frame {
                        base_ptr: cap.base(),
                        size_level: cap->Frame_size_level,
                        is_mapped: false,
                        mapped_addr: 0,
                        derived: cap->Frame_derived,
                    },
                    t,
                    entries_of(old.objects@, t).remove(k),
                )
            },
        }
    }
}

/// Operand values that a memory invocation needs to stay in range.
pub open spec fn memory_request_ok(st: KernelState, current: int, tag: usize) -> bool {
    match label_of(tag) {
        Some(InvocationLabel::PageTableMap) | Some(InvocationLabel::PageTableUnmap) | Some(
            InvocationLabel::PageMap,
        ) | Some(InvocationLabel::PageUnmap) => st.task(current).hal_context.mr(0) < MAX_CNODE_SIZE,
        _ => true,
    }
}

/// What an invocation of the address space at `root` by `current` does.
pub open spec fn memory_post(old: KernelState, new: KernelState, current: int, root: int, tag: usize, r: Result<(), MessageInfo>) -> bool {
    let mr0 = old.task(current).hal_context.mr(0) as int;
    let mr1 = old.task(current).hal_context.mr(1);
    let mr2 = old.task(current).hal_context.mr(2);
    match label_of(tag) {
        Some(InvocationLabel::PageTableMap) => page_table_map_post(old, new, current, root, mr0, mr1, r),
        Some(InvocationLabel::PageTableUnmap) => page_table_unmap_post(old, new, current, root, mr0, r),
        Some(InvocationLabel::PageMap) => page_map_post(old, new, current, root, mr0, mr1, mr2, r),
        Some(InvocationLabel::PageUnmap) => page_unmap_post(old, new, current, root, mr0, r),
        _ => r == err_unit(ResponseLabel::UnSupported) && unchanged(old, new) && new.wf(),
    }
}

/// Handles an invocation, by thread `current`, of a capability to the
/// address space whose top table is at `dest_cap`'s frame.
pub fn handle(st: &mut KernelState, current: usize, dest_cap: Cap, message_info: MessageInfo) -> (r: Result<(), MessageInfo>)
    requires
        old(st).wf(),
        old(st).has_cspace(current as int),
        memory_request_ok(*old(st), current as int, message_info.word),
    ensures
        memory_post(*old(st), *final(st), current as int, dest_cap.base() as int, message_info.word, r),
{
    let page_table = dest_cap.base_ptr();
    let vaddr = st.get_mr(current, 1);
    match InvocationLabel::from_usize(message_info.get_label()) {
        Some(InvocationLabel::PageTableMap) => {
            let page_table_index = st.get_mr(current, 0);
            page_table_map(st, current, page_table, page_table_index, vaddr)
        },
        Some(InvocationLabel::PageTableUnmap) => {
            let page_table_index = st.get_mr(current, 0);
            page_table_unmap(st, current, page_table, page_table_index)
        },
        Some(InvocationLabel::PageMap) => {
            let page_index = st.get_mr(current, 0);
            let vm_rights = st.get_mr(current, 2);
            page_map(st, current, page_table, page_index, vaddr, vm_rights)
        },
        Some(InvocationLabel::PageUnmap) => {
            let page_index = st.get_mr(current, 0);
            page_unmap(st, current, page_table, page_index)
        },
        _ => Err(MessageInfo::new_response(ResponseLabel::UnSupported)),
    }
}

/// Installs the page table whose capability is in slot `target` of thread
/// `c`'s table into the address space `vspace` at `vaddr`.
pub fn page_table_map(st: &mut KernelState, c: usize, vspace: usize, target: usize, vaddr: usize) -> (r: Result<(), MessageInfo>)
    requires
        old(st).wf(),
        old(st).has_cspace(c as int),
        target < MAX_CNODE_SIZE,
    ensures
        page_table_map_post(*old(st), *final(st), c as int, vspace as int, target as int, vaddr, r),
{
    let cap = st.get_slot(c, target);
    let (base_ptr, derived) = match cap {
        Cap::PageTable { base_ptr, is_mapped, derived, .. } => {
            if is_mapped {
                return Err(MessageInfo::new_response(ResponseLabel::InvalidParam));
            }
            (base_ptr, derived)
        },
        _ => {
            return Err(MessageInfo::new_response(ResponseLabel::ErrCapType));
        },
    };
    if !st.is_page_table_at(vspace) {
        return Err(MessageInfo::new_response(ResponseLabel::ErrCapType));
    }
    match st.map_page_table(vspace, vaddr, base_ptr) {
        Ok(level) => {
            let mapped = Cap::PageTable {
                base_ptr,
                is_mapped: true,
                mapped_addr: vaddr / PAGE_SIZE_NORMAL,
                level,
                derived,
            };
            st.set_slot(c, target, mapped);
            Ok(())
        },
        Err(err) => Err(MessageInfo::new_response(err)),
    }
}

/// Removes the page table whose capability is in slot `target` from the
/// address space `vspace`.
pub fn page_table_unmap(st: &mut KernelState, c: usize, vspace: usize, target: usize) -> (r: Result<(), MessageInfo>)
    requires
        old(st).wf(),
        old(st).has_cspace(c as int),
        target < MAX_CNODE_SIZE,
    ensures
        page_table_unmap_post(*old(st), *final(st), c as int, vspace as int, target as int, r),
{
    let cap = st.get_slot(c, target);
    match cap {
        Cap::PageTable { base_ptr, is_mapped, mapped_addr, level, derived } => {
            if !is_mapped || level == 0 {
                return Err(MessageInfo::new_response(ResponseLabel::InvalidParam));
            }
            match st.unmap_page_table(vspace, mapped_addr, base_ptr, level) {
                Ok(_) => {
                    let unmapped = Cap::PageTable { base_ptr, is_mapped: false, mapped_addr: 0, level: 0, derived };
                    st.set_slot(c, target, unmapped);
                    Ok(())
                },
                Err(resp) => Err(MessageInfo::new_response(resp)),
            }
        },
        _ => Err(MessageInfo::new_response(ResponseLabel::ErrCapType)),
    }
}

/// Maps the frame whose capability is in slot `target` of thread `c`'s
/// table at `vaddr` in the address space `vspace`, with the rights bits
/// `vm_rights_arg`.
pub fn page_map(st: &mut KernelState, c: usize, vspace: usize, target: usize, vaddr: usize, vm_rights_arg: usize) -> (r: Result<(), MessageInfo>)
    requires
        old(st).wf(),
        old(st).has_cspace(c as int),
        target < MAX_CNODE_SIZE,
    ensures
        page_map_post(*old(st), *final(st), c as int, vspace as int, target as int, vaddr, vm_rights_arg, r),
{
    let vm_rights = match VMRights::from_bits(vm_rights_arg) {
        Some(rights) => rights,
        None => {
            return Err(MessageInfo::new_response(ResponseLabel::InvalidParam));
        },
    };
    let cap = st.get_slot(c, target);
    match cap {
        Cap::Frame { base_ptr, size_level, is_mapped, derived, .. } => {
            if is_mapped {
                return Err(MessageInfo::new_response(ResponseLabel::InvalidParam));
            }
            match st.map_frame(vspace, vaddr, base_ptr, size_level, vm_rights.execute, vm_rights.write, vm_rights.read) {
                Ok(_) => {
                    let mapped = Cap::Frame {
                        base_ptr,
                        size_level,
                        is_mapped: true,
                        mapped_addr: vaddr / PAGE_SIZE_NORMAL,
                        derived,
                    };
                    st.set_slot(c, target, mapped);
                    Ok(())
                },
                Err(resp) => Err(MessageInfo::new_response(resp)),
            }
        },
        _ => Err(MessageInfo::new_response(ResponseLabel::ErrCapType)),
    }
}

/// Removes the mapping of the frame whose capability is in slot `target`.
pub fn page_unmap(st: &mut KernelState, c: usize, vspace: usize, target: usize) -> (r: Result<(), MessageInfo>)
    requires
        old(st).wf(),
        old(st).has_cspace(c as int),
        target < MAX_CNODE_SIZE,
    ensures
        page_unmap_post(*old(st), *final(st), c as int, vspace as int, target as int, r),
{
    let cap = st.get_slot(c, target);
    match cap {
        Cap::Frame { base_ptr, size_level, is_mapped, mapped_addr, derived } => {
            if !is_mapped {
                return Err(MessageInfo::new_response(ResponseLabel::InvalidParam));
            }
            match st.unmap_frame(vspace, mapped_addr) {
                Ok(_) => {
                    let unmapped = Cap::Frame { base_ptr, size_level, is_mapped: false, mapped_addr: 0, derived };
                    st.set_slot(c, target, unmapped);
                    Ok(())
                },
                Err(resp) => Err(MessageInfo::new_response(resp)),
            }
        },
        _ => Err(MessageInfo::new_response(ResponseLabel::ErrCapType)),
    }
}

} // verus!

verus! {

/// Mapping a frame through the capability in slot `i` and then unmapping
/// it through the same slot succeeds, leaves the capability unmapped, and
/// leaves every page table with the entries it had before the mapping.
pub proof fn lemma_map_unmap_round_trip(
    s0: KernelState,
    s1: KernelState,
    s2: KernelState,
    c: int,
    root: int,
    i: int,
    vaddr: usize,
    rights: usize,
    r2: Result<(), MessageInfo>,
)
    requires
        s0.wf(),
        s0.has_cspace(c),
        0 <= i < MAX_CNODE_SIZE,
        page_map_post(s0, s1, c, root, i, vaddr, rights, Ok(())),
        page_unmap_post(s1, s2, c, root, i, r2),
    ensures
        r2 is Ok,
        s2.cspace(c)[i] is Frame,
        !s2.cspace(c)[i]->Frame_is_mapped,
        s2.cspace(c)[i].base() == s0.cspace(c)[i].base(),
        s2.objects@.len() == s0.objects@.len(),
        forall|j: int|
            0 <= j < s0.objects@.len() && j != c && s0.is_page_table(j) ==> s2.is_page_table(j)
                && entries_of(s2.objects@, j) == entries_of(s0.objects@, j),
        forall|j: int| 0 <= j < s0.objects@.len() && j != c && !s0.is_page_table(j) ==> s2.objects@[j] == s0.objects@[j],
{
    let cap = s0.cspace(c)[i];
    let vpn = (vaddr / PAGE_SIZE_NORMAL) as nat;
    let level = cap->Frame_size_level;
    let t = table_at(s0.objects@, root, vpn, level as nat)->0;
    let pte = Pte {
        vpn: vpn as usize,
        ppn: cap.base(),
        is_table: false,
        execute: (rights / 4) % 2 == 1,
        write: (rights / 2) % 2 == 1,
        read: rights % 2 == 1,
    };
    crate::vspace::lemma_table_at_live(s0.objects@, root, vpn, level as nat);
    assert(s0.objects@[c] is Thread);
    assert(crate::vspace::entry_pushed(s0.objects@, s1.objects@, t, pte));
    crate::vspace::lemma_leaf_after_map(s0, s1, root, vaddr, cap.base(), level, pte);
    assert(s1.cspace(c)[i]->Frame_mapped_addr as nat == vpn);
    let es = entries_of(s0.objects@, t);
    assert(es.push(pte).remove(es.len() as int) =~= es);
}

} // verus!

verus! {

/// After a successful `PageMap` through slot `i`, the capability records
/// the page it is mapped at, and the address space maps that page to the
/// frame the capability designates.
pub proof fn lemma_map_creates_mapping(
    s0: KernelState,
    s1: KernelState,
    c: int,
    root: int,
    i: int,
    vaddr: usize,
    rights: usize,
)
    requires
        s0.wf(),
        s0.has_cspace(c),
        0 <= i < MAX_CNODE_SIZE,
        page_map_post(s0, s1, c, root, i, vaddr, rights, Ok(())),
    ensures
        s1.cspace(c)[i] is Frame,
        s1.cspace(c)[i]->Frame_is_mapped,
        s1.cspace(c)[i]->Frame_mapped_addr == vaddr / PAGE_SIZE_NORMAL,
        crate::vspace::page_frame(s1.objects@, root, (vaddr / PAGE_SIZE_NORMAL) as nat) == Some(s1.cspace(c)[i].base() as nat),
{
    let cap = s0.cspace(c)[i];
    let vpn = (vaddr / PAGE_SIZE_NORMAL) as nat;
    let level = cap->Frame_size_level;
    let t = table_at(s0.objects@, root, vpn, level as nat)->0;
    let pte = Pte {
        vpn: vpn as usize,
        ppn: cap.base(),
        is_table: false,
        execute: (rights / 4) % 2 == 1,
        write: (rights / 2) % 2 == 1,
        read: rights % 2 == 1,
    };
    crate::vspace::lemma_table_at_live(s0.objects@, root, vpn, level as nat);
    assert(s0.objects@[c] is Thread);
    assert(crate::vspace::entry_pushed(s0.objects@, s1.objects@, t, pte));
    crate::vspace::lemma_leaf_after_map(s0, s1, root, vaddr, cap.base(), level, pte);
    let es = entries_of(s0.objects@, t);
    assert(entries_of(s1.objects@, t)[es.len() as int] == pte);
    crate::vspace::lemma_first_entry_push_new(es, pte);
    crate::vspace::lemma_table_at_after_push(s0, s1, t, pte, root, vpn, level as nat, level as nat);
    assert(crate::page_table::first_entry(entries_of(s1.objects@, t), vpn) == Some(es.len() as int));
    if level == crate::constants::FRAME_LEVEL_2M {
        assert(vpn % 512 == 0) by {
            assert((vaddr as int / 4096) % 512 == 0) by (nonlinear_arith)
                requires (vaddr as int) % 0x200000 == 0, vaddr >= 0;
        }
        assert(entry_key(vpn, 2) == vpn);
        assert(crate::vspace::child_table(s1.objects@, t, vpn, 2) is None);
        assert(table_at(s1.objects@, root, vpn, 3) is None);
    }
}

} // verus!

verus! {

/// Rewriting the mapping fields of a capability and the entries of a page
/// table keeps objects singly owned.
proof fn lemma_mapping_written_keeps(s0: KernelState, s1: KernelState, c: int, i: int, x: Cap, t: int, es: Seq<Pte>)
    requires
        s0.wf(),
        s0.has_cspace(c),
        0 <= i < MAX_CNODE_SIZE,
        s0.is_page_table(t),
        singly_owned(s0.objects@),
        mapping_written(s0, s1, c, i, x, t, es),
        x.cap_type() == s0.cspace(c)[i].cap_type(),
        x.base() == s0.cspace(c)[i].base(),
        x.is_owning() == s0.cspace(c)[i].is_owning(),
        x is Frame ==> x->Frame_size_level == s0.cspace(c)[i]->Frame_size_level,
    ensures
        singly_owned(s1.objects@),
{
    let o0 = s0.objects@;
    let o1 = s1.objects@;
    assert(crate::kernel::object_wf(o0[c]));
    assert forall|o: int| #[trigger] live(o1, o) == live(o0, o) by {
        if 0 <= o < o0.len() && o != c && o != t {
            assert(o1[o] == o0[o]);
        }
    }
    assert forall|o: int| 0 <= o < o0.len() implies crate::kernel::same_shape(o0[o], #[trigger] o1[o]) by {
        if o != c && o != t {
            assert(o1[o] == o0[o]);
        }
    }
    assert forall|u: int| #[trigger] has_table(o1, u) && u != c implies table_of(o1, u) == table_of(o0, u) by {
        assert(o1[u] == o0[u]);
    }
    assert(tables_kept_but(o0, o1, c, i, x));
    lemma_single_owners_kept(o0, o1, c, i, x);
}

/// Every invocation of an address space keeps objects singly owned.
pub proof fn lemma_memory_invocation_keeps_single_owners(
    s0: KernelState,
    s1: KernelState,
    current: int,
    root: int,
    tag: usize,
    r: Result<(), MessageInfo>,
)
    requires
        s0.wf(),
        s0.has_cspace(current),
        singly_owned(s0.objects@),
        memory_request_ok(s0, current, tag),
        memory_post(s0, s1, current, root, tag, r),
    ensures
        singly_owned(s1.objects@),
{
    let i = s0.task(current).hal_context.mr(0) as int;
    let vaddr = s0.task(current).hal_context.mr(1);
    let cap = s0.cspace(current)[i];
    let vpn = (vaddr / PAGE_SIZE_NORMAL) as nat;
    if r is Err {
        assert(s1.objects@ == s0.objects@);
    } else {
        match label_of(tag) {
            Some(InvocationLabel::PageTableMap) => {
                let level = map_table_result(s0.objects@, root, vpn)->Ok_0;
                let parent = if level == 2 { root } else { table_at(s0.objects@, root, vpn, 2)->0 };
                crate::vspace::lemma_table_at_live(s0.objects@, root, vpn, 2);
                let x = Cap::PageTable {
                    base_ptr: cap.base(),
                    is_mapped: true,
                    mapped_addr: vpn as usize,
                    level,
                    derived: cap->PageTable_derived,
                };
                let pte = Pte {
                    vpn: entry_key(vpn, (level - 1) as nat) as usize,
                    ppn: cap.base(),
                    is_table: true,
                    execute: false,
                    write: false,
                    read: false,
                };
                lemma_mapping_written_keeps(s0, s1, current, i, x, parent, entries_of(s0.objects@, parent).push(pte));
            },
            Some(InvocationLabel::PageTableUnmap) => {
                let (t, k) = table_entry(s0.objects@, root, cap->PageTable_mapped_addr as nat, cap.base(), cap->PageTable_level as nat)->0;
                crate::vspace::lemma_table_at_live(s0.objects@, root, cap->PageTable_mapped_addr as nat, (cap->PageTable_level - 1) as nat);
                let x = Cap::PageTable {
                    base_ptr: cap.base(),
                    is_mapped: false,
                    mapped_addr: 0,
                    level: 0,
                    derived: cap->PageTable_derived,
                };
                lemma_mapping_written_keeps(s0, s1, current, i, x, t, entries_of(s0.objects@, t).remove(k));
            },
            Some(InvocationLabel::PageMap) => {
                let rights = s0.task(current).hal_context.mr(2);
                let level = cap->Frame_size_level;
                let t = table_at(s0.objects@, root, vpn, level as nat)->0;
                crate::vspace::lemma_table_at_live(s0.objects@, root, vpn, level as nat);
                let x = Cap::Frame {
                    base_ptr: cap.base(),
                    size_level: level,
                    is_mapped: true,
                    mapped_addr: vpn as usize,
                    derived: cap->Frame_derived,
                };
                let pte = Pte {
                    vpn: vpn as usize,
                    ppn: cap.base(),
                    is_table: false,
                    execute: (rights / 4) % 2 == 1,
                    write: (rights / 2) % 2 == 1,
                    read: rights % 2 == 1,
                };
                lemma_mapping_written_keeps(s0, s1, current, i, x, t, entries_of(s0.objects@, t).push(pte));
            },
            Some(InvocationLabel::PageUnmap) => {
                let (t, k) = leaf_entry(s0.objects@, root, cap->Frame_mapped_addr as nat)->0;
                crate::vspace::lemma_table_at_live(s0.objects@, root, cap->Frame_mapped_addr as nat, 3);
                crate::vspace::lemma_table_at_live(s0.objects@, root, cap->Frame_mapped_addr as nat, 2);
                let x = Cap::Frame {
                    base_ptr: cap.base(),
                    size_level: cap->Frame_size_level,
                    is_mapped: false,
                    mapped_addr: 0,
                    derived: cap->Frame_derived,
                };
                lemma_mapping_written_keeps(s0, s1, current, i, x, t, entries_of(s0.objects@, t).remove(k));
            },
            _ => {},
        }
    }
}

} // verus!
