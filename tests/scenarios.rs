use mork_syscall::cap::Cap;
use mork_syscall::constants::{
    CAP_INIT_CNODE, CAP_INIT_TCB, CAP_INIT_VSPACE, CAP_REGISTER, MAX_CNODE_SIZE, MR_BASE_REGISTER,
    TAG_REGISTER,
};
use mork_syscall::handle_syscall;
use mork_syscall::kernel::{KObject, KernelState};
use mork_syscall::message::{InvocationLabel, MessageInfo, ObjectType, ResponseLabel, Syscall};
use mork_syscall::task::ThreadState;
use mork_syscall::HalRequest;

fn boot() -> (KernelState, usize) {
    let mut st = KernelState::new(2048);
    let root = st.create_root_thread().unwrap();
    (st, root)
}

fn trap(st: &mut KernelState, t: usize, cap: usize, label: InvocationLabel, mrs: &[usize], syscall: Syscall) -> usize {
    st.current_task = Some(t);
    st.set_task_state(t, ThreadState::Running);
    st.set_register(t, CAP_REGISTER, cap);
    st.set_register(t, TAG_REGISTER, MessageInfo::new(label.as_usize(), 0, 0, 0).word);
    for (i, v) in mrs.iter().enumerate() {
        st.set_register(t, MR_BASE_REGISTER + i, *v);
    }
    let r = handle_syscall(st, cap, MessageInfo::new(label.as_usize(), 0, 0, 0), syscall);
    assert_eq!(r, HalRequest::Nothing);
    if st.scheduler.queue.front() == Some(&t) {
        st.scheduler.queue.pop_front();
    }
    st.get_register(t, TAG_REGISTER).unwrap() / 4096
}

fn invoke(st: &mut KernelState, t: usize, cap: usize, label: InvocationLabel, mrs: &[usize]) -> usize {
    trap(st, t, cap, label, mrs, Syscall::Syscall)
}

fn mr0(st: &KernelState, t: usize) -> usize {
    st.get_register(t, MR_BASE_REGISTER).unwrap()
}

fn vspace(st: &KernelState, t: usize) -> usize {
    st.get_slot(t, CAP_INIT_VSPACE).base_ptr()
}

fn alloc_object(st: &mut KernelState, t: usize, ty: ObjectType) -> usize {
    let r = invoke(st, t, CAP_INIT_CNODE, InvocationLabel::CNodeAlloc, &[ty.as_usize()]);
    assert_eq!(r, ResponseLabel::Success.as_usize());
    mr0(st, t)
}

fn is_queued(st: &KernelState, t: usize) -> bool {
    match &st.objects[t] {
        KObject::Thread(task) => task.is_queued,
        _ => panic!("not a thread"),
    }
}

fn filler(t: usize) -> Cap {
    Cap::Thread { base_ptr: t, derived: true }
}

/// Slots 16 and 17 hold page tables mapped at 0x40000000 in the root's
/// address space, slot 20 a 4 KiB frame.
fn mapped_setup() -> (KernelState, usize, usize) {
    let (mut st, root) = boot();
    let l2 = alloc_object(&mut st, root, ObjectType::PageTable);
    let l3 = alloc_object(&mut st, root, ObjectType::PageTable);
    assert_eq!((l2, l3), (16, 17));
    st.set_slot(root, 18, filler(root));
    st.set_slot(root, 19, filler(root));
    let frame = alloc_object(&mut st, root, ObjectType::Frame4K);
    assert_eq!(frame, 20);
    let r = invoke(&mut st, root, CAP_INIT_VSPACE, InvocationLabel::PageTableMap, &[16, 0x4000_0000]);
    assert_eq!(r, ResponseLabel::Success.as_usize());
    let r = invoke(&mut st, root, CAP_INIT_VSPACE, InvocationLabel::PageTableMap, &[17, 0x4000_0000]);
    assert_eq!(r, ResponseLabel::Success.as_usize());
    (st, root, frame)
}

#[test]
fn allocate_thread_into_first_free_slot() {
    let (mut st, root) = boot();
    st.set_slot(root, 0, filler(root));
    for i in 4..16 {
        st.set_slot(root, i, filler(root));
    }
    let r = invoke(&mut st, root, CAP_INIT_CNODE, InvocationLabel::CNodeAlloc, &[ObjectType::Thread.as_usize()]);
    assert_eq!(r, ResponseLabel::Success.as_usize());
    assert_eq!(mr0(&st, root), 16);
    match st.get_slot(root, 16) {
        Cap::Thread { base_ptr, derived } => {
            assert!(!derived);
            assert_eq!(st.task_state(base_ptr), Some(ThreadState::Inactive));
        },
        other => panic!("expected a thread cap, found {:?}", other),
    }
}

#[test]
fn map_4k_frame() {
    let (mut st, root, frame) = mapped_setup();
    let r = invoke(&mut st, root, CAP_INIT_VSPACE, InvocationLabel::PageMap, &[frame, 0x4000_0000, 0b011]);
    assert_eq!(r, ResponseLabel::Success.as_usize());
    let cap = st.get_slot(root, frame);
    match cap {
        Cap::Frame { is_mapped, mapped_addr, .. } => {
            assert!(is_mapped);
            assert_eq!(mapped_addr, 0x40000);
        },
        other => panic!("expected a frame cap, found {:?}", other),
    }
    let vs = vspace(&st, root);
    assert_eq!(st.va_to_frame(vs, 0x4000_0000), Some(cap.base_ptr()));
    let l3 = st.get_slot(root, 17).base_ptr();
    match &st.objects[l3] {
        KObject::PageTable(pt) => {
            let e = pt.entries.iter().find(|e| e.vpn == 0x40000).unwrap();
            assert!(e.read && e.write && !e.execute && !e.is_table);
            assert_eq!(e.ppn, cap.base_ptr());
        },
        _ => panic!("not a page table"),
    }
}

#[test]
fn double_map_rejected() {
    let (mut st, root, frame) = mapped_setup();
    let r = invoke(&mut st, root, CAP_INIT_VSPACE, InvocationLabel::PageMap, &[frame, 0x4000_0000, 0b011]);
    assert_eq!(r, ResponseLabel::Success.as_usize());
    let r = invoke(&mut st, root, CAP_INIT_VSPACE, InvocationLabel::PageMap, &[frame, 0x4000_0000, 0b011]);
    assert_eq!(r, ResponseLabel::InvalidParam.as_usize());
}

#[test]
fn suspend_then_resume() {
    let (mut st, root) = boot();
    let slot = alloc_object(&mut st, root, ObjectType::Thread);
    let t2 = st.get_slot(root, slot).base_ptr();
    // T2 was woken from a notification: restarting and on the run queue.
    st.set_task_state(t2, ThreadState::Restart);
    st.scheduler.enqueue_back(t2);
    let r = invoke(&mut st, root, slot, InvocationLabel::TCBSuspend, &[]);
    assert_eq!(r, ResponseLabel::Success.as_usize());
    assert_eq!(st.task_state(t2), Some(ThreadState::Inactive));
    let r = invoke(&mut st, root, slot, InvocationLabel::TCBResume, &[]);
    assert_eq!(r, ResponseLabel::Success.as_usize());
    assert_eq!(st.task_state(t2), Some(ThreadState::Restart));
    assert_eq!(st.scheduler.queue.back(), Some(&t2));
    assert!(is_queued(&st, t2));
}

#[test]
fn notification_signal_wakes_waiter() {
    let (mut st, root) = boot();
    let n_slot = alloc_object(&mut st, root, ObjectType::Notification);
    let t_slot = alloc_object(&mut st, root, ObjectType::Thread);
    let t2 = st.get_slot(root, t_slot).base_ptr();
    let r = invoke(&mut st, root, CAP_INIT_CNODE, InvocationLabel::CNodeCopy, &[n_slot, t_slot, 20]);
    assert_eq!(r, ResponseLabel::Success.as_usize());
    let n = st.get_slot(root, n_slot).base_ptr();
    st.set_slot(root, n_slot, Cap::Notification { base_ptr: n, badge: 0x8, derived: false });
    trap(&mut st, t2, 20, InvocationLabel::AllocObject, &[], Syscall::SysRecv);
    assert_eq!(st.task_state(t2), Some(ThreadState::BlockedOnReceive));
    match &st.objects[n] {
        KObject::Notification(nt) => assert_eq!(nt.waiters.iter().copied().collect::<Vec<_>>(), vec![t2]),
        _ => panic!("not a notification"),
    }
    let r = trap(&mut st, root, n_slot, InvocationLabel::AllocObject, &[], Syscall::SysNBSend);
    assert_eq!(r, ResponseLabel::Success.as_usize());
    assert_eq!(mr0(&st, t2), 0x8);
    assert_eq!(st.task_state(t2), Some(ThreadState::Restart));
    assert_eq!(st.scheduler.queue.back(), Some(&t2));
    match &st.objects[n] {
        KObject::Notification(nt) => {
            assert_eq!(nt.signal_word, 0);
            assert!(nt.waiters.is_empty());
        },
        _ => panic!("not a notification"),
    }
}

#[test]
fn out_of_range_cap_index() {
    let (mut st, root) = boot();
    let r = invoke(&mut st, root, MAX_CNODE_SIZE + 1, InvocationLabel::CNodeAlloc, &[1]);
    assert_eq!(r, ResponseLabel::OutOfRange.as_usize());
}

#[test]
fn alloc_then_delete_restores_table_and_memory() {
    for ty in [ObjectType::Thread, ObjectType::PageTable, ObjectType::Frame4K, ObjectType::Frame2M, ObjectType::Notification] {
        let (mut st, root) = boot();
        let heap_before = st.heap.used.clone();
        let slots_before: Vec<Cap> = (0..MAX_CNODE_SIZE).map(|i| st.get_slot(root, i)).collect();
        let k = alloc_object(&mut st, root, ty);
        assert_ne!(st.heap.used, heap_before);
        let r = invoke(&mut st, root, CAP_INIT_CNODE, InvocationLabel::CNodeDelete, &[k]);
        assert_eq!(r, ResponseLabel::Success.as_usize());
        assert_eq!(mr0(&st, root), k);
        assert_eq!(st.heap.used, heap_before);
        let slots_after: Vec<Cap> = (0..MAX_CNODE_SIZE).map(|i| st.get_slot(root, i)).collect();
        assert_eq!(slots_after, slots_before);
    }
}

#[test]
fn map_then_unmap_leaves_no_entry() {
    let (mut st, root, frame) = mapped_setup();
    let l3 = st.get_slot(root, 17).base_ptr();
    let before = match &st.objects[l3] {
        KObject::PageTable(pt) => pt.entries.clone(),
        _ => panic!("not a page table"),
    };
    let r = invoke(&mut st, root, CAP_INIT_VSPACE, InvocationLabel::PageMap, &[frame, 0x4000_0000, 0b001]);
    assert_eq!(r, ResponseLabel::Success.as_usize());
    let r = invoke(&mut st, root, CAP_INIT_VSPACE, InvocationLabel::PageUnmap, &[frame]);
    assert_eq!(r, ResponseLabel::Success.as_usize());
    match st.get_slot(root, frame) {
        Cap::Frame { is_mapped, .. } => assert!(!is_mapped),
        other => panic!("expected a frame cap, found {:?}", other),
    }
    match &st.objects[l3] {
        KObject::PageTable(pt) => assert_eq!(pt.entries, before),
        _ => panic!("not a page table"),
    }
    let vs = vspace(&st, root);
    assert_eq!(st.va_to_frame(vs, 0x4000_0000), None);
}

#[test]
fn deleting_a_copy_keeps_the_source() {
    let (mut st, root, frame) = mapped_setup();
    let r = invoke(&mut st, root, CAP_INIT_VSPACE, InvocationLabel::PageMap, &[frame, 0x4000_0000, 0b011]);
    assert_eq!(r, ResponseLabel::Success.as_usize());
    let t_slot = alloc_object(&mut st, root, ObjectType::Thread);
    let heap_before = st.heap.used.clone();
    let r = invoke(&mut st, root, CAP_INIT_CNODE, InvocationLabel::CNodeCopy, &[frame, t_slot, 30]);
    assert_eq!(r, ResponseLabel::Success.as_usize());
    assert_eq!(mr0(&st, root), 30);
    let r = invoke(&mut st, root, t_slot, InvocationLabel::CNodeDelete, &[30]);
    assert_eq!(r, ResponseLabel::Success.as_usize());
    let t2 = st.get_slot(root, t_slot).base_ptr();
    assert_eq!(st.get_slot(t2, 30), Cap::Null);
    let cap = st.get_slot(root, frame);
    match cap {
        Cap::Frame { is_mapped, .. } => assert!(is_mapped),
        other => panic!("expected a frame cap, found {:?}", other),
    }
    assert!(matches!(st.objects[cap.base_ptr()], KObject::Frame(_)));
    assert_eq!(st.heap.used, heap_before);
    let vs = vspace(&st, root);
    assert_eq!(st.va_to_frame(vs, 0x4000_0000), Some(cap.base_ptr()));
}

#[test]
fn signals_wake_waiters_in_order() {
    let (mut st, root) = boot();
    let n_slot = alloc_object(&mut st, root, ObjectType::Notification);
    let n = st.get_slot(root, n_slot).base_ptr();
    let mut waiters = Vec::new();
    for _ in 0..3 {
        let t_slot = alloc_object(&mut st, root, ObjectType::Thread);
        let r = invoke(&mut st, root, CAP_INIT_CNODE, InvocationLabel::CNodeCopy, &[n_slot, t_slot, 20]);
        assert_eq!(r, ResponseLabel::Success.as_usize());
        let t = st.get_slot(root, t_slot).base_ptr();
        trap(&mut st, t, 20, InvocationLabel::AllocObject, &[], Syscall::SysRecv);
        waiters.push(t);
    }
    st.set_slot(root, n_slot, Cap::Notification { base_ptr: n, badge: 0x1, derived: false });
    trap(&mut st, root, n_slot, InvocationLabel::AllocObject, &[], Syscall::SysNBSend);
    st.set_slot(root, n_slot, Cap::Notification { base_ptr: n, badge: 0x2, derived: false });
    trap(&mut st, root, n_slot, InvocationLabel::AllocObject, &[], Syscall::SysNBSend);
    assert_eq!(mr0(&st, waiters[0]), 0x1);
    assert_eq!(mr0(&st, waiters[1]), 0x2);
    assert_eq!(st.task_state(waiters[0]), Some(ThreadState::Restart));
    assert_eq!(st.task_state(waiters[1]), Some(ThreadState::Restart));
    assert_eq!(st.task_state(waiters[2]), Some(ThreadState::BlockedOnReceive));
    let q: Vec<usize> = st.scheduler.queue.iter().copied().collect();
    assert_eq!(q, vec![waiters[0], waiters[1]]);
}

#[test]
fn root_thread_layout() {
    let (st, root) = boot();
    assert_eq!(st.current_task, Some(root));
    assert_eq!(st.task_state(root), Some(ThreadState::Running));
    assert_eq!(st.get_slot(root, CAP_INIT_TCB), Cap::Thread { base_ptr: root, derived: true });
    assert_eq!(st.get_slot(root, CAP_INIT_CNODE), Cap::CNode { base_ptr: root, radix: 8 });
    assert!(matches!(st.get_slot(root, CAP_INIT_VSPACE), Cap::PageTable { derived: false, .. }));
}

#[test]
fn owning_caps_designate_distinct_objects() {
    let (mut st, root, frame) = mapped_setup();
    let t_slot = alloc_object(&mut st, root, ObjectType::Thread);
    let n_slot = alloc_object(&mut st, root, ObjectType::Notification);
    let r = invoke(&mut st, root, CAP_INIT_CNODE, InvocationLabel::CNodeCopy, &[frame, t_slot, 20]);
    assert_eq!(r, ResponseLabel::Success.as_usize());
    let r = invoke(&mut st, root, CAP_INIT_CNODE, InvocationLabel::CNodeCopy, &[n_slot, t_slot, 21]);
    assert_eq!(r, ResponseLabel::Success.as_usize());
    let t2 = st.get_slot(root, t_slot).base_ptr();
    let mut owned = Vec::new();
    for t in [root, t2] {
        for i in 0..MAX_CNODE_SIZE {
            let c = st.get_slot(t, i);
            let owning = match c {
                Cap::Thread { derived, .. } | Cap::PageTable { derived, .. } | Cap::Frame { derived, .. }
                | Cap::Notification { derived, .. } => !derived,
                _ => false,
            };
            if owning {
                owned.push(c.base_ptr());
            }
        }
    }
    let mut sorted = owned.clone();
    sorted.sort();
    sorted.dedup();
    assert_eq!(sorted.len(), owned.len());
    assert_eq!(owned.len(), 6);
}
