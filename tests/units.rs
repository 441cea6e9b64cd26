use mork_syscall::cap::Cap;
use mork_syscall::cnode::CapNode;
use mork_syscall::constants::{
    CAP_FIRST_FREE, CAP_INIT_CNODE, CAP_INIT_TCB, CAP_INIT_VSPACE, CAP_REGISTER, MAX_CNODE_SIZE,
    MR_BASE_REGISTER, TAG_REGISTER, TLS_REGISTER,
};
use mork_syscall::heap::Heap;
use mork_syscall::invocation::cspace_handler::AllocHandler;
use mork_syscall::kernel::{KObject, KernelState};
use mork_syscall::message::{InvocationLabel, MessageInfo, ObjectType, ResponseLabel, Syscall, VMRights};
use mork_syscall::task::ThreadState;
use mork_syscall::{handle_syscall, HalRequest};

fn boot_with(frames: usize) -> (KernelState, usize) {
    let mut st = KernelState::new(frames);
    let root = st.create_root_thread().unwrap();
    (st, root)
}

fn call(st: &mut KernelState, t: usize, cap: usize, label: usize, mrs: &[usize]) -> usize {
    st.current_task = Some(t);
    st.set_task_state(t, ThreadState::Running);
    st.set_register(t, CAP_REGISTER, cap);
    st.set_register(t, TAG_REGISTER, MessageInfo::new(label, 0, 0, 0).word);
    for (i, v) in mrs.iter().enumerate() {
        st.set_register(t, MR_BASE_REGISTER + i, *v);
    }
    handle_syscall(st, cap, MessageInfo::new(label, 0, 0, 0), Syscall::Syscall);
    if st.scheduler.queue.front() == Some(&t) {
        st.scheduler.queue.pop_front();
    }
    st.get_register(t, TAG_REGISTER).unwrap() / 4096
}

fn alloc_object(st: &mut KernelState, t: usize, ty: ObjectType) -> usize {
    let r = call(st, t, CAP_INIT_CNODE, InvocationLabel::CNodeAlloc.as_usize(), &[ty.as_usize()]);
    assert_eq!(r, ResponseLabel::Success.as_usize());
    st.get_register(t, MR_BASE_REGISTER).unwrap()
}

#[test]
fn message_info_packs_fields() {
    let m = MessageInfo::new(5, 1, 2, 3);
    assert_eq!(m.word, 5 * 4096 + 512 + 2 * 128 + 3);
    assert_eq!(m.get_label(), 5);
    assert_eq!(m.get_caps_unwrapped(), 1);
    assert_eq!(m.get_extra_caps(), 2);
    assert_eq!(m.get_length(), 3);
    assert_eq!(MessageInfo::new_response(ResponseLabel::InvalidParam).word, 5 * 4096);
}

#[test]
fn labels_decode_by_wire_value() {
    assert_eq!(InvocationLabel::from_usize(1), Some(InvocationLabel::CNodeAlloc));
    assert_eq!(InvocationLabel::from_usize(19), Some(InvocationLabel::TCBWriteRegisters));
    assert_eq!(InvocationLabel::from_usize(20), None);
    assert_eq!(InvocationLabel::PageMap.as_usize(), 11);
    assert_eq!(ObjectType::from_usize(4), Some(ObjectType::Frame2M));
    assert_eq!(ObjectType::from_usize(6), None);
    assert_eq!(ResponseLabel::MappingAlreadyExists.as_usize(), 8);
}

#[test]
fn rights_bits() {
    assert_eq!(VMRights::from_bits(0b101), Some(VMRights { read: true, write: false, execute: true }));
    assert_eq!(VMRights::from_bits(8), None);
}

#[test]
fn cnode_first_free_slot() {
    let mut cn = CapNode::new();
    assert!(cn.empty());
    assert_eq!(cn.alloc_free(), Some(CAP_FIRST_FREE));
    cn.set(CAP_FIRST_FREE, Cap::Thread { base_ptr: 1, derived: true });
    assert!(cn.is_used(CAP_FIRST_FREE));
    assert!(!cn.is_used(CAP_FIRST_FREE + 1));
    assert!(!cn.empty());
    assert_eq!(cn.alloc_free(), Some(CAP_FIRST_FREE + 1));
    for i in CAP_FIRST_FREE..MAX_CNODE_SIZE {
        cn.set(i, Cap::Thread { base_ptr: 1, derived: true });
    }
    assert_eq!(cn.alloc_free(), None);
}

#[test]
fn heap_first_fit_aligned() {
    let mut h = Heap::new(8);
    assert_eq!(h.alloc_zeroed(4096, 4096), Some(0));
    assert_eq!(h.alloc_zeroed(8192, 8192), Some(2));
    assert_eq!(h.alloc_zeroed(1, 4096), Some(1));
    assert_eq!(h.alloc_zeroed(4 * 4096, 4096), Some(4));
    assert_eq!(h.alloc_zeroed(4096, 4096), None);
    h.dealloc(2, 8192);
    assert_eq!(h.used, vec![true, true, false, false, true, true, true, true]);
    assert_eq!(Heap::pages(0), 1);
    assert_eq!(Heap::pages(4097), 2);
}

#[test]
fn derive_clears_mapping_and_ownership() {
    let c = Cap::Frame { base_ptr: 7, size_level: 3, is_mapped: true, mapped_addr: 9, derived: false };
    assert_eq!(c.derive(), Cap::Frame { base_ptr: 7, size_level: 3, is_mapped: false, mapped_addr: 9, derived: true });
    let n = Cap::Notification { base_ptr: 3, badge: 4, derived: false };
    assert_eq!(n.derive(), Cap::Notification { base_ptr: 3, badge: 4, derived: true });
}

#[test]
fn layout_of_frames() {
    assert_eq!(AllocHandler::get_layout(&ObjectType::Frame4K), (4096, 4096));
    assert_eq!(AllocHandler::get_layout(&ObjectType::Frame2M), (0x200000, 0x200000));
    assert_eq!(AllocHandler::get_layout(&ObjectType::Thread).1, 4096);
}

#[test]
fn unknown_label_is_unsupported() {
    let (mut st, root) = boot_with(64);
    let r = call(&mut st, root, CAP_INIT_CNODE, InvocationLabel::CNodeMint.as_usize(), &[]);
    assert_eq!(r, ResponseLabel::UnSupported.as_usize());
    let r = call(&mut st, root, CAP_INIT_VSPACE, InvocationLabel::TCBSuspend.as_usize(), &[]);
    assert_eq!(r, ResponseLabel::UnSupported.as_usize());
    let r = call(&mut st, root, 40, InvocationLabel::CNodeAlloc.as_usize(), &[1]);
    assert_eq!(r, ResponseLabel::UnSupported.as_usize());
}

#[test]
fn full_table_or_memory_is_not_enough_space() {
    let (mut st, root) = boot_with(64);
    for i in CAP_FIRST_FREE..MAX_CNODE_SIZE {
        st.set_slot(root, i, Cap::Thread { base_ptr: root, derived: true });
    }
    let r = call(&mut st, root, CAP_INIT_CNODE, InvocationLabel::CNodeAlloc.as_usize(), &[ObjectType::Notification.as_usize()]);
    assert_eq!(r, ResponseLabel::NotEnoughSpace.as_usize());
    let (mut st, root) = boot_with(64);
    let r = call(&mut st, root, CAP_INIT_CNODE, InvocationLabel::CNodeAlloc.as_usize(), &[ObjectType::Frame2M.as_usize()]);
    assert_eq!(r, ResponseLabel::NotEnoughSpace.as_usize());
}

#[test]
fn copy_through_non_thread_is_cap_type_error() {
    let (mut st, root) = boot_with(64);
    let n = alloc_object(&mut st, root, ObjectType::Notification);
    let r = call(&mut st, root, CAP_INIT_CNODE, InvocationLabel::CNodeCopy.as_usize(), &[n, CAP_INIT_VSPACE, 30]);
    assert_eq!(r, ResponseLabel::ErrCapType.as_usize());
}

#[test]
fn copy_to_used_slot_falls_back_to_first_free() {
    let (mut st, root) = boot_with(64);
    let n = alloc_object(&mut st, root, ObjectType::Notification);
    let r = call(&mut st, root, CAP_INIT_CNODE, InvocationLabel::CNodeCopy.as_usize(), &[n, CAP_INIT_TCB, n]);
    assert_eq!(r, ResponseLabel::Success.as_usize());
    assert_eq!(st.get_register(root, MR_BASE_REGISTER), Some(n + 1));
    assert_eq!(st.get_slot(root, n + 1), st.get_slot(root, n).derive());
}

#[test]
fn bad_rights_are_invalid_param() {
    let (mut st, root) = boot_with(64);
    let f = alloc_object(&mut st, root, ObjectType::Frame4K);
    let r = call(&mut st, root, CAP_INIT_VSPACE, InvocationLabel::PageMap.as_usize(), &[f, 0x4000_0000, 8]);
    assert_eq!(r, ResponseLabel::InvalidParam.as_usize());
    let r = call(&mut st, root, CAP_INIT_VSPACE, InvocationLabel::PageUnmap.as_usize(), &[f]);
    assert_eq!(r, ResponseLabel::InvalidParam.as_usize());
    let r = call(&mut st, root, CAP_INIT_VSPACE, InvocationLabel::PageMap.as_usize(), &[CAP_INIT_TCB, 0x4000_0000, 1]);
    assert_eq!(r, ResponseLabel::ErrCapType.as_usize());
}

#[test]
fn map_without_tables_is_no_mapping_error() {
    let (mut st, root) = boot_with(64);
    let f = alloc_object(&mut st, root, ObjectType::Frame4K);
    let r = call(&mut st, root, CAP_INIT_VSPACE, InvocationLabel::PageMap.as_usize(), &[f, 0x4000_0000, 3]);
    assert_eq!(r, ResponseLabel::NoMappingError.as_usize());
    let r = call(&mut st, root, CAP_INIT_VSPACE, InvocationLabel::PageMap.as_usize(), &[f, 0x4000_0010, 3]);
    assert_eq!(r, ResponseLabel::InvalidParam.as_usize());
}

#[test]
fn third_table_is_mapping_already_exists() {
    let (mut st, root) = boot_with(64);
    let a = alloc_object(&mut st, root, ObjectType::PageTable);
    let b = alloc_object(&mut st, root, ObjectType::PageTable);
    let c = alloc_object(&mut st, root, ObjectType::PageTable);
    for (slot, level) in [(a, 2), (b, 3)] {
        let r = call(&mut st, root, CAP_INIT_VSPACE, InvocationLabel::PageTableMap.as_usize(), &[slot, 0x4000_0000]);
        assert_eq!(r, ResponseLabel::Success.as_usize());
        match st.get_slot(root, slot) {
            Cap::PageTable { is_mapped, mapped_addr, level: l, .. } => {
                assert!(is_mapped);
                assert_eq!(mapped_addr, 0x40000);
                assert_eq!(l, level);
            },
            other => panic!("expected a page-table cap, found {:?}", other),
        }
    }
    let r = call(&mut st, root, CAP_INIT_VSPACE, InvocationLabel::PageTableMap.as_usize(), &[c, 0x4000_0000]);
    assert_eq!(r, ResponseLabel::MappingAlreadyExists.as_usize());
    let r = call(&mut st, root, CAP_INIT_VSPACE, InvocationLabel::PageTableUnmap.as_usize(), &[b]);
    assert_eq!(r, ResponseLabel::Success.as_usize());
    let r = call(&mut st, root, CAP_INIT_VSPACE, InvocationLabel::PageTableMap.as_usize(), &[c, 0x4000_0000]);
    assert_eq!(r, ResponseLabel::Success.as_usize());
}

#[test]
fn map_2m_frame() {
    let (mut st, root) = boot_with(2048);
    let a = alloc_object(&mut st, root, ObjectType::PageTable);
    let f = alloc_object(&mut st, root, ObjectType::Frame2M);
    let r = call(&mut st, root, CAP_INIT_VSPACE, InvocationLabel::PageTableMap.as_usize(), &[a, 0x4000_0000]);
    assert_eq!(r, ResponseLabel::Success.as_usize());
    let r = call(&mut st, root, CAP_INIT_VSPACE, InvocationLabel::PageMap.as_usize(), &[f, 0x4020_0000, 7]);
    assert_eq!(r, ResponseLabel::Success.as_usize());
    let base = st.get_slot(root, f).base_ptr();
    assert_eq!(base % 512, 0);
    let vs = st.get_slot(root, CAP_INIT_VSPACE).base_ptr();
    assert_eq!(st.va_to_frame(vs, 0x4020_3000), Some(base + 3));
}

#[test]
fn registers_round_trip_through_ipc_buffer() {
    let (mut st, root) = boot_with(2048);
    let l2 = alloc_object(&mut st, root, ObjectType::PageTable);
    let l3 = alloc_object(&mut st, root, ObjectType::PageTable);
    let f = alloc_object(&mut st, root, ObjectType::Frame4K);
    let t_slot = alloc_object(&mut st, root, ObjectType::Thread);
    let t2 = st.get_slot(root, t_slot).base_ptr();
    for slot in [l2, l3] {
        let r = call(&mut st, root, CAP_INIT_VSPACE, InvocationLabel::PageTableMap.as_usize(), &[slot, 0x1000_0000]);
        assert_eq!(r, ResponseLabel::Success.as_usize());
    }
    let r = call(&mut st, root, CAP_INIT_VSPACE, InvocationLabel::PageMap.as_usize(), &[f, 0x1000_0000, 3]);
    assert_eq!(r, ResponseLabel::Success.as_usize());
    let r = call(&mut st, root, t_slot, InvocationLabel::TCBReadRegisters.as_usize(), &[]);
    assert_eq!(r, ResponseLabel::NoIpcBuffer.as_usize());
    let r = call(&mut st, root, CAP_INIT_TCB, InvocationLabel::TCBSetIPCBuffer.as_usize(), &[0x1000_0010]);
    assert_eq!(r, ResponseLabel::InvalidParam.as_usize());
    let r = call(&mut st, root, CAP_INIT_TCB, InvocationLabel::TCBSetIPCBuffer.as_usize(), &[0x1000_0000]);
    assert_eq!(r, ResponseLabel::Success.as_usize());
    let r = call(&mut st, root, t_slot, InvocationLabel::TCBSetTLSBase.as_usize(), &[0xabc]);
    assert_eq!(r, ResponseLabel::Success.as_usize());
    assert_eq!(st.get_register(t2, TLS_REGISTER), Some(0xabc));
    let r = call(&mut st, root, t_slot, InvocationLabel::TCBReadRegisters.as_usize(), &[]);
    assert_eq!(r, ResponseLabel::Success.as_usize());
    let frame = st.get_slot(root, f).base_ptr();
    match &st.objects[frame] {
        KObject::Frame(fo) => {
            assert_eq!(fo.data[TLS_REGISTER], 0xabc);
            assert_eq!(fo.data[32], 0);
        },
        _ => panic!("not a frame"),
    }
    if let KObject::Frame(fo) = &mut st.objects[frame] {
        fo.data[5] = 55;
        fo.data[32] = 0x8000;
    }
    let r = call(&mut st, root, t_slot, InvocationLabel::TCBWriteRegisters.as_usize(), &[]);
    assert_eq!(r, ResponseLabel::Success.as_usize());
    assert_eq!(st.get_register(t2, 5), Some(55));
    assert_eq!(st.get_register(t2, TLS_REGISTER), Some(0xabc));
    match &st.objects[t2] {
        KObject::Thread(task) => assert_eq!(task.hal_context.next_ip, 0x8000),
        _ => panic!("not a thread"),
    }
}

#[test]
fn set_space_installs_copy_and_kernel_window() {
    let (mut st, root) = boot_with(64);
    let pt = alloc_object(&mut st, root, ObjectType::PageTable);
    let t_slot = alloc_object(&mut st, root, ObjectType::Thread);
    let t2 = st.get_slot(root, t_slot).base_ptr();
    let r = call(&mut st, root, t_slot, InvocationLabel::TCBSetSpace.as_usize(), &[pt]);
    assert_eq!(r, ResponseLabel::Success.as_usize());
    assert_eq!(st.get_slot(t2, CAP_INIT_VSPACE), st.get_slot(root, pt).derive());
    match &st.objects[st.get_slot(root, pt).base_ptr()] {
        KObject::PageTable(p) => assert!(p.kernel_window),
        _ => panic!("not a page table"),
    }
    let r = call(&mut st, root, t_slot, InvocationLabel::TCBSetSpace.as_usize(), &[CAP_INIT_TCB]);
    assert_eq!(r, ResponseLabel::ErrCapType.as_usize());
}

#[test]
fn deleting_a_thread_releases_what_its_table_owns() {
    let (mut st, root) = boot_with(64);
    let before = st.heap.used.clone();
    let t_slot = alloc_object(&mut st, root, ObjectType::Thread);
    let t2 = st.get_slot(root, t_slot).base_ptr();
    // give the new thread a notification of its own
    let r = call(&mut st, root, t_slot, InvocationLabel::CNodeAlloc.as_usize(), &[ObjectType::Notification.as_usize()]);
    assert_eq!(r, ResponseLabel::Success.as_usize());
    let n = st.get_slot(t2, CAP_FIRST_FREE).base_ptr();
    assert!(matches!(st.objects[n], KObject::Notification(_)));
    let r = call(&mut st, root, CAP_INIT_CNODE, InvocationLabel::CNodeDelete.as_usize(), &[t_slot]);
    assert_eq!(r, ResponseLabel::Success.as_usize());
    assert!(matches!(st.objects[t2], KObject::Free));
    assert!(matches!(st.objects[n], KObject::Free));
    assert_eq!(st.heap.used, before);
    assert_eq!(st.get_slot(root, t_slot), Cap::Null);
}

#[test]
fn deleting_a_notification_ends_waits() {
    let (mut st, root) = boot_with(64);
    let n_slot = alloc_object(&mut st, root, ObjectType::Notification);
    let t_slot = alloc_object(&mut st, root, ObjectType::Thread);
    let t2 = st.get_slot(root, t_slot).base_ptr();
    let r = call(&mut st, root, CAP_INIT_CNODE, InvocationLabel::CNodeCopy.as_usize(), &[n_slot, t_slot, 20]);
    assert_eq!(r, ResponseLabel::Success.as_usize());
    st.current_task = Some(t2);
    st.set_register(t2, CAP_REGISTER, 20);
    handle_syscall(&mut st, 20, MessageInfo::new(0, 0, 0, 0), Syscall::SysRecv);
    assert_eq!(st.task_state(t2), Some(ThreadState::BlockedOnReceive));
    let r = call(&mut st, root, CAP_INIT_CNODE, InvocationLabel::CNodeDelete.as_usize(), &[n_slot]);
    assert_eq!(r, ResponseLabel::Success.as_usize());
    assert_eq!(st.task_state(t2), Some(ThreadState::Restart));
    assert_eq!(st.get_register(t2, TAG_REGISTER), Some(ResponseLabel::InvalidParam.as_usize() * 4096));
    assert_eq!(st.scheduler.queue.back(), Some(&t2));
}

#[test]
fn debug_syscalls_ask_the_hardware() {
    let (mut st, root) = boot_with(64);
    st.set_register(root, CAP_REGISTER, 0x141);
    let r = handle_syscall(&mut st, 0, MessageInfo::new(0, 0, 0, 0), Syscall::SysDebugPutChar);
    assert_eq!(r, HalRequest::PutChar(0x41));
    assert_eq!(st.current_task, None);
    assert_eq!(st.scheduler.queue.front(), Some(&root));
    st.current_task = st.scheduler.dequeue();
    let r = handle_syscall(&mut st, 0, MessageInfo::new(0, 0, 0, 0), Syscall::SysDebugShutdown);
    assert_eq!(r, HalRequest::Shutdown);
}

#[test]
fn blocked_receiver_is_not_requeued() {
    let (mut st, root) = boot_with(64);
    let n_slot = alloc_object(&mut st, root, ObjectType::Notification);
    st.current_task = Some(root);
    st.set_task_state(root, ThreadState::Running);
    st.set_register(root, CAP_REGISTER, n_slot);
    handle_syscall(&mut st, n_slot, MessageInfo::new(0, 0, 0, 0), Syscall::SysRecv);
    assert_eq!(st.task_state(root), Some(ThreadState::BlockedOnReceive));
    assert!(st.scheduler.queue.is_empty());
    match &st.objects[root] {
        KObject::Thread(task) => assert!(!task.is_queued),
        _ => panic!("not a thread"),
    }
}
