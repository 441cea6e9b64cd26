use vstd::prelude::*;

verus! {

/// Number of slots in every capability node.
pub const MAX_CNODE_SIZE: usize = 256;

/// Reserved slot indices of a capability node.
pub const CAP_NULL: usize = 0;
pub const CAP_INIT_VSPACE: usize = 1;
pub const CAP_INIT_TCB: usize = 2;
pub const CAP_INIT_CNODE: usize = 3;
/// Lowest slot that `alloc_free` hands out.
pub const CAP_FIRST_FREE: usize = 16;

pub const PAGE_SIZE_NORMAL: usize = 4096;
pub const PAGE_SIZE_2M: usize = 0x200000;
/// Machine words in a 4 KiB page.
pub const WORDS_PER_PAGE: usize = 512;

/// Size levels of frames: the page-table level whose entries map them.
pub const FRAME_LEVEL_4K: usize = 3;
pub const FRAME_LEVEL_2M: usize = 2;

pub const MAX_THREAD_PRIO: usize = 256;

/// General-purpose registers saved in a thread context.
pub const MAX_GENERAL_REGISTER_NUM: usize = 32;
/// Register holding the thread-local storage base.
pub const TLS_REGISTER: usize = 4;
/// Register holding the destination capability index of a syscall.
pub const CAP_REGISTER: usize = 10;
/// Register holding the message tag of a syscall.
pub const TAG_REGISTER: usize = 11;
/// Register holding message register 0; the others follow it.
pub const MR_BASE_REGISTER: usize = 12;
/// Number of message registers.
pub const MAX_MR: usize = 7;
/// Machine words in a saved user context: the registers and the next pc.
pub const USER_CONTEXT_WORDS: usize = 33;

} // verus!
