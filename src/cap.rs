use vstd::prelude::*;

verus! {

/// The tag of a capability.
#[derive(Clone, Copy, Debug, PartialEq, Eq, Structural)]
pub enum CapType {
    Null,
    CNode,
    Thread,
    PageTable,
    Frame,
    Notification,
}

/// A capability: a typed reference to a kernel object.
///
/// `base_ptr` is the frame number at which the object starts. A capability
/// marked `derived` is a copy made by `derive`: it never owns its object, so
/// deleting it releases nothing. A `CNode` capability designates the
/// capability table of the thread whose control block starts at `base_ptr`;
/// it never owns that table.
#[derive(Clone, Copy, Debug, PartialEq, Eq, Structural)]
pub enum Cap {
    Null,
    CNode { base_ptr: usize, radix: usize },
    Thread { base_ptr: usize, derived: bool },
    PageTable { base_ptr: usize, is_mapped: bool, mapped_addr: usize, level: usize, derived: bool },
    Frame { base_ptr: usize, size_level: usize, is_mapped: bool, mapped_addr: usize, derived: bool },
    Notification { base_ptr: usize, badge: usize, derived: bool },
}

impl Cap {
    pub open spec fn cap_type(self) -> CapType {
        match self {
            Cap::Null => CapType::Null,
            Cap::CNode { .. } => CapType::CNode,
            Cap::Thread { .. } => CapType::Thread,
            Cap::PageTable { .. } => CapType::PageTable,
            Cap::Frame { .. } => CapType::Frame,
            Cap::Notification { .. } => CapType::Notification,
        }
    }

    /// The frame number of the designated object; zero for `Null`.
    pub open spec fn base(self) -> usize {
        match self {
            Cap::Null => 0,
            Cap::CNode { base_ptr, .. } => base_ptr,
            Cap::Thread { base_ptr, .. } => base_ptr,
            Cap::PageTable { base_ptr, .. } => base_ptr,
            Cap::Frame { base_ptr, .. } => base_ptr,
            Cap::Notification { base_ptr, .. } => base_ptr,
        }
    }

    /// Whether deleting this capability releases its object.
    pub open spec fn is_owning(self) -> bool {
        match self {
            Cap::Thread { derived, .. } => !derived,
            Cap::PageTable { derived, .. } => !derived,
            Cap::Frame { derived, .. } => !derived,
            Cap::Notification { derived, .. } => !derived,
            _ => false,
        }
    }

    /// The capability that `derive` makes of this one.
    pub open spec fn derived_of(self) -> Cap {
        match self {
            Cap::Thread { base_ptr, .. } => Cap::Thread { base_ptr, derived: true },
            Cap::PageTable { base_ptr, mapped_addr, level, .. } => Cap::PageTable {
                base_ptr,
                is_mapped: false,
                mapped_addr,
                level,
                derived: true,
            },
            Cap::Frame { base_ptr, size_level, mapped_addr, .. } => Cap::Frame {
                base_ptr,
                size_level,
                is_mapped: false,
                mapped_addr,
                derived: true,
            },
            Cap::Notification { base_ptr, badge, .. } => Cap::Notification {
                base_ptr,
                badge,
                derived: true,
            },
            other => other,
        }
    }

    pub fn get_type(&self) -> (r: CapType)
        ensures
            r == self.cap_type(),
    {
        match self {
            Cap::Null => CapType::Null,
            Cap::CNode { .. } => CapType::CNode,
            Cap::Thread { .. } => CapType::Thread,
            Cap::PageTable { .. } => CapType::PageTable,
            Cap::Frame { .. } => CapType::Frame,
            Cap::Notification { .. } => CapType::Notification,
        }
    }

    pub fn base_ptr(&self) -> (r: usize)
        ensures
            r == self.base(),
    {
        match self {
            Cap::Null => 0,
            Cap::CNode { base_ptr, .. } => *base_ptr,
            Cap::Thread { base_ptr, .. } => *base_ptr,
            Cap::PageTable { base_ptr, .. } => *base_ptr,
            Cap::Frame { base_ptr, .. } => *base_ptr,
            Cap::Notification { base_ptr, .. } => *base_ptr,
        }
    }

    /// A non-owning copy with the mapping flag cleared; same type and object.
    pub fn derive(&self) -> (r: Cap)
        ensures
            r == self.derived_of(),
            r.cap_type() == self.cap_type(),
            r.base() == self.base(),
            !r.is_owning(),
    {
        match *self {
            Cap::Thread { base_ptr, .. } => Cap::Thread { base_ptr, derived: true },
            Cap::PageTable { base_ptr, mapped_addr, level, .. } => Cap::PageTable {
                base_ptr,
                is_mapped: false,
                mapped_addr,
                level,
                derived: true,
            },
            Cap::Frame { base_ptr, size_level, mapped_addr, .. } => Cap::Frame {
                base_ptr,
                size_level,
                is_mapped: false,
                mapped_addr,
                derived: true,
            },
            Cap::Notification { base_ptr, badge, .. } => Cap::Notification {
                base_ptr,
                badge,
                derived: true,
            },
            other => other,
        }
    }
}

} // verus!
