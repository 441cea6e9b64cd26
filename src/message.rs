use vstd::prelude::*;

verus! {

/// The kinds of trap a user thread can raise.
#[derive(Clone, Copy, Debug, PartialEq, Eq, Structural)]
pub enum Syscall {
    Syscall,
    SysNBSend,
    SysRecv,
    SysDebugPutChar,
    SysDebugShutdown,
}

/// Operation requested by an invocation, in its wire order.
#[derive(Clone, Copy, Debug, PartialEq, Eq, Structural)]
pub enum InvocationLabel {
    AllocObject,
    CNodeAlloc,
    CNodeDelete,
    CNodeCopy,
    CNodeMint,
    CNodeMove,
    CNodeMutate,
    CNodeRotate,
    CNodeSaveCaller,
    PageTableMap,
    PageTableUnmap,
    PageMap,
    PageUnmap,
    TCBSuspend,
    TCBResume,
    TCBSetIPCBuffer,
    TCBSetSpace,
    TCBSetTLSBase,
    TCBReadRegisters,
    TCBWriteRegisters,
}

pub open spec fn invocation_label_of(v: nat) -> InvocationLabel
    recommends
        v < 20,
{
    if v == 0 {
        InvocationLabel::AllocObject
    } else if v == 1 {
        InvocationLabel::CNodeAlloc
    } else if v == 2 {
        InvocationLabel::CNodeDelete
    } else if v == 3 {
        InvocationLabel::CNodeCopy
    } else if v == 4 {
        InvocationLabel::CNodeMint
    } else if v == 5 {
        InvocationLabel::CNodeMove
    } else if v == 6 {
        InvocationLabel::CNodeMutate
    } else if v == 7 {
        InvocationLabel::CNodeRotate
    } else if v == 8 {
        InvocationLabel::CNodeSaveCaller
    } else if v == 9 {
        InvocationLabel::PageTableMap
    } else if v == 10 {
        InvocationLabel::PageTableUnmap
    } else if v == 11 {
        InvocationLabel::PageMap
    } else if v == 12 {
        InvocationLabel::PageUnmap
    } else if v == 13 {
        InvocationLabel::TCBSuspend
    } else if v == 14 {
        InvocationLabel::TCBResume
    } else if v == 15 {
        InvocationLabel::TCBSetIPCBuffer
    } else if v == 16 {
        InvocationLabel::TCBSetSpace
    } else if v == 17 {
        InvocationLabel::TCBSetTLSBase
    } else if v == 18 {
        InvocationLabel::TCBReadRegisters
    } else {
        InvocationLabel::TCBWriteRegisters
    }
}

/// Number of invocation labels.
pub const INVOCATION_LABEL_COUNT: usize = 20;

impl InvocationLabel {
    pub open spec fn value(self) -> nat {
        match self {
            InvocationLabel::AllocObject => 0,
            InvocationLabel::CNodeAlloc => 1,
            InvocationLabel::CNodeDelete => 2,
            InvocationLabel::CNodeCopy => 3,
            InvocationLabel::CNodeMint => 4,
            InvocationLabel::CNodeMove => 5,
            InvocationLabel::CNodeMutate => 6,
            InvocationLabel::CNodeRotate => 7,
            InvocationLabel::CNodeSaveCaller => 8,
            InvocationLabel::PageTableMap => 9,
            InvocationLabel::PageTableUnmap => 10,
            InvocationLabel::PageMap => 11,
            InvocationLabel::PageUnmap => 12,
            InvocationLabel::TCBSuspend => 13,
            InvocationLabel::TCBResume => 14,
            InvocationLabel::TCBSetIPCBuffer => 15,
            InvocationLabel::TCBSetSpace => 16,
            InvocationLabel::TCBSetTLSBase => 17,
            InvocationLabel::TCBReadRegisters => 18,
            InvocationLabel::TCBWriteRegisters => 19,
        }
    }

    /// The wire value of the label.
    pub fn as_usize(&self) -> (r: usize)
        ensures
            r == self.value(),
    {
        match self {
            InvocationLabel::AllocObject => 0,
            InvocationLabel::CNodeAlloc => 1,
            InvocationLabel::CNodeDelete => 2,
            InvocationLabel::CNodeCopy => 3,
            InvocationLabel::CNodeMint => 4,
            InvocationLabel::CNodeMove => 5,
            InvocationLabel::CNodeMutate => 6,
            InvocationLabel::CNodeRotate => 7,
            InvocationLabel::CNodeSaveCaller => 8,
            InvocationLabel::PageTableMap => 9,
            InvocationLabel::PageTableUnmap => 10,
            InvocationLabel::PageMap => 11,
            InvocationLabel::PageUnmap => 12,
            InvocationLabel::TCBSuspend => 13,
            InvocationLabel::TCBResume => 14,
            InvocationLabel::TCBSetIPCBuffer => 15,
            InvocationLabel::TCBSetSpace => 16,
            InvocationLabel::TCBSetTLSBase => 17,
            InvocationLabel::TCBReadRegisters => 18,
            InvocationLabel::TCBWriteRegisters => 19,
        }
    }

    /// Decodes a label value; `None` for a value outside the label set.
    pub fn from_usize(v: usize) -> (r: Option<InvocationLabel>)
        ensures
            r == (if v < INVOCATION_LABEL_COUNT {
                Some(invocation_label_of(v as nat))
            } else {
                None
            }),
    {
        match v {
            0 => Some(InvocationLabel::AllocObject),
            1 => Some(InvocationLabel::CNodeAlloc),
            2 => Some(InvocationLabel::CNodeDelete),
            3 => Some(InvocationLabel::CNodeCopy),
            4 => Some(InvocationLabel::CNodeMint),
            5 => Some(InvocationLabel::CNodeMove),
            6 => Some(InvocationLabel::CNodeMutate),
            7 => Some(InvocationLabel::CNodeRotate),
            8 => Some(InvocationLabel::CNodeSaveCaller),
            9 => Some(InvocationLabel::PageTableMap),
            10 => Some(InvocationLabel::PageTableUnmap),
            11 => Some(InvocationLabel::PageMap),
            12 => Some(InvocationLabel::PageUnmap),
            13 => Some(InvocationLabel::TCBSuspend),
            14 => Some(InvocationLabel::TCBResume),
            15 => Some(InvocationLabel::TCBSetIPCBuffer),
            16 => Some(InvocationLabel::TCBSetSpace),
            17 => Some(InvocationLabel::TCBSetTLSBase),
            18 => Some(InvocationLabel::TCBReadRegisters),
            19 => Some(InvocationLabel::TCBWriteRegisters),
            _ => None,
        }
    }
}

/// Outcome reported back to user space.
#[derive(Clone, Copy, Debug, PartialEq, Eq, Structural)]
pub enum ResponseLabel {
    Success,
    UnSupported,
    OutOfRange,
    NotEnoughSpace,
    ErrCapType,
    InvalidParam,
    NoIpcBuffer,
    NoMappingError,
    MappingAlreadyExists,
}

impl ResponseLabel {
    pub open spec fn value(self) -> nat {
        match self {
            ResponseLabel::Success => 0,
            ResponseLabel::UnSupported => 1,
            ResponseLabel::OutOfRange => 2,
            ResponseLabel::NotEnoughSpace => 3,
            ResponseLabel::ErrCapType => 4,
            ResponseLabel::InvalidParam => 5,
            ResponseLabel::NoIpcBuffer => 6,
            ResponseLabel::NoMappingError => 7,
            ResponseLabel::MappingAlreadyExists => 8,
        }
    }

    pub fn as_usize(&self) -> (r: usize)
        ensures
            r == self.value(),
    {
        match self {
            ResponseLabel::Success => 0,
            ResponseLabel::UnSupported => 1,
            ResponseLabel::OutOfRange => 2,
            ResponseLabel::NotEnoughSpace => 3,
            ResponseLabel::ErrCapType => 4,
            ResponseLabel::InvalidParam => 5,
            ResponseLabel::NoIpcBuffer => 6,
            ResponseLabel::NoMappingError => 7,
            ResponseLabel::MappingAlreadyExists => 8,
        }
    }
}

pub open spec fn object_type_of(v: nat) -> ObjectType {
    if v == 0 {
        ObjectType::CNode
    } else if v == 1 {
        ObjectType::Thread
    } else if v == 2 {
        ObjectType::PageTable
    } else if v == 3 {
        ObjectType::Frame4K
    } else if v == 4 {
        ObjectType::Frame2M
    } else {
        ObjectType::Notification
    }
}

/// The invocation label that a tag carries, if it is one.
pub open spec fn label_of(tag: usize) -> Option<InvocationLabel> {
    if (tag as nat) / 4096 < INVOCATION_LABEL_COUNT {
        Some(invocation_label_of((tag as nat) / 4096))
    } else {
        None
    }
}

/// An error response carrying `label`.
pub open spec fn err_response(label: ResponseLabel) -> Result<usize, MessageInfo> {
    Err(MessageInfo { word: response_word(label) })
}

/// An error response carrying `label`, for an invocation with no payload.
pub open spec fn err_unit(label: ResponseLabel) -> Result<(), MessageInfo> {
    Err(MessageInfo { word: response_word(label) })
}

/// Kinds of object that `CNodeAlloc` can create.
#[derive(Clone, Copy, Debug, PartialEq, Eq, Structural)]
pub enum ObjectType {
    CNode,
    Thread,
    PageTable,
    Frame4K,
    Frame2M,
    Notification,
}

impl ObjectType {
    pub open spec fn value(self) -> nat {
        match self {
            ObjectType::CNode => 0,
            ObjectType::Thread => 1,
            ObjectType::PageTable => 2,
            ObjectType::Frame4K => 3,
            ObjectType::Frame2M => 4,
            ObjectType::Notification => 5,
        }
    }

    /// The wire value of the object type.
    pub fn as_usize(&self) -> (r: usize)
        ensures
            r == self.value(),
    {
        match self {
            ObjectType::CNode => 0,
            ObjectType::Thread => 1,
            ObjectType::PageTable => 2,
            ObjectType::Frame4K => 3,
            ObjectType::Frame2M => 4,
            ObjectType::Notification => 5,
        }
    }

    /// Decodes an object type; `None` for a value outside the set.
    pub fn from_usize(v: usize) -> (r: Option<ObjectType>)
        ensures
            r == (if v < 6 {
                Some(object_type_of(v as nat))
            } else {
                None
            }),
            r is Some ==> r->0.value() == v,
    {
        match v {
            0 => Some(ObjectType::CNode),
            1 => Some(ObjectType::Thread),
            2 => Some(ObjectType::PageTable),
            3 => Some(ObjectType::Frame4K),
            4 => Some(ObjectType::Frame2M),
            5 => Some(ObjectType::Notification),
            _ => None,
        }
    }
}

/// Access rights of a frame mapping.
#[derive(Clone, Copy, Debug, PartialEq, Eq, Structural)]
pub struct VMRights {
    pub read: bool,
    pub write: bool,
    pub execute: bool,
}

impl VMRights {
    /// Reads rights bits (read = 1, write = 2, execute = 4); `None` when any
    /// other bit is set.
    pub fn from_bits(bits: usize) -> (r: Option<VMRights>)
        ensures
            r is Some <==> bits < 8,
            r is Some ==> r->0 == (VMRights {
                read: bits % 2 == 1,
                write: (bits / 2) % 2 == 1,
                execute: (bits / 4) % 2 == 1,
            }),
    {
        if bits >= 8 {
            None
        } else {
            Some(VMRights { read: bits % 2 == 1, write: (bits / 2) % 2 == 1, execute: (bits / 4) % 2 == 1 })
        }
    }
}

/// Bit layout of a message tag: length in bits 0..7, extra caps in 7..9,
/// unwrapped caps in 9..12 and the label in 12..64.
pub open spec fn tag_word(label: nat, caps_unwrapped: nat, extra_caps: nat, length: nat) -> nat {
    label * 4096 + caps_unwrapped * 512 + extra_caps * 128 + length
}

/// A packed message tag, used for invocations and for responses.
#[derive(Clone, Copy, Debug, PartialEq, Eq, Structural)]
pub struct MessageInfo {
    pub word: usize,
}

impl MessageInfo {
    pub open spec fn label(self) -> nat {
        self.word as nat / 4096
    }

    pub open spec fn length(self) -> nat {
        self.word as nat % 128
    }

    pub open spec fn extra_caps(self) -> nat {
        (self.word as nat / 128) % 4
    }

    pub open spec fn caps_unwrapped(self) -> nat {
        (self.word as nat / 512) % 8
    }

    pub fn new(label: usize, caps_unwrapped: usize, extra_caps: usize, length: usize) -> (r: MessageInfo)
        requires
            label * 4096 + 4095 <= usize::MAX,
            caps_unwrapped < 8,
            extra_caps < 4,
            length < 128,
        ensures
            r.word == tag_word(label as nat, caps_unwrapped as nat, extra_caps as nat, length as nat),
            r.label() == label,
            r.caps_unwrapped() == caps_unwrapped,
            r.extra_caps() == extra_caps,
            r.length() == length,
    {
        let word = label * 4096 + caps_unwrapped * 512 + extra_caps * 128 + length;
        proof {
            lemma_tag_fields(label as int, caps_unwrapped as int, extra_caps as int, length as int);
        }
        MessageInfo { word }
    }

    pub fn from_word(word: usize) -> (r: MessageInfo)
        ensures
            r.word == word,
    {
        MessageInfo { word }
    }

    /// A response tag carrying `label` and no payload.
    pub fn new_response(label: ResponseLabel) -> (r: MessageInfo)
        ensures
            r.word == label.value() * 4096,
            r.label() == label.value(),
            r.length() == 0,
    {
        MessageInfo::new(label.as_usize(), 0, 0, 0)
    }

    pub fn get_label(&self) -> (r: usize)
        ensures
            r == self.label(),
    {
        self.word / 4096
    }

    pub fn get_length(&self) -> (r: usize)
        ensures
            r == self.length(),
    {
        self.word % 128
    }

    pub fn get_extra_caps(&self) -> (r: usize)
        ensures
            r == self.extra_caps(),
    {
        (self.word / 128) % 4
    }

    pub fn get_caps_unwrapped(&self) -> (r: usize)
        ensures
            r == self.caps_unwrapped(),
    {
        (self.word / 512) % 8
    }
}

/// Each field of a tag word reads back as it was packed.
proof fn lemma_tag_fields(l: int, c: int, e: int, n: int)
    requires
        0 <= l,
        0 <= c < 8,
        0 <= e < 4,
        0 <= n < 128,
    ensures
        (l * 4096 + c * 512 + e * 128 + n) / 4096 == l,
        (l * 4096 + c * 512 + e * 128 + n) % 128 == n,
        ((l * 4096 + c * 512 + e * 128 + n) / 128) % 4 == e,
        ((l * 4096 + c * 512 + e * 128 + n) / 512) % 8 == c,
{
    let w = l * 4096 + c * 512 + e * 128 + n;
    let low = c * 512 + e * 128 + n;
    assert(0 <= low < 4096) by (nonlinear_arith)
        requires low == c * 512 + e * 128 + n, 0 <= c < 8, 0 <= e < 4, 0 <= n < 128;
    vstd::arithmetic::div_mod::lemma_fundamental_div_mod_converse(w, 4096, l, low);
    vstd::arithmetic::div_mod::lemma_fundamental_div_mod_converse(w, 128, l * 32 + c * 4 + e, n);
    vstd::arithmetic::div_mod::lemma_fundamental_div_mod_converse(w / 128, 4, l * 8 + c, e);
    vstd::arithmetic::div_mod::lemma_fundamental_div_mod_converse(w, 512, l * 8 + c, e * 128 + n);
    vstd::arithmetic::div_mod::lemma_fundamental_div_mod_converse(w / 512, 8, l, c);
}

/// The response tag for `label`, as it stands in the tag register.
pub open spec fn response_word(label: ResponseLabel) -> usize {
    (label.value() * 4096) as usize
}

} // verus!
