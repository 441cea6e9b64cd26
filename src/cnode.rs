use vstd::prelude::*;

use crate::cap::Cap;
use crate::constants::{CAP_FIRST_FREE, MAX_CNODE_SIZE};

verus! {

/// A capability table of `MAX_CNODE_SIZE` slots; a slot is used iff it holds
/// a non-`Null` capability.
pub struct CapNode {
    pub slots: Vec<Cap>,
}

impl View for CapNode {
    type V = Seq<Cap>;

    open spec fn view(&self) -> Seq<Cap> {
        self.slots@
    }
}

/// Whether every slot in `[lo, hi)` is used.
pub open spec fn all_used(s: Seq<Cap>, lo: int, hi: int) -> bool {
    forall|j: int| lo <= j < hi ==> !(#[trigger] s[j] is Null)
}

/// The lowest free slot at or above `CAP_FIRST_FREE`, if any.
pub open spec fn first_free(s: Seq<Cap>) -> Option<usize> {
    if exists|k: int|
        CAP_FIRST_FREE <= k < MAX_CNODE_SIZE && s[k] is Null && all_used(s, CAP_FIRST_FREE as int, k)
    {
        Some(
            (choose|k: int|
                CAP_FIRST_FREE <= k < MAX_CNODE_SIZE && s[k] is Null && all_used(
                    s,
                    CAP_FIRST_FREE as int,
                    k,
                )) as usize,
        )
    } else {
        None
    }
}

/// A table with every slot empty.
pub open spec fn empty_table() -> Seq<Cap> {
    Seq::new(MAX_CNODE_SIZE as nat, |i: int| Cap::Null)
}

impl CapNode {
    pub open spec fn wf(&self) -> bool {
        self.slots.len() == MAX_CNODE_SIZE
    }

    pub fn new() -> (r: CapNode)
        ensures
            r.wf(),
            r@ == empty_table(),
    {
        let mut slots: Vec<Cap> = Vec::new();
        let mut i: usize = 0;
        while i < MAX_CNODE_SIZE
            invariant
                i <= MAX_CNODE_SIZE,
                slots@ == Seq::new(i as nat, |j: int| Cap::Null),
            decreases MAX_CNODE_SIZE - i,
        {
            slots.push(Cap::Null);
            i = i + 1;
        }
        CapNode { slots }
    }

    pub fn get(&self, i: usize) -> (r: Cap)
        requires
            self.wf(),
            i < MAX_CNODE_SIZE,
        ensures
            r == self@[i as int],
    {
        self.slots[i]
    }

    pub fn set(&mut self, i: usize, cap: Cap)
        requires
            old(self).wf(),
            i < MAX_CNODE_SIZE,
        ensures
            final(self).wf(),
            final(self)@ == old(self)@.update(i as int, cap),
    {
        self.slots.set(i, cap);
    }

    /// Whether slot `i` holds a capability.
    pub fn is_used(&self, i: usize) -> (r: bool)
        requires
            self.wf(),
            i < MAX_CNODE_SIZE,
        ensures
            r <==> !(self@[i as int] is Null),
    {
        match self.slots[i] {
            Cap::Null => false,
            _ => true,
        }
    }

    /// Whether no slot is used.
    pub fn empty(&self) -> (r: bool)
        requires
            self.wf(),
        ensures
            r <==> (forall|j: int| 0 <= j < MAX_CNODE_SIZE ==> (#[trigger] self@[j]) is Null),
    {
        let mut i: usize = 0;
        while i < MAX_CNODE_SIZE
            invariant
                self.wf(),
                i <= MAX_CNODE_SIZE,
                forall|j: int| 0 <= j < i ==> (#[trigger] self@[j]) is Null,
            decreases MAX_CNODE_SIZE - i,
        {
            if self.is_used(i) {
                return false;
            }
            i = i + 1;
        }
        true
    }

    /// The lowest unused slot at or above `CAP_FIRST_FREE`.
    pub fn alloc_free(&self) -> (r: Option<usize>)
        requires
            self.wf(),
        ensures
            r == first_free(self@),
            r is Some ==> CAP_FIRST_FREE <= r->0 < MAX_CNODE_SIZE && self@[r->0 as int] is Null
                && all_used(self@, CAP_FIRST_FREE as int, r->0 as int),
            r is None <==> all_used(self@, CAP_FIRST_FREE as int, MAX_CNODE_SIZE as int),
    {
        let mut i: usize = CAP_FIRST_FREE;
        while i < MAX_CNODE_SIZE
            invariant
                self.wf(),
                CAP_FIRST_FREE <= i <= MAX_CNODE_SIZE,
                all_used(self@, CAP_FIRST_FREE as int, i as int),
            decreases MAX_CNODE_SIZE - i,
        {
            if !self.is_used(i) {
                proof {
                    lemma_first_free_unique(self@, i as int);
                }
                return Some(i);
            }
            i = i + 1;
        }
        None
    }
}

/// The lowest free slot is in range and free.
pub proof fn lemma_first_free_null(s: Seq<Cap>)
    ensures
        first_free(s) is Some ==> CAP_FIRST_FREE <= first_free(s)->0 < MAX_CNODE_SIZE && s[first_free(s)->0 as int] is Null,
{
}

/// The lowest free slot is the only one below which all are used.
pub proof fn lemma_first_free_unique(s: Seq<Cap>, k: int)
    requires
        CAP_FIRST_FREE <= k < MAX_CNODE_SIZE,
        s[k] is Null,
        all_used(s, CAP_FIRST_FREE as int, k),
    ensures
        first_free(s) == Some(k as usize),
{
    let c = choose|c: int|
        CAP_FIRST_FREE <= c < MAX_CNODE_SIZE && s[c] is Null && all_used(s, CAP_FIRST_FREE as int, c);
    if c < k {
        assert(!(s[c] is Null));
    } else if c > k {
        assert(!(s[k] is Null));
    }
}

} // verus!
