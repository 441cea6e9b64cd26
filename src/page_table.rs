use vstd::prelude::*;

verus! {

/// One entry of a page table. `vpn` is the first virtual page number the
/// entry covers and `ppn` the physical frame number it refers to: the next
/// table when `is_table`, else the mapped frame.
#[derive(Clone, Copy, Debug, PartialEq, Eq, Structural)]
pub struct Pte {
    pub vpn: usize,
    pub ppn: usize,
    pub is_table: bool,
    pub execute: bool,
    pub write: bool,
    pub read: bool,
}

/// A page table, kept as the list of its valid entries. The top table of an
/// address space is at level 1; a level-`l` table's entries each cover
/// `level_span(l)` pages.
pub struct PageTable {
    pub entries: Vec<Pte>,
    /// Whether the kernel's high-half mappings are shared into this table.
    pub kernel_window: bool,
}

/// Pages covered by one entry of a level-`level` table.
pub open spec fn level_span(level: nat) -> nat {
    if level == 1 {
        0x40000
    } else if level == 2 {
        512
    } else {
        1
    }
}

/// The key under which a level-`level` table holds the entry for page `vpn`.
pub open spec fn entry_key(vpn: nat, level: nat) -> nat {
    (vpn - vpn % level_span(level)) as nat
}

/// Index of the first entry of `s` with key `key`.
pub open spec fn first_entry(s: Seq<Pte>, key: nat) -> Option<int> {
    if exists|i: int| 0 <= i < s.len() && s[i].vpn == key && no_key_before(s, key, i) {
        Some(choose|i: int| 0 <= i < s.len() && s[i].vpn == key && no_key_before(s, key, i))
    } else {
        None
    }
}

pub open spec fn no_key_before(s: Seq<Pte>, key: nat, i: int) -> bool {
    forall|j: int| 0 <= j < i ==> (#[trigger] s[j]).vpn != key
}

/// The first entry with a key is the only one with no match before it.
pub proof fn lemma_first_entry_unique(s: Seq<Pte>, key: nat, i: int)
    requires
        0 <= i < s.len(),
        s[i].vpn == key,
        no_key_before(s, key, i),
    ensures
        first_entry(s, key) == Some(i),
{
    let c = choose|c: int| 0 <= c < s.len() && s[c].vpn == key && no_key_before(s, key, c);
    if c < i {
        assert(s[c].vpn != key);
    } else if c > i {
        assert(s[i].vpn != key);
    }
}

/// Without a match no first entry exists.
pub proof fn lemma_first_entry_none(s: Seq<Pte>, key: nat)
    requires
        forall|j: int| 0 <= j < s.len() ==> (#[trigger] s[j]).vpn != key,
    ensures
        first_entry(s, key) is None,
{
}

impl PageTable {
    pub fn new() -> (r: PageTable)
        ensures
            r.entries@ == Seq::<Pte>::empty(),
            !r.kernel_window,
    {
        PageTable { entries: Vec::new(), kernel_window: false }
    }

    /// Index of the first entry with key `key`.
    pub fn find_entry(&self, key: usize) -> (r: Option<usize>)
        ensures
            r == (match first_entry(self.entries@, key as nat) {
                Some(i) => Some(i as usize),
                None => None,
            }),
            r is Some ==> r->0 < self.entries@.len() && first_entry(self.entries@, key as nat) == Some(r->0 as int),
            r is None ==> first_entry(self.entries@, key as nat) is None,
    {
        let mut i: usize = 0;
        while i < self.entries.len()
            invariant
                i <= self.entries@.len(),
                no_key_before(self.entries@, key as nat, i as int),
            decreases self.entries@.len() - i,
        {
            if self.entries[i].vpn == key {
                proof {
                    lemma_first_entry_unique(self.entries@, key as nat, i as int);
                }
                return Some(i);
            }
            i = i + 1;
        }
        proof {
            lemma_first_entry_none(self.entries@, key as nat);
        }
        None
    }
}

} // verus!
