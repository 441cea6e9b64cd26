use vstd::prelude::*;

use crate::constants::{FRAME_LEVEL_2M, FRAME_LEVEL_4K, PAGE_SIZE_NORMAL};
use crate::kernel::{frame_bytes, KObject, KernelState};
use crate::message::ResponseLabel;
use crate::page_table::{entry_key, first_entry, lemma_first_entry_unique, level_span, no_key_before, Pte};

verus! {

/// Entries of the page table at frame `t`.
pub open spec fn entries_of(objs: Seq<KObject>, t: int) -> Seq<Pte> {
    objs[t]->PageTable_0.entries@
}

/// The table that the entry for page `vpn` in level-`level` table `t` leads to.
pub open spec fn child_table(objs: Seq<KObject>, t: int, vpn: nat, level: nat) -> Option<int> {
    let es = entries_of(objs, t);
    match first_entry(es, entry_key(vpn, level)) {
        Some(i) => {
            let p = es[i].ppn as int;
            if es[i].is_table && p < objs.len() && objs[p] is PageTable {
                Some(p)
            } else {
                None
            }
        },
        None => None,
    }
}

/// The level-`level` table on the path to page `vpn` in the address space
/// whose top table is at frame `root`.
pub open spec fn table_at(objs: Seq<KObject>, root: int, vpn: nat, level: nat) -> Option<int>
    decreases level,
{
    if level <= 1 {
        if 0 <= root < objs.len() && objs[root] is PageTable {
            Some(root)
        } else {
            None
        }
    } else {
        match table_at(objs, root, vpn, (level - 1) as nat) {
            Some(t) => child_table(objs, t, vpn, (level - 1) as nat),
            None => None,
        }
    }
}

/// The leaf entry mapping page `vpn`: its table and index.
pub open spec fn leaf_entry(objs: Seq<KObject>, root: int, vpn: nat) -> Option<(int, int)> {
    let t3 = table_at(objs, root, vpn, 3);
    let t2 = table_at(objs, root, vpn, 2);
    if t3 is Some && first_entry(entries_of(objs, t3->0), vpn) is Some && !entries_of(
        objs,
        t3->0,
    )[first_entry(entries_of(objs, t3->0), vpn)->0].is_table {
        Some((t3->0, first_entry(entries_of(objs, t3->0), vpn)->0))
    } else if t2 is Some && first_entry(entries_of(objs, t2->0), vpn) is Some && !entries_of(
        objs,
        t2->0,
    )[first_entry(entries_of(objs, t2->0), vpn)->0].is_table {
        Some((t2->0, first_entry(entries_of(objs, t2->0), vpn)->0))
    } else {
        None
    }
}

/// The physical frame that page `vpn` maps to.
pub open spec fn page_frame(objs: Seq<KObject>, root: int, vpn: nat) -> Option<nat> {
    let t3 = table_at(objs, root, vpn, 3);
    let t2 = table_at(objs, root, vpn, 2);
    let k2 = entry_key(vpn, 2);
    if t3 is Some && first_entry(entries_of(objs, t3->0), vpn) is Some && !entries_of(
        objs,
        t3->0,
    )[first_entry(entries_of(objs, t3->0), vpn)->0].is_table {
        Some(entries_of(objs, t3->0)[first_entry(entries_of(objs, t3->0), vpn)->0].ppn as nat)
    } else if t2 is Some && first_entry(entries_of(objs, t2->0), k2) is Some && !entries_of(
        objs,
        t2->0,
    )[first_entry(entries_of(objs, t2->0), k2)->0].is_table {
        let base = entries_of(objs, t2->0)[first_entry(entries_of(objs, t2->0), k2)->0].ppn as nat;
        if base + (vpn - k2) <= usize::MAX {
            Some((base + (vpn - k2)) as nat)
        } else {
            None
        }
    } else {
        None
    }
}

/// What `map_page_table` answers, and the level it installs at.
pub open spec fn map_table_result(objs: Seq<KObject>, root: int, vpn: nat) -> Result<usize, ResponseLabel> {
    match table_at(objs, root, vpn, 2) {
        None => if first_entry(entries_of(objs, root), entry_key(vpn, 1)) is None {
            Ok(2)
        } else {
            Err(ResponseLabel::MappingAlreadyExists)
        },
        Some(t) => if first_entry(entries_of(objs, t), entry_key(vpn, 2)) is None {
            Ok(3)
        } else {
            Err(ResponseLabel::MappingAlreadyExists)
        },
    }
}

/// What `map_frame` answers.
pub open spec fn map_frame_result(
    objs: Seq<KObject>,
    root: int,
    vaddr: usize,
    ppn: usize,
    level: usize,
) -> Result<(), ResponseLabel> {
    let vpn = (vaddr / PAGE_SIZE_NORMAL) as nat;
    if level != FRAME_LEVEL_4K && level != FRAME_LEVEL_2M {
        Err(ResponseLabel::InvalidParam)
    } else if (vaddr as int) % (frame_bytes(level) as int) != 0 || (ppn as int) % (level_span(level as nat) as int) != 0 {
        Err(ResponseLabel::InvalidParam)
    } else if table_at(objs, root, vpn, level as nat) is None {
        Err(ResponseLabel::NoMappingError)
    } else if first_entry(entries_of(objs, table_at(objs, root, vpn, level as nat)->0), vpn) is Some {
        Err(ResponseLabel::MappingAlreadyExists)
    } else {
        Ok(())
    }
}

/// `new` differs from `old` only in the entries of page table `t`, which are `es`.
pub open spec fn only_entries_changed(old: KernelState, new: KernelState, t: int, es: Seq<Pte>) -> bool {
    &&& new.objects@.len() == old.objects@.len()
    &&& new.objects@[t] is PageTable
    &&& new.objects@[t]->PageTable_0.entries@ == es
    &&& new.objects@[t]->PageTable_0.kernel_window == old.objects@[t]->PageTable_0.kernel_window
    &&& forall|j: int| 0 <= j < old.objects@.len() && j != t ==> new.objects@[j] == old.objects@[j]
    &&& new.heap@ == old.heap@
    &&& new.scheduler@ == old.scheduler@
    &&& new.current_task == old.current_task
}

impl KernelState {
    fn child_of(&self, t: usize, vpn: usize, level: usize) -> (r: Option<usize>)
        requires
            self.is_page_table(t as int),
        ensures
            r == (match child_table(self.objects@, t as int, vpn as nat, level as nat) {
                Some(p) => Some(p as usize),
                None => None,
            }),
    {
        let key = Self::key_for(vpn, level);
        match &self.objects[t] {
            KObject::PageTable(pt) => {
                match pt.find_entry(key) {
                    Some(i) => {
                        let e = pt.entries[i];
                        if e.is_table && self.is_page_table_at(e.ppn) {
                            Some(e.ppn)
                        } else {
                            None
                        }
                    },
                    None => None,
                }
            },
            _ => None,
        }
    }

    pub fn is_page_table_at(&self, t: usize) -> (r: bool)
        ensures
            r == self.is_page_table(t as int),
    {
        t < self.objects.len() && match &self.objects[t] {
            KObject::PageTable(_) => true,
            _ => false,
        }
    }

    pub fn is_notification_at(&self, t: usize) -> (r: bool)
        ensures
            r == self.is_notification(t as int),
    {
        t < self.objects.len() && match &self.objects[t] {
            KObject::Notification(_) => true,
            _ => false,
        }
    }

    /// The key of the entry for page `vpn` in a level-`level` table.
    pub fn key_for(vpn: usize, level: usize) -> (r: usize)
        ensures
            r as nat == entry_key(vpn as nat, level as nat),
            r <= vpn,
    {
        let m = Self::span(level);
        proof {
            vstd::arithmetic::div_mod::lemma_mod_decreases(vpn as nat, m as nat);
        }
        vpn - vpn % m
    }

    /// Pages covered by one entry of a level-`level` table.
    pub fn span(level: usize) -> (r: usize)
        ensures
            r == level_span(level as nat),
            r >= 1,
    {
        if level == 1 {
            0x40000
        } else if level == 2 {
            512
        } else {
            1
        }
    }

    /// The level-`level` table on the path to page `vpn` under `root`.
    pub fn lookup_table(&self, root: usize, vpn: usize, level: usize) -> (r: Option<usize>)
        requires
            1 <= level <= 3,
        ensures
            r == (match table_at(self.objects@, root as int, vpn as nat, level as nat) {
                Some(p) => Some(p as usize),
                None => None,
            }),
            r is Some ==> self.is_page_table(r->0 as int),
    {
        if !self.is_page_table_at(root) {
            proof {
                lemma_table_at_none(self.objects@, root as int, vpn as nat, level as nat);
            }
            return None;
        }
        let mut cur: usize = root;
        let mut l: usize = 1;
        while l < level
            invariant
                1 <= l <= level <= 3,
                table_at(self.objects@, root as int, vpn as nat, l as nat) == Some(cur as int),
                self.is_page_table(cur as int),
            decreases level - l,
        {
            match self.child_of(cur, vpn, l) {
                Some(c) => {
                    cur = c;
                    l = l + 1;
                },
                None => {
                    proof {
                        assert(table_at(self.objects@, root as int, vpn as nat, (l + 1) as nat) is None);
                        lemma_table_at_none(self.objects@, root as int, vpn as nat, level as nat);
                    }
                    return None;
                },
            }
        }
        Some(cur)
    }

    fn push_entry(&mut self, t: usize, e: Pte)
        requires
            old(self).wf(),
            old(self).is_page_table(t as int),
        ensures
            final(self).wf(),
            only_entries_changed(*old(self), *final(self), t as int, entries_of(old(self).objects@, t as int).push(e)),
    {
        let ghost g = self.objects@;
        match &mut self.objects[t] {
            KObject::PageTable(pt) => {
                pt.entries.push(e);
            },
            _ => {},
        }
        assert(forall|i: int| 0 <= i < self.objects@.len() && i != t ==> self.objects@[i] == g[i]);
        proof {
            assert(self.objects@ == g.update(t as int, self.objects@[t as int]));
            crate::kernel::lemma_update_in_place(g, self.heap@, t as int, self.objects@[t as int]);
        }
    }

    fn remove_entry(&mut self, t: usize, i: usize)
        requires
            old(self).wf(),
            old(self).is_page_table(t as int),
            i < entries_of(old(self).objects@, t as int).len(),
        ensures
            final(self).wf(),
            only_entries_changed(*old(self), *final(self), t as int, entries_of(old(self).objects@, t as int).remove(i as int)),
    {
        let ghost g = self.objects@;
        match &mut self.objects[t] {
            KObject::PageTable(pt) => {
                pt.entries.remove(i);
            },
            _ => {},
        }
        assert(forall|j: int| 0 <= j < self.objects@.len() && j != t ==> self.objects@[j] == g[j]);
        proof {
            assert(self.objects@ == g.update(t as int, self.objects@[t as int]));
            crate::kernel::lemma_update_in_place(g, self.heap@, t as int, self.objects@[t as int]);
        }
    }
}

/// The entry through which the table at frame `ppn` is installed at level
/// `level` on the path to page `vpn`: its parent table and index.
pub open spec fn table_entry(objs: Seq<KObject>, root: int, vpn: nat, ppn: usize, level: nat) -> Option<(int, int)> {
    let parent = table_at(objs, root, vpn, (level - 1) as nat);
    if parent is Some && first_entry(entries_of(objs, parent->0), entry_key(vpn, (level - 1) as nat)) is Some {
        let i = first_entry(entries_of(objs, parent->0), entry_key(vpn, (level - 1) as nat))->0;
        let e = entries_of(objs, parent->0)[i];
        if e.is_table && e.ppn == ppn {
            Some((parent->0, i))
        } else {
            None
        }
    } else {
        None
    }
}

impl KernelState {
    /// Installs the page table at frame `ppn` one level below the deepest
    /// table on the path to `vaddr`; returns the level it now serves at.
    pub fn map_page_table(&mut self, root: usize, vaddr: usize, ppn: usize) -> (r: Result<usize, ResponseLabel>)
        requires
            old(self).wf(),
            old(self).is_page_table(root as int),
        ensures
            final(self).wf(),
            r == map_table_result(old(self).objects@, root as int, (vaddr / PAGE_SIZE_NORMAL) as nat),
            r == Ok::<usize, ResponseLabel>(2) ==> only_entries_changed(
                *old(self),
                *final(self),
                root as int,
                entries_of(old(self).objects@, root as int).push(
                    Pte {
                        vpn: entry_key((vaddr / PAGE_SIZE_NORMAL) as nat, 1) as usize,
                        ppn,
                        is_table: true,
                        execute: false,
                        write: false,
                        read: false,
                    },
                ),
            ),
            r == Ok::<usize, ResponseLabel>(3) ==> {
                let t = table_at(old(self).objects@, root as int, (vaddr / PAGE_SIZE_NORMAL) as nat, 2)->0;
                only_entries_changed(
                    *old(self),
                    *final(self),
                    t,
                    entries_of(old(self).objects@, t).push(
                        Pte {
                            vpn: entry_key((vaddr / PAGE_SIZE_NORMAL) as nat, 2) as usize,
                            ppn,
                            is_table: true,
                            execute: false,
                            write: false,
                            read: false,
                        },
                    ),
                )
            },
            r is Err ==> *final(self) == *old(self),
    {
        let vpn = vaddr / PAGE_SIZE_NORMAL;
        match self.lookup_table(root, vpn, 2) {
            None => {
                let key = Self::key_for(vpn, 1);
                let found = match &self.objects[root] {
                    KObject::PageTable(pt) => pt.find_entry(key),
                    _ => None,
                };
                if found.is_some() {
                    return Err(ResponseLabel::MappingAlreadyExists);
                }
                self.push_entry(
                    root,
                    Pte { vpn: key, ppn, is_table: true, execute: false, write: false, read: false },
                );
                Ok(2)
            },
            Some(t) => {
                let key = Self::key_for(vpn, 2);
                let found = match &self.objects[t] {
                    KObject::PageTable(pt) => pt.find_entry(key),
                    _ => None,
                };
                if found.is_some() {
                    return Err(ResponseLabel::MappingAlreadyExists);
                }
                self.push_entry(
                    t,
                    Pte { vpn: key, ppn, is_table: true, execute: false, write: false, read: false },
                );
                Ok(3)
            },
        }
    }

    /// Removes the entry through which the table at frame `ppn` serves at
    /// `level` on the path to page `vpn`.
    pub fn unmap_page_table(&mut self, root: usize, vpn: usize, ppn: usize, level: usize) -> (r: Result<(), ResponseLabel>)
        requires
            old(self).wf(),
        ensures
            final(self).wf(),
            level != 2 && level != 3 ==> r == Err::<(), ResponseLabel>(ResponseLabel::InvalidParam),
            (level == 2 || level == 3) ==> (r is Ok <==> table_entry(
                old(self).objects@,
                root as int,
                vpn as nat,
                ppn,
                level as nat,
            ) is Some),
            r is Ok ==> {
                let (t, i) = table_entry(
                    old(self).objects@,
                    root as int,
                    vpn as nat,
                    ppn,
                    level as nat,
                )->0;
                only_entries_changed(*old(self), *final(self), t, entries_of(old(self).objects@, t).remove(i))
            },
            (level == 2 || level == 3) && r is Err ==> r == Err::<(), ResponseLabel>(
                ResponseLabel::NoMappingError,
            ),
            r is Err ==> *final(self) == *old(self),
    {
        if level != 2 && level != 3 {
            return Err(ResponseLabel::InvalidParam);
        }
        match self.lookup_table(root, vpn, level - 1) {
            None => Err(ResponseLabel::NoMappingError),
            Some(t) => {
                let key = Self::key_for(vpn, level - 1);
                let found = match &self.objects[t] {
                    KObject::PageTable(pt) => match pt.find_entry(key) {
                        Some(i) => {
                            let e = pt.entries[i];
                            if e.is_table && e.ppn == ppn {
                                Some(i)
                            } else {
                                None
                            }
                        },
                        None => None,
                    },
                    _ => None,
                };
                match found {
                    Some(i) => {
                        self.remove_entry(t, i);
                        Ok(())
                    },
                    None => Err(ResponseLabel::NoMappingError),
                }
            },
        }
    }

    /// Maps the frame at `ppn` of size level `level` at `vaddr`.
    pub fn map_frame(
        &mut self,
        root: usize,
        vaddr: usize,
        ppn: usize,
        level: usize,
        execute: bool,
        write: bool,
        read: bool,
    ) -> (r: Result<(), ResponseLabel>)
        requires
            old(self).wf(),
        ensures
            final(self).wf(),
            r == map_frame_result(old(self).objects@, root as int, vaddr, ppn, level),
            r is Ok ==> {
                let t = table_at(old(self).objects@, root as int, (vaddr / PAGE_SIZE_NORMAL) as nat, level as nat)->0;
                only_entries_changed(
                    *old(self),
                    *final(self),
                    t,
                    entries_of(old(self).objects@, t).push(
                        Pte { vpn: vaddr / PAGE_SIZE_NORMAL, ppn, is_table: false, execute, write, read },
                    ),
                )
            },
            r is Err ==> *final(self) == *old(self),
    {
        if level != FRAME_LEVEL_4K && level != FRAME_LEVEL_2M {
            return Err(ResponseLabel::InvalidParam);
        }
        let bytes: usize = if level == FRAME_LEVEL_2M {
            crate::constants::PAGE_SIZE_2M
        } else {
            PAGE_SIZE_NORMAL
        };
        if vaddr % bytes != 0 || ppn % Self::span(level) != 0 {
            return Err(ResponseLabel::InvalidParam);
        }
        let vpn = vaddr / PAGE_SIZE_NORMAL;
        match self.lookup_table(root, vpn, level) {
            None => Err(ResponseLabel::NoMappingError),
            Some(t) => {
                let found = match &self.objects[t] {
                    KObject::PageTable(pt) => pt.find_entry(vpn),
                    _ => None,
                };
                if found.is_some() {
                    return Err(ResponseLabel::MappingAlreadyExists);
                }
                self.push_entry(t, Pte { vpn, ppn, is_table: false, execute, write, read });
                Ok(())
            },
        }
    }

    fn leaf_in(&self, t: usize, vpn: usize) -> (r: Option<usize>)
        requires
            self.is_page_table(t as int),
        ensures
            r is Some <==> (first_entry(entries_of(self.objects@, t as int), vpn as nat) is Some
                && !entries_of(self.objects@, t as int)[first_entry(entries_of(self.objects@, t as int), vpn as nat)->0].is_table),
            r is Some ==> r->0 as int == first_entry(entries_of(self.objects@, t as int), vpn as nat)->0,
    {
        match &self.objects[t] {
            KObject::PageTable(pt) => match pt.find_entry(vpn) {
                Some(i) => if pt.entries[i].is_table {
                    None
                } else {
                    Some(i)
                },
                None => None,
            },
            _ => None,
        }
    }

    /// Removes the frame mapping whose first page is `vpn`.
    pub fn unmap_frame(&mut self, root: usize, vpn: usize) -> (r: Result<(), ResponseLabel>)
        requires
            old(self).wf(),
        ensures
            final(self).wf(),
            r is Ok <==> leaf_entry(old(self).objects@, root as int, vpn as nat) is Some,
            r is Ok ==> {
                let (t, i) = leaf_entry(old(self).objects@, root as int, vpn as nat)->0;
                only_entries_changed(*old(self), *final(self), t, entries_of(old(self).objects@, t).remove(i))
            },
            r is Err ==> r == Err::<(), ResponseLabel>(ResponseLabel::NoMappingError) && *final(self) == *old(self),
    {
        if let Some(t3) = self.lookup_table(root, vpn, 3) {
            if let Some(i) = self.leaf_in(t3, vpn) {
                self.remove_entry(t3, i);
                return Ok(());
            }
        }
        if let Some(t2) = self.lookup_table(root, vpn, 2) {
            if let Some(i) = self.leaf_in(t2, vpn) {
                self.remove_entry(t2, i);
                return Ok(());
            }
        }
        Err(ResponseLabel::NoMappingError)
    }

    /// The physical frame that the page at `vaddr` maps to.
    pub fn va_to_frame(&self, root: usize, vaddr: usize) -> (r: Option<usize>)
        ensures
            r == (match page_frame(self.objects@, root as int, (vaddr / PAGE_SIZE_NORMAL) as nat) {
                Some(f) => Some(f as usize),
                None => None,
            }),
    {
        let vpn = vaddr / PAGE_SIZE_NORMAL;
        if let Some(t3) = self.lookup_table(root, vpn, 3) {
            if let Some(i) = self.leaf_in(t3, vpn) {
                return match &self.objects[t3] {
                    KObject::PageTable(pt) => Some(pt.entries[i].ppn),
                    _ => None,
                };
            }
        }
        if let Some(t2) = self.lookup_table(root, vpn, 2) {
            let k2 = Self::key_for(vpn, 2);
            if let Some(i) = self.leaf_in(t2, k2) {
                let base = match &self.objects[t2] {
                    KObject::PageTable(pt) => pt.entries[i].ppn,
                    _ => 0,
                };
                return base.checked_add(vpn - k2);
            }
        }
        None
    }

    /// Shares the kernel's high-half mappings into the table at `root`.
    pub fn map_kernel_window(&mut self, root: usize)
        requires
            old(self).wf(),
            old(self).is_page_table(root as int),
        ensures
            final(self).wf(),
            final(self).objects@.len() == old(self).objects@.len(),
            final(self).objects@[root as int] is PageTable,
            final(self).objects@[root as int]->PageTable_0.kernel_window,
            entries_of(final(self).objects@, root as int) == entries_of(old(self).objects@, root as int),
            forall|j: int| 0 <= j < old(self).objects@.len() && j != root ==> final(self).objects@[j] == old(self).objects@[j],
            final(self).heap@ == old(self).heap@,
            final(self).scheduler@ == old(self).scheduler@,
            final(self).current_task == old(self).current_task,
    {
        let ghost g = self.objects@;
        match &mut self.objects[root] {
            KObject::PageTable(pt) => {
                pt.kernel_window = true;
            },
            _ => {},
        }
        assert(forall|j: int| 0 <= j < self.objects@.len() && j != root ==> self.objects@[j] == g[j]);
        proof {
            assert(self.objects@ == g.update(root as int, self.objects@[root as int]));
            crate::kernel::lemma_update_in_place(g, self.heap@, root as int, self.objects@[root as int]);
        }
    }
}

/// A path that is missing at one level is missing below it too.
pub proof fn lemma_table_at_none(objs: Seq<KObject>, root: int, vpn: nat, level: nat)
    ensures
        !(0 <= root < objs.len() && objs[root] is PageTable) ==> table_at(objs, root, vpn, level) is None,
        forall|l: nat| 1 <= l <= level && #[trigger] table_at(objs, root, vpn, l) is None ==> table_at(objs, root, vpn, level) is None,
    decreases level,
{
    if level > 1 {
        lemma_table_at_none(objs, root, vpn, (level - 1) as nat);
    }
}

} // verus!

verus! {

/// Appending an entry leaves the first entry of a key that already had one.
pub proof fn lemma_first_entry_push_kept(es: Seq<Pte>, e: Pte, key: nat)
    requires
        first_entry(es, key) is Some,
    ensures
        first_entry(es.push(e), key) == first_entry(es, key),
{
    let i = first_entry(es, key)->0;
    assert(es.push(e)[i] == es[i]);
    assert forall|j: int| 0 <= j < i implies (#[trigger] es.push(e)[j]).vpn != key by {
        assert(es.push(e)[j] == es[j]);
    }
    lemma_first_entry_unique(es.push(e), key, i);
}

/// An appended entry with a new key is the first entry of that key.
pub proof fn lemma_first_entry_push_new(es: Seq<Pte>, e: Pte)
    requires
        first_entry(es, e.vpn as nat) is None,
    ensures
        first_entry(es.push(e), e.vpn as nat) == Some(es.len() as int),
{
    assert forall|j: int| 0 <= j < es.len() implies (#[trigger] es.push(e)[j]).vpn != e.vpn as nat by {
        assert(es.push(e)[j] == es[j]);
        if es[j].vpn == e.vpn as nat {
            if !no_key_before(es, e.vpn as nat, j) {
                let k = choose|k: int| 0 <= k < j && es[k].vpn == e.vpn as nat;
                lemma_no_earlier_first(es, e.vpn as nat, k);
            } else {
                lemma_first_entry_unique(es, e.vpn as nat, j);
            }
        }
    }
    lemma_first_entry_unique(es.push(e), e.vpn as nat, es.len() as int);
}

/// A key present somewhere has a first entry.
proof fn lemma_no_earlier_first(es: Seq<Pte>, key: nat, k: int)
    requires
        0 <= k < es.len(),
        es[k].vpn == key,
    ensures
        first_entry(es, key) is Some,
    decreases k,
{
    if no_key_before(es, key, k) {
        lemma_first_entry_unique(es, key, k);
    } else {
        let j = choose|j: int| 0 <= j < k && (#[trigger] es[j]).vpn == key;
        lemma_no_earlier_first(es, key, j);
    }
}

/// `new` is `old` with entry `e` appended to page table `t`; other page
/// tables are as they were, and no object became or stopped being one.
pub open spec fn entry_pushed(old: Seq<KObject>, new: Seq<KObject>, t: int, e: Pte) -> bool {
    &&& new.len() == old.len()
    &&& 0 <= t < old.len()
    &&& new[t] is PageTable
    &&& entries_of(new, t) == entries_of(old, t).push(e)
    &&& forall|j: int| 0 <= j < old.len() && j != t && old[j] is PageTable ==> new[j] == old[j]
    &&& forall|j: int| 0 <= j < old.len() ==> (new[j] is PageTable <==> old[j] is PageTable)
}

/// Appending an entry to a table on the path to page `vpn` leaves the path
/// to that page as it was, down to the deepest level it reached.
pub proof fn lemma_table_at_after_push(old: KernelState, new: KernelState, t: int, e: Pte, root: int, vpn: nat, level: nat, l: nat)
    requires
        old.is_page_table(t),
        entry_pushed(old.objects@, new.objects@, t, e),
        table_at(old.objects@, root, vpn, level) is Some,
        1 <= l <= level,
    ensures
        table_at(new.objects@, root, vpn, l) == table_at(old.objects@, root, vpn, l),
    decreases l,
{
    lemma_table_at_none(old.objects@, root, vpn, level);
    assert(table_at(old.objects@, root, vpn, l) is Some);
    if l > 1 {
        lemma_table_at_after_push(old, new, t, e, root, vpn, level, (l - 1) as nat);
        let u = table_at(old.objects@, root, vpn, (l - 1) as nat)->0;
        let key = entry_key(vpn, (l - 1) as nat);
        assert(first_entry(entries_of(old.objects@, u), key) is Some);
        if u == t {
            lemma_first_entry_push_kept(entries_of(old.objects@, t), e, key);
        }
        let i = first_entry(entries_of(old.objects@, u), key)->0;
        assert(entries_of(new.objects@, u)[i] == entries_of(old.objects@, u)[i]);
        let p = entries_of(old.objects@, u)[i].ppn as int;
        assert(new.objects@[p] is PageTable == old.objects@[p] is PageTable);
    }
}

/// A frame mapping just made is the leaf entry of its first page, and the
/// last entry of the table that holds it.
pub proof fn lemma_leaf_after_map(old: KernelState, new: KernelState, root: int, vaddr: usize, ppn: usize, level: usize, e: Pte)
    requires
        map_frame_result(old.objects@, root, vaddr, ppn, level) is Ok,
        e.vpn == vaddr / PAGE_SIZE_NORMAL,
        !e.is_table,
        entry_pushed(
            old.objects@,
            new.objects@,
            table_at(old.objects@, root, (vaddr / PAGE_SIZE_NORMAL) as nat, level as nat)->0,
            e,
        ),
    ensures
        ({
            let t = table_at(old.objects@, root, (vaddr / PAGE_SIZE_NORMAL) as nat, level as nat)->0;
            leaf_entry(new.objects@, root, (vaddr / PAGE_SIZE_NORMAL) as nat) == Some((t, entries_of(old.objects@, t).len() as int))
        }),
{
    let vpn = (vaddr / PAGE_SIZE_NORMAL) as nat;
    let t = table_at(old.objects@, root, vpn, level as nat)->0;
    let es = entries_of(old.objects@, t);
    assert(old.is_page_table(t)) by {
        lemma_table_at_live(old.objects@, root, vpn, level as nat);
    }
    lemma_first_entry_push_new(es, e);
    lemma_table_at_after_push(old, new, t, e, root, vpn, level as nat, level as nat);
    lemma_table_at_after_push(old, new, t, e, root, vpn, level as nat, 2);
    if level == FRAME_LEVEL_2M {
        assert(vpn % 512 == 0) by {
            assert((vaddr as int) % 0x200000 == 0);
            assert(vpn == vaddr as int / 4096);
            assert((vaddr as int / 4096) % 512 == 0) by (nonlinear_arith)
                requires (vaddr as int) % 0x200000 == 0, vaddr >= 0;
        }
        assert(entry_key(vpn, 2) == vpn);
        assert(child_table(new.objects@, t, vpn, 2) is None);
    }
}

/// A table on a path is a live page table.
pub proof fn lemma_table_at_live(objs: Seq<KObject>, root: int, vpn: nat, level: nat)
    ensures
        table_at(objs, root, vpn, level) is Some ==> 0 <= table_at(objs, root, vpn, level)->0 < objs.len()
            && objs[table_at(objs, root, vpn, level)->0] is PageTable,
    decreases level,
{
    if level > 1 {
        lemma_table_at_live(objs, root, vpn, (level - 1) as nat);
    }
}

} // verus!
