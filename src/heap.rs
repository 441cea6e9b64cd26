use vstd::prelude::*;

use crate::constants::PAGE_SIZE_NORMAL;

verus! {

/// Frames needed to hold `size` bytes; a block takes at least one frame.
pub open spec fn pages_for(size: nat) -> nat {
    if size == 0 {
        1
    } else if size % 4096 == 0 {
        size / 4096
    } else {
        size / 4096 + 1
    }
}

/// Whether frames `[p, p + n)` exist and are all unused.
pub open spec fn block_free(used: Seq<bool>, p: int, n: int) -> bool {
    0 <= p && p + n <= used.len() && forall|q: int| p <= q < p + n ==> !(#[trigger] used[q])
}

/// `used` with frames `[p, p + n)` set to `v`.
pub open spec fn mark(used: Seq<bool>, p: int, n: int, v: bool) -> Seq<bool> {
    Seq::new(used.len(), |q: int| if p <= q < p + n { v } else { used[q] })
}

/// Physical memory as a bitmap of 4 KiB frames; an allocation is a run of
/// frames whose first frame number is a multiple of the alignment in frames.
pub struct Heap {
    pub used: Vec<bool>,
}

impl View for Heap {
    type V = Seq<bool>;

    open spec fn view(&self) -> Seq<bool> {
        self.used@
    }
}

impl Heap {
    /// A heap of `frames` unused frames.
    pub fn new(frames: usize) -> (r: Heap)
        ensures
            r@ == Seq::new(frames as nat, |q: int| false),
    {
        let mut used: Vec<bool> = Vec::new();
        let mut i: usize = 0;
        while i < frames
            invariant
                i <= frames,
                used@ == Seq::new(i as nat, |q: int| false),
            decreases frames - i,
        {
            used.push(false);
            i = i + 1;
        }
        Heap { used }
    }

    pub fn len(&self) -> (r: usize)
        ensures
            r == self@.len(),
    {
        self.used.len()
    }

    /// Number of frames that `size` bytes occupy.
    pub fn pages(size: usize) -> (r: usize)
        ensures
            r == pages_for(size as nat),
    {
        if size == 0 {
            1
        } else if size % PAGE_SIZE_NORMAL == 0 {
            size / PAGE_SIZE_NORMAL
        } else {
            size / PAGE_SIZE_NORMAL + 1
        }
    }

    fn run_is_free(&self, p: usize, n: usize) -> (r: bool)
        requires
            p + n <= self.used.len(),
        ensures
            r == block_free(self@, p as int, n as int),
    {
        let mut q: usize = p;
        while q < p + n
            invariant
                p <= q <= p + n,
                p + n <= self.used.len(),
                forall|k: int| p <= k < q ==> !(#[trigger] self@[k]),
            decreases p + n - q,
        {
            if self.used[q] {
                return false;
            }
            q = q + 1;
        }
        true
    }

    fn set_run(&mut self, p: usize, n: usize, v: bool)
        requires
            p + n <= old(self).used.len(),
        ensures
            final(self)@ == mark(old(self)@, p as int, n as int, v),
    {
        let mut q: usize = p;
        while q < p + n
            invariant
                p <= q <= p + n,
                p + n <= old(self).used.len(),
                self@.len() == old(self)@.len(),
                forall|k: int|
                    0 <= k < self@.len() ==> #[trigger] self@[k] == (if p <= k < q {
                        v
                    } else {
                        old(self)@[k]
                    }),
            decreases p + n - q,
        {
            self.used.set(q, v);
            q = q + 1;
        }
        assert(self@ =~= mark(old(self)@, p as int, n as int, v));
    }

    /// First-fit allocation of `size` bytes aligned to `align` bytes; returns
    /// the first frame number of the block, or `None` when no aligned run of
    /// free frames is long enough.
    pub fn alloc_zeroed(&mut self, size: usize, align: usize) -> (r: Option<usize>)
        requires
            align >= PAGE_SIZE_NORMAL,
            align % PAGE_SIZE_NORMAL == 0,
        ensures
            r is Some ==> {
                let p = r->0 as int;
                &&& p % (align / PAGE_SIZE_NORMAL) as int == 0
                &&& block_free(old(self)@, p, pages_for(size as nat) as int)
                &&& final(self)@ == mark(old(self)@, p, pages_for(size as nat) as int, true)
                &&& forall|q: int|
                    0 <= q < p && q % (align / PAGE_SIZE_NORMAL) as int == 0 ==> !block_free(
                        old(self)@,
                        q,
                        pages_for(size as nat) as int,
                    )
            },
            r is None ==> final(self)@ == old(self)@ && forall|q: int|
                0 <= q && q % (align / PAGE_SIZE_NORMAL) as int == 0 ==> !block_free(
                    old(self)@,
                    q,
                    pages_for(size as nat) as int,
                ),
    {
        let n = Heap::pages(size);
        let step = align / PAGE_SIZE_NORMAL;
        let len = self.used.len();
        let mut p: usize = 0;
        while p <= len && n <= len - p
            invariant
                self@ == old(self)@,
                len == self@.len(),
                step >= 1,
                step == align / PAGE_SIZE_NORMAL,
                p % step == 0,
                n == pages_for(size as nat),
                forall|q: int| 0 <= q < p && q % step as int == 0 ==> !block_free(self@, q, n as int),
            decreases len + 1 - p,
        {
            if self.run_is_free(p, n) {
                let ghost before = self@;
                self.set_run(p, n, true);
                assert(before == old(self)@);
                return Some(p);
            }
            if step > len - p {
                proof {
                    assert forall|q: int| 0 <= q && q % step as int == 0 implies !block_free(
                        self@,
                        q,
                        n as int,
                    ) by {
                        if p < q < p + step {
                            lemma_next_multiple(p as int, step as int, q);
                        }
                    }
                }
                return None;
            }
            proof {
                assert forall|q: int|
                    0 <= q < p + step && q % step as int == 0 implies !block_free(
                    self@,
                    q,
                    n as int,
                ) by {
                    if q > p {
                        lemma_next_multiple(p as int, step as int, q);
                    }
                }
                vstd::arithmetic::div_mod::lemma_mod_add_multiples_vanish(p as int, step as int);
            }
            p = p + step;
        }
        proof {
            assert forall|q: int| 0 <= q && q % step as int == 0 implies !block_free(
                self@,
                q,
                n as int,
            ) by {
                if q >= p {
                    assert(q + n > len);
                }
            }
        }
        None
    }

    /// Releases the `size` bytes starting at frame `p`.
    pub fn dealloc(&mut self, p: usize, size: usize)
        requires
            p + pages_for(size as nat) <= old(self).used.len(),
        ensures
            final(self)@ == mark(old(self)@, p as int, pages_for(size as nat) as int, false),
    {
        let n = Heap::pages(size);
        self.set_run(p, n, false);
    }
}

/// Between two consecutive multiples of `step` there is none.
proof fn lemma_next_multiple(p: int, step: int, q: int)
    requires
        0 <= p,
        step >= 1,
        p % step == 0,
        p < q < p + step,
    ensures
        q % step != 0,
{
    vstd::arithmetic::div_mod::lemma_fundamental_div_mod(p, step);
    vstd::arithmetic::div_mod::lemma_fundamental_div_mod(q, step);
    if q % step == 0 {
        let a = p / step;
        let b = q / step;
        assert(p == step * a);
        assert(q == step * b);
        assert(step * a < step * b < step * a + step);
        assert(a < b < a + 1) by (nonlinear_arith)
            requires step * a < step * b, step * b < step * a + step, step >= 1;
    }
}

} // verus!
