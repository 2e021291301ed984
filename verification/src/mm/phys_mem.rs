//! The physical frames the kernel manages, seen as arrays of 512 words.
use vstd::prelude::*;

verus! {

/// Number of 8-byte words in a page.
pub const WORDS_PER_FRAME: usize = 512;

/// One more than the largest physical page number (44 bits).
pub open spec fn ppn_limit() -> int { 0x1000_0000_0000 }

/// The contents of a consecutive run of physical frames, starting at page
/// number `base`. A frame is read as 512 words; a page-table frame holds 512
/// page-table entries.
pub struct PhysMem {
    base: usize,
    frames: Vec<[usize; 512]>,
}

impl PhysMem {
    /// The first page number held.
    pub closed spec fn base(&self) -> int {
        self.base as int
    }

    /// The number of frames held.
    pub closed spec fn count(&self) -> int {
        self.frames@.len() as int
    }

    /// The first frame is a `usize` value and the frame count is at least 0.
    pub proof fn lemma_bounds(&self)
        ensures
            0 <= self.base() <= usize::MAX,
            0 <= self.count(),
    {
    }

    /// Whether frame `p` is held.
    pub open spec fn holds(&self, p: int) -> bool {
        self.base() <= p < self.base() + self.count()
    }

    /// Word `i` of frame `p`.
    pub closed spec fn word(&self, p: int, i: int) -> usize {
        self.frames@[p - self.base()]@[i]
    }

    /// Whether every word of frame `p` is zero.
    pub open spec fn zeroed(&self, p: int) -> bool {
        forall|i: int| 0 <= i < 512 ==> #[trigger] self.word(p, i) == 0
    }

    /// The frames lie below the largest page number, and a page-table entry
    /// naming any of them fits in a `usize`.
    pub open spec fn wf(&self) -> bool {
        &&& 0 <= self.base()
        &&& self.base() + self.count() <= ppn_limit()
        &&& (self.base() + self.count()) * 1024 <= usize::MAX
    }

    /// `n` zeroed frames starting at page number `base`.
    pub fn new(base: usize, n: usize) -> (r: Self)
        requires
            base + n <= ppn_limit(),
            (base + n) * 1024 <= usize::MAX,
        ensures
            r.wf(),
            r.base() == base,
            r.count() == n,
            forall|p: int| r.holds(p) ==> r.zeroed(p),
    {
        let mut frames: Vec<[usize; 512]> = Vec::new();
        let mut k: usize = 0;
        while k < n
            invariant
                k <= n,
                frames@.len() == k,
                forall|j: int, i: int| 0 <= j < k && 0 <= i < 512 ==> #[trigger] frames@[j]@[i] == 0,
            decreases n - k,
        {
            let f = [0usize; 512];
            frames.push(f);
            k = k + 1;
        }
        PhysMem { base, frames }
    }

    /// Whether frame `ppn` is one of the frames held.
    pub fn contains(&self, ppn: usize) -> (r: bool)
        ensures
            r == self.holds(ppn as int),
    {
        self.base <= ppn && ppn - self.base < self.frames.len()
    }

    /// Word `i` of frame `ppn`.
    pub fn read(&self, ppn: usize, i: usize) -> (r: usize)
        requires
            self.holds(ppn as int),
            i < 512,
        ensures
            r == self.word(ppn as int, i as int),
    {
        self.frames[ppn - self.base][i]
    }

    /// Stores `v` in word `i` of frame `ppn`.
    pub fn write(&mut self, ppn: usize, i: usize, v: usize)
        requires
            old(self).holds(ppn as int),
            i < 512,
        ensures
            final(self).base() == old(self).base(),
            final(self).count() == old(self).count(),
            forall|p: int, j: int|
                #![trigger final(self).word(p, j)]
                final(self).holds(p) && 0 <= j < 512 ==> final(self).word(p, j) == if p == ppn
                    && j == i {
                    v
                } else {
                    old(self).word(p, j)
                },
    {
        let k = ppn - self.base;
        let mut f = self.frames[k];
        f[i] = v;
        self.frames.set(k, f);
    }

    /// Sets every word of frame `ppn` to zero.
    pub fn clear(&mut self, ppn: usize)
        requires
            old(self).holds(ppn as int),
        ensures
            final(self).base() == old(self).base(),
            final(self).count() == old(self).count(),
            final(self).zeroed(ppn as int),
            forall|p: int, j: int|
                #![trigger final(self).word(p, j)]
                final(self).holds(p) && p != ppn && 0 <= j < 512 ==> final(self).word(p, j)
                    == old(self).word(p, j),
    {
        let k = ppn - self.base;
        self.frames.set(k, [0usize; 512]);
    }
}

} // verus!
