//! A stack-style allocator of physical frames: frames given back are handed
//! out again first, most recent first; otherwise frames are taken from a
//! range never used before.
use vstd::prelude::*;
use crate::mm::address::{PhysAddr, PhysPageNum};
use crate::mm::phys_mem::PhysMem;

verus! {

/// Owns one frame, named by its page number.
#[derive(Clone, Copy, Debug, PartialEq, Eq, Structural)]
pub struct FrameTracker {
    pub ppn: PhysPageNum,
}

impl FrameTracker {
    /// Wraps a page number.
    pub fn new(ppn: PhysPageNum) -> (r: Self)
        ensures
            r.ppn == ppn,
    {
        Self { ppn }
    }
}

/// The state of a [`StackFrameAllocator`] as plain values.
pub struct FrameAllocView {
    /// The first frame never handed out.
    pub current: int,
    /// One past the last frame the allocator manages.
    pub end: int,
    /// Frames given back, the most recent last.
    pub recycled: Seq<usize>,
}

impl FrameAllocView {
    /// Every frame given back lies below `current`, and none is there twice.
    pub open spec fn wf(self) -> bool {
        &&& forall|k: int| 0 <= k < self.recycled.len() ==> #[trigger] self.recycled[k] < self.current
        &&& self.recycled.no_duplicates()
        &&& 0 <= self.current <= usize::MAX
        &&& 0 <= self.end <= usize::MAX
    }

    /// Whether frame `p` can be handed out: given back, or never used yet.
    pub open spec fn is_free(self, p: int) -> bool {
        (0 <= p <= usize::MAX && self.recycled.contains(p as usize)) || (self.current <= p < self.end)
    }

    /// The number of frames that can be handed out.
    pub open spec fn free_count(self) -> int {
        self.recycled.len() + if self.current < self.end { self.end - self.current } else { 0 }
    }

    /// Whether frame `p` is handed out and may be given back.
    pub open spec fn can_free(self, p: int) -> bool {
        0 <= p < self.current && p <= usize::MAX && !self.recycled.contains(p as usize)
    }

    /// The frame the next allocation hands out.
    pub open spec fn alloc_result(self) -> Option<usize> {
        if self.recycled.len() > 0 {
            Some(self.recycled.last())
        } else if self.current < self.end {
            Some(self.current as usize)
        } else {
            None
        }
    }

    /// The state after an allocation.
    pub open spec fn after_alloc(self) -> FrameAllocView {
        if self.recycled.len() > 0 {
            FrameAllocView { recycled: self.recycled.drop_last(), ..self }
        } else if self.current < self.end {
            FrameAllocView { current: self.current + 1, ..self }
        } else {
            self
        }
    }

    /// The state after frame `p` is given back.
    pub open spec fn after_dealloc(self, p: usize) -> FrameAllocView {
        FrameAllocView { recycled: self.recycled.push(p), ..self }
    }
}

/// Hands out physical frames. Frames in `[current, end)` were never used;
/// `recycled` holds frames given back, handed out again last-in first-out.
pub struct StackFrameAllocator {
    current: usize,
    end: usize,
    recycled: Vec<usize>,
}

impl View for StackFrameAllocator {
    type V = FrameAllocView;

    closed spec fn view(&self) -> FrameAllocView {
        FrameAllocView { current: self.current as int, end: self.end as int, recycled: self.recycled@ }
    }
}

impl StackFrameAllocator {
    /// An empty allocator; it hands nothing out before `init`.
    pub fn new() -> (r: Self)
        ensures
            r@.wf(),
            r@.current == 0,
            r@.end == 0,
            r@.recycled == Seq::<usize>::empty(),
    {
        Self { current: 0, end: 0, recycled: Vec::new() }
    }

    /// Manages the frames `[l, r)`, none of them in use.
    pub fn init(&mut self, l: PhysPageNum, r: PhysPageNum)
        ensures
            final(self)@.wf(),
            final(self)@.current == l.0,
            final(self)@.end == r.0,
            final(self)@.recycled == Seq::<usize>::empty(),
    {
        self.current = l.0;
        self.end = r.0;
        self.recycled = Vec::new();
    }

    /// Hands out a frame: the one given back last if any, else the next
    /// never-used one, else `None`.
    pub fn allocate(&mut self) -> (r: Option<PhysPageNum>)
        requires
            old(self)@.wf(),
        ensures
            final(self)@ == old(self)@.after_alloc(),
            r == match old(self)@.alloc_result() {
                Some(p) => Some(PhysPageNum(p)),
                None => None::<PhysPageNum>,
            },
            final(self)@.wf(),
            r matches Some(p) ==> old(self)@.is_free(p.0 as int) && !final(self)@.is_free(p.0 as int)
                && final(self)@.free_count() == old(self)@.free_count() - 1,
            r is None ==> old(self)@.free_count() == 0,
            forall|q: int|
                #![trigger final(self)@.is_free(q)]
                (r matches Some(p) ==> q != p.0) ==> final(self)@.is_free(q) == old(self)@.is_free(q),
    {
        let ghost v = self@;
        if let Some(ppn) = self.recycled.pop() {
            proof {
                lemma_drop_last_free(v);
            }
            Some(PhysPageNum(ppn))
        } else if self.current < self.end {
            self.current = self.current + 1;
            Some(PhysPageNum(self.current - 1))
        } else {
            None
        }
    }

    /// The number of frames left to hand out, or `usize::MAX` when it does
    /// not fit in a `usize`.
    pub fn free_frames(&self) -> (r: usize)
        ensures
            r == if self@.free_count() <= usize::MAX { self@.free_count() } else { usize::MAX as int },
    {
        let fresh: usize = if self.current < self.end { self.end - self.current } else { 0 };
        match self.recycled.len().checked_add(fresh) {
            Some(n) => n,
            None => usize::MAX,
        }
    }

    /// Whether `ppn` is handed out, so that it may be given back.
    pub fn can_dealloc(&self, ppn: PhysPageNum) -> (r: bool)
        ensures
            r == self@.can_free(ppn.0 as int),
    {
        if ppn.0 >= self.current {
            return false;
        }
        let mut k: usize = 0;
        while k < self.recycled.len()
            invariant
                k <= self.recycled@.len(),
                forall|j: int| 0 <= j < k ==> self.recycled@[j] != ppn.0,
            decreases self.recycled@.len() - k,
        {
            if self.recycled[k] == ppn.0 {
                return false;
            }
            k = k + 1;
        }
        true
    }

    /// Gives frame `ppn` back, clearing its contents.
    pub fn dealloc(&mut self, ppn: PhysPageNum, mem: &mut PhysMem)
        requires
            old(self)@.wf(),
            old(self)@.can_free(ppn.0 as int),
            old(mem).holds(ppn.0 as int),
        ensures
            final(self)@ == old(self)@.after_dealloc(ppn.0),
            final(self)@.wf(),
            final(self)@.is_free(ppn.0 as int),
            final(self)@.free_count() == old(self)@.free_count() + 1,
            forall|q: int|
                #![trigger final(self)@.is_free(q)]
                q != ppn.0 ==> final(self)@.is_free(q) == old(self)@.is_free(q),
            final(mem).base() == old(mem).base(),
            final(mem).count() == old(mem).count(),
            final(mem).zeroed(ppn.0 as int),
            forall|p: int, j: int|
                #![trigger final(mem).word(p, j)]
                final(mem).holds(p) && p != ppn.0 && 0 <= j < 512 ==> final(mem).word(p, j)
                    == old(mem).word(p, j),
    {
        mem.clear(ppn.0);
        self.recycled.push(ppn.0);
        proof {
            lemma_push_free(old(self)@, ppn.0);
        }
    }
}

proof fn lemma_drop_last_free(v: FrameAllocView)
    requires
        v.wf(),
        v.recycled.len() > 0,
    ensures
        v.after_alloc().wf(),
        v.is_free(v.recycled.last() as int),
        !v.after_alloc().is_free(v.recycled.last() as int),
        v.after_alloc().free_count() == v.free_count() - 1,
        forall|q: int| q != v.recycled.last() ==> #[trigger] v.after_alloc().is_free(q) == v.is_free(q),
{
    let s = v.recycled;
    let t = s.drop_last();
    let x = s.last();
    assert(s[s.len() - 1] == x);
    assert(s.contains(x));
    assert forall|q: int| q != x implies #[trigger] v.after_alloc().is_free(q) == v.is_free(q) by {
        if 0 <= q <= usize::MAX && s.contains(q as usize) {
            let k = choose|k: int| 0 <= k < s.len() && s[k] == q as usize;
            assert(k != s.len() - 1);
            assert(t[k] == q as usize);
        }
        if 0 <= q <= usize::MAX && t.contains(q as usize) {
            let k = choose|k: int| 0 <= k < t.len() && t[k] == q as usize;
            assert(s[k] == q as usize);
        }
    }
    if t.contains(x) {
        let k = choose|k: int| 0 <= k < t.len() && t[k] == x;
        assert(s[k] == x);
        assert(s[s.len() - 1] == x);
    }
    assert forall|k: int| 0 <= k < t.len() implies #[trigger] t[k] < v.current by {
        assert(t[k] == s[k]);
    }
    assert(t.no_duplicates()) by {
        assert forall|i: int, j: int| 0 <= i < t.len() && 0 <= j < t.len() && i != j implies t[i]
            != t[j] by {
            assert(t[i] == s[i] && t[j] == s[j]);
        }
    }
}

proof fn lemma_push_free(v: FrameAllocView, p: usize)
    requires
        v.wf(),
        v.can_free(p as int),
    ensures
        v.after_dealloc(p).wf(),
        v.after_dealloc(p).is_free(p as int),
        v.after_dealloc(p).free_count() == v.free_count() + 1,
        forall|q: int| q != p ==> #[trigger] v.after_dealloc(p).is_free(q) == v.is_free(q),
{
    let s = v.recycled;
    let t = s.push(p);
    assert(t[s.len() as int] == p);
    assert forall|q: int| q != p implies #[trigger] v.after_dealloc(p).is_free(q) == v.is_free(q) by {
        if 0 <= q <= usize::MAX && s.contains(q as usize) {
            let k = choose|k: int| 0 <= k < s.len() && s[k] == q as usize;
            assert(t[k] == q as usize);
        }
        if 0 <= q <= usize::MAX && t.contains(q as usize) {
            let k = choose|k: int| 0 <= k < t.len() && t[k] == q as usize;
            assert(k != s.len());
            assert(s[k] == q as usize);
        }
    }
    assert forall|k: int| 0 <= k < t.len() implies #[trigger] t[k] < v.current by {
        if k < s.len() {
            assert(t[k] == s[k]);
        }
    }
    assert(t.no_duplicates()) by {
        assert forall|i: int, j: int| 0 <= i < t.len() && 0 <= j < t.len() && i != j implies t[i]
            != t[j] by {
            if i < s.len() && j < s.len() {
                assert(t[i] == s[i] && t[j] == s[j]);
            } else if i < s.len() {
                assert(t[i] == s[i]);
                assert(s.contains(s[i]));
            } else {
                assert(t[j] == s[j]);
                assert(s.contains(s[j]));
            }
        }
    }
}

/// Memory and allocator agree: every frame the allocator may hand out is
/// held in `mem` and cleared.
pub open spec fn frames_backed(mem: PhysMem, fa: FrameAllocView) -> bool {
    &&& mem.wf()
    &&& fa.wf()
    &&& forall|p: int| #[trigger] fa.is_free(p) ==> mem.holds(p) && mem.zeroed(p)
}

/// Frames are cleared when given back, so a frame handed out is clean: when
/// every free frame is cleared, the frame an allocation hands out is
/// cleared, and the free frames left are still all cleared.
pub proof fn lemma_allocated_frame_is_clean(mem: PhysMem, fa: FrameAllocView)
    requires
        frames_backed(mem, fa),
    ensures
        fa.alloc_result() matches Some(p) ==> mem.holds(p as int) && mem.zeroed(p as int),
        frames_backed(mem, fa.after_alloc()),
{
    lemma_alloc_is_free(fa);
    if fa.recycled.len() > 0 {
        lemma_drop_last_free(fa);
    } else if fa.current < fa.end {
        assert forall|q: int| #[trigger] fa.after_alloc().is_free(q) implies fa.is_free(q) by {}
    }
}

/// Giving a frame back keeps every free frame cleared, as `dealloc` clears
/// the frame it takes back: the memory `dealloc` leaves, with the frame
/// cleared and every other frame unchanged, backs the allocator after it.
pub proof fn lemma_dealloc_keeps_frames_clean(m0: PhysMem, m1: PhysMem, fa: FrameAllocView, p: usize)
    requires
        frames_backed(m0, fa),
        fa.can_free(p as int),
        m0.holds(p as int),
        m1.base() == m0.base(),
        m1.count() == m0.count(),
        m1.zeroed(p as int),
        forall|q: int, j: int|
            #![trigger m1.word(q, j)]
            m1.holds(q) && q != p && 0 <= j < 512 ==> m1.word(q, j) == m0.word(q, j),
    ensures
        frames_backed(m1, fa.after_dealloc(p)),
{
    lemma_push_free(fa, p);
    assert forall|q: int| #[trigger] fa.after_dealloc(p).is_free(q) implies m1.holds(q) && m1.zeroed(q) by {
        if q != p {
            assert(fa.is_free(q));
            assert forall|j: int| 0 <= j < 512 implies #[trigger] m1.word(q, j) == 0 by {
                assert(m0.word(q, j) == 0);
            }
        }
    }
}

/// A frame given back is the next one handed out, and handing it out
/// restores the allocator to the state before it was given back.
pub proof fn lemma_dealloc_then_alloc(v: FrameAllocView, p: usize)
    requires
        v.wf(),
        v.can_free(p as int),
    ensures
        v.after_dealloc(p).alloc_result() == Some(p),
        v.after_dealloc(p).after_alloc() == v,
{
    let t = v.recycled.push(p);
    assert(t.drop_last() =~= v.recycled);
}

/// An allocation never hands out a frame that is already in use, and two
/// allocations in a row never hand out the same frame.
pub proof fn lemma_alloc_fresh(v: FrameAllocView)
    requires
        v.wf(),
    ensures
        v.alloc_result() matches Some(p) ==> v.is_free(p as int) && !v.after_alloc().is_free(
            p as int,
        ),
        v.alloc_result() matches Some(p) ==> v.after_alloc().alloc_result() != Some(p),
{
    if v.recycled.len() > 0 {
        lemma_drop_last_free(v);
        let p = v.recycled.last();
        let w = v.after_alloc();
        lemma_alloc_is_free(w);
    } else if v.current < v.end {
        let w = v.after_alloc();
        lemma_alloc_is_free(w);
    }
}

proof fn lemma_alloc_is_free(v: FrameAllocView)
    requires
        v.wf(),
    ensures
        v.alloc_result() matches Some(p) ==> v.is_free(p as int),
{
    if v.recycled.len() > 0 {
        assert(v.recycled[v.recycled.len() - 1] == v.recycled.last());
        assert(v.recycled.contains(v.recycled.last()));
    }
}

/// Manages the frames from the first page at or above the kernel's end
/// (`ekernel`) up to the end of memory; gives the number of frames.
pub fn init_frame_allocator(fa: &mut StackFrameAllocator, ekernel: usize) -> (n: usize)
    requires
        1 <= ekernel as int % crate::mm::address::pa_limit() <= usize::MAX - 4095,
        crate::mm::address::page_ceil(ekernel as int % crate::mm::address::pa_limit()) <= crate::config::MEMORY_END / 4096,
    ensures
        final(fa)@.wf(),
        final(fa)@.current == crate::mm::address::page_ceil(ekernel as int % crate::mm::address::pa_limit()),
        final(fa)@.end == crate::config::MEMORY_END / 4096,
        final(fa)@.recycled == Seq::<usize>::empty(),
        n == final(fa)@.end - final(fa)@.current,
{
    let first_page_number = PhysAddr::from(ekernel).ceil();
    let last_page_number = PhysAddr::from(crate::config::MEMORY_END).floor();
    proof {
        assert(crate::config::MEMORY_END as int % crate::mm::address::pa_limit() == crate::config::MEMORY_END);
    }
    let n = last_page_number.0 - first_page_number.0;
    fa.init(first_page_number, last_page_number);
    n
}

/// Takes a frame from `fa`, wrapped in a tracker.
pub fn frame_alloc(fa: &mut StackFrameAllocator) -> (r: Option<FrameTracker>)
    requires
        old(fa)@.wf(),
    ensures
        final(fa)@ == old(fa)@.after_alloc(),
        final(fa)@.wf(),
        r == match old(fa)@.alloc_result() {
            Some(p) => Some(FrameTracker { ppn: PhysPageNum(p) }),
            None => None::<FrameTracker>,
        },
{
    match fa.allocate() {
        Some(ppn) => Some(FrameTracker::new(ppn)),
        None => None,
    }
}

/// Gives frame `ppn` back to `fa`, clearing it in `mem`.
pub fn frame_dealloc(fa: &mut StackFrameAllocator, mem: &mut PhysMem, ppn: PhysPageNum)
    requires
        old(fa)@.wf(),
        old(fa)@.can_free(ppn.0 as int),
        old(mem).holds(ppn.0 as int),
    ensures
        final(fa)@ == old(fa)@.after_dealloc(ppn.0),
        final(fa)@.wf(),
        final(mem).base() == old(mem).base(),
        final(mem).count() == old(mem).count(),
        final(mem).zeroed(ppn.0 as int),
        forall|p: int, j: int|
            #![trigger final(mem).word(p, j)]
            final(mem).holds(p) && p != ppn.0 && 0 <= j < 512 ==> final(mem).word(p, j)
                == old(mem).word(p, j),
{
    fa.dealloc(ppn, mem);
}

} // verus!
