//! Half-open ranges of steppable values, such as runs of virtual pages.
use vstd::prelude::*;
use core::cmp::Ordering;
use vstd::std_specs::cmp::{PartialEqSpecImpl, PartialOrdSpecImpl, PartialOrdSpec, PartialEqSpec};
use crate::mm::address::VirtPageNum;

verus! {

/// A value that can move on to the next one, like a page number.
pub trait StepByOne: Sized {
    /// Whether the value has a successor.
    spec fn can_step(&self) -> bool;

    /// The successor of the value.
    spec fn stepped(&self) -> Self;

    /// Moves to the next value.
    fn step(&mut self)
        requires
            old(self).can_step(),
        ensures
            *final(self) == old(self).stepped(),
    ;
}

impl StepByOne for VirtPageNum {
    open spec fn can_step(&self) -> bool {
        self.0 < usize::MAX
    }

    open spec fn stepped(&self) -> Self {
        VirtPageNum((self.0 + 1) as usize)
    }

    /// Moves to the next page: `self.0 += 1`.
    fn step(&mut self) {
        self.0 = self.0 + 1;
    }
}

impl PartialEq for VirtPageNum {
    fn eq(&self, other: &Self) -> (r: bool) {
        self.0 == other.0
    }
}

impl PartialEqSpecImpl for VirtPageNum {
    open spec fn obeys_eq_spec() -> bool {
        true
    }

    open spec fn eq_spec(&self, other: &Self) -> bool {
        self.0 == other.0
    }
}

impl Eq for VirtPageNum {}

impl PartialOrd for VirtPageNum {
    fn partial_cmp(&self, other: &Self) -> (r: Option<Ordering>) {
        if self.0 < other.0 {
            Some(Ordering::Less)
        } else if self.0 == other.0 {
            Some(Ordering::Equal)
        } else {
            Some(Ordering::Greater)
        }
    }
}

impl PartialOrdSpecImpl for VirtPageNum {
    open spec fn obeys_partial_cmp_spec() -> bool {
        true
    }

    open spec fn partial_cmp_spec(&self, other: &Self) -> Option<Ordering> {
        if self.0 < other.0 {
            Some(Ordering::Less)
        } else if self.0 == other.0 {
            Some(Ordering::Equal)
        } else {
            Some(Ordering::Greater)
        }
    }
}

/// `a <= b` in the order that `T` declares.
pub open spec fn ordered_le<T: PartialOrd>(a: T, b: T) -> bool {
    a.partial_cmp_spec(&b) matches Some(Ordering::Less | Ordering::Equal)
}

/// `a >= b` in the order that `T` declares.
pub open spec fn ordered_ge<T: PartialOrd>(a: T, b: T) -> bool {
    a.partial_cmp_spec(&b) matches Some(Ordering::Greater | Ordering::Equal)
}

/// `a < b` in the order that `T` declares.
pub open spec fn ordered_lt<T: PartialOrd>(a: T, b: T) -> bool {
    a.partial_cmp_spec(&b) == Some(Ordering::Less)
}

/// A half-open range `[l, r)` of values of `T`.
#[derive(Copy)]
pub struct SimpleRange<T> where T: StepByOne + Copy + PartialEq + PartialOrd {
    l: T,
    r: T,
}

impl<T> Clone for SimpleRange<T> where T: StepByOne + Copy + PartialEq + PartialOrd {
    fn clone(&self) -> (r: Self)
        ensures
            r == *self,
    {
        *self
    }
}

impl<T> SimpleRange<T> where T: StepByOne + Copy + PartialEq + PartialOrd {
    /// The first value of the range.
    pub closed spec fn start(&self) -> T {
        self.l
    }

    /// The first value past the range.
    pub closed spec fn end(&self) -> T {
        self.r
    }

    /// The range `[start, end)`; `start` must not lie above `end`.
    pub fn new(start: T, end: T) -> (r: Self)
        requires
            ordered_le(start, end),
        ensures
            r.start() == start,
            r.end() == end,
    {
        Self { l: start, r: end }
    }

    /// The first value of the range.
    pub fn get_start(&self) -> (r: T)
        ensures
            r == self.start(),
    {
        self.l
    }

    /// The first value past the range.
    pub fn get_end(&self) -> (r: T)
        ensures
            r == self.end(),
    {
        self.r
    }

    /// Whether `start <= val < end`.
    pub fn contain(&self, val: T) -> (r: bool)
        ensures
            T::obeys_partial_cmp_spec() ==> (r == (ordered_ge(val, self.start()) && ordered_lt(val, self.end()))),
    {
        val >= self.l && val < self.r
    }

    /// An iterator over the values of the range, from the start up.
    pub fn into_iter(self) -> (r: SimpleRangeIterator<T>)
        ensures
            r.current() == self.start(),
            r.end() == self.end(),
    {
        SimpleRangeIterator::new(self.l, self.r)
    }
}

/// Walks a [`SimpleRange`] one value at a time.
pub struct SimpleRangeIterator<T> where T: StepByOne + Copy + PartialEq + PartialOrd {
    current: T,
    end: T,
}

impl<T> SimpleRangeIterator<T> where T: StepByOne + Copy + PartialEq + PartialOrd {
    /// The value handed out next.
    pub closed spec fn current(&self) -> T {
        self.current
    }

    /// The value at which the walk stops.
    pub closed spec fn end(&self) -> T {
        self.end
    }

    /// A walk from `l` up to (not including) `r`.
    pub fn new(l: T, r: T) -> (it: Self)
        ensures
            it.current() == l,
            it.end() == r,
    {
        Self { current: l, end: r }
    }

    /// Hands out the current value and steps past it, or `None` once the end
    /// is reached.
    pub fn next(&mut self) -> (r: Option<T>)
        requires
            T::obeys_eq_spec(),
            !old(self).current().eq_spec(&old(self).end()) ==> old(self).current().can_step(),
        ensures
            final(self).end() == old(self).end(),
            old(self).current().eq_spec(&old(self).end()) ==> r is None && *final(self) == *old(
                self,
            ),
            !old(self).current().eq_spec(&old(self).end()) ==> r == Some(old(self).current())
                && final(self).current() == old(self).current().stepped(),
    {
        if self.current == self.end {
            None
        } else {
            let t = self.current;
            self.current.step();
            Some(t)
        }
    }
}

/// Iterating over the pages `a .. b` hands them out in order and then
/// stops: after `k` calls of `next` (`k` up to `b - a`) the iterator stands
/// at page `a + k`; while `k < b - a` the next call yields page `a + k` and
/// moves to `a + k + 1`, and at `k == b - a` it yields nothing.
pub proof fn lemma_page_range_iteration(a: VirtPageNum, b: VirtPageNum, k: int)
    requires
        a.0 <= b.0,
        0 <= k <= b.0 - a.0,
    ensures
        ({
            let cur = VirtPageNum((a.0 + k) as usize);
            &&& k < b.0 - a.0 ==> !<VirtPageNum as PartialEqSpec>::eq_spec(&cur, &b) && cur.can_step() && cur.stepped() == VirtPageNum(
                (a.0 + k + 1) as usize,
            )
            &&& k == b.0 - a.0 ==> <VirtPageNum as PartialEqSpec>::eq_spec(&cur, &b)
        }),
{
}

/// Walks the iterator to its end, as a `for` loop over a page range does,
/// and gives the pages handed out: a walk from page `a` to page `b`
/// (`a <= b`) hands out exactly `a, a + 1, ..., b - 1`, in order, after
/// which every further call of `next` hands out nothing.
pub fn walk_pages(it: &mut SimpleRangeIterator<VirtPageNum>) -> (r: Vec<VirtPageNum>)
    requires
        old(it).current().0 <= old(it).end().0,
    ensures
        r@ == Seq::new(
            (old(it).end().0 - old(it).current().0) as nat,
            |i: int| VirtPageNum((old(it).current().0 + i) as usize),
        ),
        final(it).current() == old(it).end(),
        final(it).end() == old(it).end(),
        <VirtPageNum as PartialEqSpec>::eq_spec(&final(it).current(), &final(it).end()),
{
    let ghost a = it.current().0;
    let ghost b = it.end().0;
    let mut v: Vec<VirtPageNum> = Vec::new();
    loop
        invariant_except_break
            a <= it.current().0 <= b,
            it.end().0 == b,
            v@ == Seq::new((it.current().0 - a) as nat, |i: int| VirtPageNum((a + i) as usize)),
        ensures
            it.current().0 == b,
            it.end().0 == b,
            v@ == Seq::new((b - a) as nat, |i: int| VirtPageNum((a + i) as usize)),
        decreases b - it.current().0,
    {
        let ghost cur = it.current().0;
        match it.next() {
            Some(p) => {
                v.push(p);
                assert(v@ =~= Seq::new((it.current().0 - a) as nat, |i: int| VirtPageNum((a + i) as usize)));
            },
            None => {
                break;
            },
        }
    }
    proof {
        assert(final(it).current() == VirtPageNum(b as usize));
    }
    v
}

} // verus!
