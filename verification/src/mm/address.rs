//! Physical and virtual addresses and page numbers of the SV39 scheme.
use vstd::prelude::*;
use crate::config::{PAGE_SIZE, PAGE_SIZE_BITS};

verus! {

/// Width of a physical address.
pub const PA_WIDTH_SV39: usize = 56;
/// Width of a virtual address.
pub const VA_WIDTH_SV39: usize = 39;
/// Width of a physical page number.
pub const PPN_WIDTH_SV39: usize = 44;
/// Width of a virtual page number.
pub const VPN_WIDTH_SV39: usize = 27;

/// 2^56: one more than the largest physical address.
pub open spec fn pa_limit() -> int { 0x100_0000_0000_0000 }
/// 2^39: one more than the largest virtual address.
pub open spec fn va_limit() -> int { 0x80_0000_0000 }
/// 2^38: virtual addresses from here up stand for the upper half of the space.
pub open spec fn va_half() -> int { 0x40_0000_0000 }
/// The number of values of a `usize`.
pub open spec fn word_limit() -> int { usize::MAX as int + 1 }

/// A physical address (56 significant bits).
#[derive(Clone, Copy, Debug, PartialEq, Eq, Structural)]
pub struct PhysAddr(pub usize);

/// A virtual address (39 significant bits).
#[derive(Clone, Copy, Debug, PartialEq, Eq, Structural)]
pub struct VirtAddr(pub usize);

/// A physical page number (44 significant bits).
#[derive(Clone, Copy, Debug, PartialEq, Eq, Structural)]
pub struct PhysPageNum(pub usize);

/// A virtual page number: three 9-bit indexes, highest level first.
#[derive(Clone, Copy, Debug)]
pub struct VirtPageNum(pub usize);

/// The page that holds the byte at address `a`.
pub open spec fn page_floor(a: int) -> int {
    a / (PAGE_SIZE as int)
}

/// The first page that starts at or above address `a`.
pub open spec fn page_ceil(a: int) -> int {
    (a + PAGE_SIZE - 1) / (PAGE_SIZE as int)
}

/// The value a virtual address stands for as a 64-bit address: bits 63..39
/// copy bit 38.
pub open spec fn sign_extended(v: int) -> int {
    if v < va_half() {
        v
    } else {
        v + word_limit() - va_limit()
    }
}

/// The three page-table indexes of a virtual page number, root level first.
pub open spec fn vpn_indexes(v: int) -> Seq<usize> {
    seq![
        ((v / 0x40000) % 512) as usize,
        ((v / 512) % 512) as usize,
        (v % 512) as usize,
    ]
}

proof fn lemma_page_offset_bits(x: usize)
    ensures
        x & 0xfff == x % 4096,
{
    assert(x & 0xfff == x % 4096) by (bit_vector);
}

proof fn lemma_shift_page(x: usize)
    ensures
        x >> 12usize == x / 4096,
{
    assert(x >> 12usize == x / 4096) by (bit_vector);
}

/// Shifting a page number left by the page offset width multiplies it by the
/// page size when the product fits in a `usize`.
pub proof fn lemma_page_start(x: usize)
    requires
        x * 4096 <= usize::MAX,
    ensures
        x << 12usize == x * 4096,
{
    vstd::arithmetic::power2::lemma2_to64();
    vstd::bits::lemma_usize_shl_is_mul(x, 12);
}

proof fn lemma_sign_extend(x: u64)
    ensures
        0x40_0000_0000 <= x < 0x80_0000_0000 ==> x | !0x7f_ffff_ffffu64 == x
            + 0xffff_ff80_0000_0000u64,
{
    assert(0x40_0000_0000 <= x < 0x80_0000_0000 ==> x | !0x7f_ffff_ffffu64 == x
        + 0xffff_ff80_0000_0000u64) by (bit_vector);
}

impl VirtAddr {
    /// The page the address lies in: `0x100_001 -> 0x100`.
    pub fn floor(&self) -> (r: VirtPageNum)
        ensures
            r.0 == page_floor(self.0 as int),
    {
        VirtPageNum(self.0 / PAGE_SIZE)
    }

    /// The first page starting at or after the address: `0x100_001 -> 0x101`.
    pub fn ceil(&self) -> (r: VirtPageNum)
        requires
            1 <= self.0 <= usize::MAX - PAGE_SIZE + 1,
        ensures
            r.0 == page_ceil(self.0 as int),
    {
        VirtPageNum((self.0 - 1 + PAGE_SIZE) / PAGE_SIZE)
    }

    /// The offset inside the page (the lower 12 bits).
    pub fn page_offset(&self) -> (r: usize)
        ensures
            r == self.0 % PAGE_SIZE,
    {
        proof { lemma_page_offset_bits(self.0); }
        self.0 & (PAGE_SIZE - 1)
    }

    /// Whether the address is the start of a page.
    pub fn aligned(&self) -> (r: bool)
        ensures
            r == (self.0 % PAGE_SIZE == 0),
    {
        self.page_offset() == 0
    }
}

impl PhysAddr {
    /// The page the address lies in: `0x10_001 -> 0x10`.
    pub fn floor(&self) -> (r: PhysPageNum)
        ensures
            r.0 == page_floor(self.0 as int),
    {
        PhysPageNum(self.0 / PAGE_SIZE)
    }

    /// The first page starting at or after the address: `0x10_001 -> 0x11`.
    pub fn ceil(&self) -> (r: PhysPageNum)
        requires
            1 <= self.0 <= usize::MAX - PAGE_SIZE + 1,
        ensures
            r.0 == page_ceil(self.0 as int),
    {
        PhysPageNum((self.0 - 1 + PAGE_SIZE) / PAGE_SIZE)
    }

    /// The offset inside the page (the lower 12 bits).
    pub fn page_offset(&self) -> (r: usize)
        ensures
            r == self.0 % PAGE_SIZE,
    {
        proof { lemma_page_offset_bits(self.0); }
        self.0 & (PAGE_SIZE - 1)
    }

    /// Whether the address is the start of a page.
    pub fn aligned(&self) -> (r: bool)
        ensures
            r == (self.0 % PAGE_SIZE == 0),
    {
        self.page_offset() == 0
    }
}

impl PhysPageNum {
    /// Reads a `usize` as a physical page number. Values at or above the
    /// kernel's end address (taken as a virtual address) are addresses and
    /// give the page they lie in; smaller values are page numbers already.
    pub fn from_usize(v: usize, ekernel: usize) -> (r: PhysPageNum)
        ensures
            v >= (ekernel as int) % va_limit() ==> r.0 == ((v as int) % pa_limit()) / 4096,
            v < (ekernel as int) % va_limit() ==> r.0 == v,
    {
        let threshold = VirtAddr::from(ekernel).0;
        if v >= threshold {
            let pa = PhysAddr::from(v).0;
            proof { lemma_shift_page(pa); }
            PhysPageNum(pa >> PAGE_SIZE_BITS)
        } else {
            PhysPageNum(v)
        }
    }
}

impl VirtPageNum {
    /// The three 9-bit page-table indexes of the page number, root level
    /// first.
    pub fn indexes(&self) -> (r: [usize; 3])
        ensures
            r@ == vpn_indexes(self.0 as int),
    {
        let mut vpn = self.0;
        let mut idx = [0usize; 3];
        let mut i: usize = 3;
        while i > 0
            invariant
                i <= 3,
                vpn as int == self.0 as int / pow512(3 - i),
                forall|j: int| i <= j < 3 ==> idx@[j] == vpn_indexes(self.0 as int)[j],
            decreases i,
        {
            i = i - 1;
            proof {
                assert(vpn & 511 == vpn % 512) by (bit_vector);
                assert(vpn >> 9usize == vpn / 512) by (bit_vector);
                lemma_div_index(self.0, i as int);
            }
            idx[i] = vpn & 511;
            vpn = vpn >> 9;
        }
        idx
    }
}

/// `512` raised to the power `k`, for the levels used here.
pub open spec fn pow512(k: int) -> int {
    if k <= 0 { 1 } else if k == 1 { 512 } else if k == 2 { 0x40000 } else { 0x800_0000 }
}

proof fn lemma_div_index(v: usize, i: int)
    requires
        0 <= i < 3,
    ensures
        (v as int / pow512(2 - i)) % 512 == vpn_indexes(v as int)[i] as int,
        (v as int / pow512(2 - i)) / 512 == v as int / pow512(3 - i),
{
    let x = v as int;
    if i == 2 {
    } else if i == 1 {
        assert((x / 512) / 512 == x / 0x40000) by (nonlinear_arith);
    } else {
        assert((x / 0x40000) / 512 == x / 0x800_0000) by (nonlinear_arith);
    }
}

// ---- conversions ----

impl From<usize> for PhysAddr {
    /// Keeps the lower 56 bits.
    fn from(v: usize) -> (r: Self) {
        let w = v as u64;
        let m = w & 0xff_ffff_ffff_ffffu64;
        proof {
            assert(w & 0xff_ffff_ffff_ffffu64 == w % 0x100_0000_0000_0000) by (bit_vector);
        }
        Self(m as usize)
    }
}

impl vstd::std_specs::convert::FromSpecImpl<usize> for PhysAddr {
    open spec fn obeys_from_spec() -> bool { true }
    open spec fn from_spec(v: usize) -> Self { PhysAddr(((v as int) % pa_limit()) as usize) }
}

impl From<usize> for VirtAddr {
    /// Keeps the lower 39 bits.
    fn from(v: usize) -> (r: Self) {
        let w = v as u64;
        let m = w & 0x7f_ffff_ffffu64;
        proof {
            assert(w & 0x7f_ffff_ffffu64 == w % 0x80_0000_0000) by (bit_vector);
        }
        Self(m as usize)
    }
}

impl vstd::std_specs::convert::FromSpecImpl<usize> for VirtAddr {
    open spec fn obeys_from_spec() -> bool { true }
    open spec fn from_spec(v: usize) -> Self { VirtAddr(((v as int) % va_limit()) as usize) }
}

impl From<usize> for VirtPageNum {
    /// Reads an address (never a page number): the lower 39 bits, shifted
    /// down by the page offset.
    fn from(v: usize) -> (r: Self) {
        let a = VirtAddr::from(v).0;
        proof { lemma_shift_page(a); }
        Self(a >> PAGE_SIZE_BITS)
    }
}

impl vstd::std_specs::convert::FromSpecImpl<usize> for VirtPageNum {
    open spec fn obeys_from_spec() -> bool { true }
    open spec fn from_spec(v: usize) -> Self {
        VirtPageNum((((v as int) % va_limit()) / 4096) as usize)
    }
}

impl From<PhysAddr> for usize {
    fn from(v: PhysAddr) -> (r: Self) {
        v.0
    }
}

impl vstd::std_specs::convert::FromSpecImpl<PhysAddr> for usize {
    open spec fn obeys_from_spec() -> bool { true }
    open spec fn from_spec(v: PhysAddr) -> Self { v.0 }
}

impl From<PhysPageNum> for usize {
    fn from(v: PhysPageNum) -> (r: Self) {
        v.0
    }
}

impl vstd::std_specs::convert::FromSpecImpl<PhysPageNum> for usize {
    open spec fn obeys_from_spec() -> bool { true }
    open spec fn from_spec(v: PhysPageNum) -> Self { v.0 }
}

impl From<VirtPageNum> for usize {
    fn from(v: VirtPageNum) -> (r: Self) {
        v.0
    }
}

impl vstd::std_specs::convert::FromSpecImpl<VirtPageNum> for usize {
    open spec fn obeys_from_spec() -> bool { true }
    open spec fn from_spec(v: VirtPageNum) -> Self { v.0 }
}

impl From<VirtAddr> for usize {
    /// The 64-bit form of the address: bits 63..39 are set when bit 38 is.
    fn from(v: VirtAddr) -> (r: Self) {
        let w = v.0 as u64;
        if w >= 0x40_0000_0000u64 {
            (w | !0x7f_ffff_ffffu64) as usize
        } else {
            v.0
        }
    }
}

impl vstd::std_specs::convert::FromSpecImpl<VirtAddr> for usize {
    open spec fn obeys_from_spec() -> bool { true }
    open spec fn from_spec(v: VirtAddr) -> Self {
        if v.0 < va_half() { v.0 } else { ((v.0 as u64) | !0x7f_ffff_ffffu64) as usize }
    }
}

impl From<VirtPageNum> for VirtAddr {
    /// The address the page starts at (shifted left by 12 bits).
    fn from(v: VirtPageNum) -> (r: Self) {
        Self(v.0 << PAGE_SIZE_BITS)
    }
}

impl vstd::std_specs::convert::FromSpecImpl<VirtPageNum> for VirtAddr {
    open spec fn obeys_from_spec() -> bool { true }
    open spec fn from_spec(v: VirtPageNum) -> Self {
        VirtAddr(v.0 << 12usize)
    }
}

impl From<PhysPageNum> for PhysAddr {
    /// The address the page starts at (shifted left by 12 bits).
    fn from(v: PhysPageNum) -> (r: Self) {
        Self(v.0 << PAGE_SIZE_BITS)
    }
}

impl vstd::std_specs::convert::FromSpecImpl<PhysPageNum> for PhysAddr {
    open spec fn obeys_from_spec() -> bool { true }
    open spec fn from_spec(v: PhysPageNum) -> Self {
        PhysAddr(v.0 << 12usize)
    }
}

/// On a 64-bit machine, a virtual address below 2^39 turns into the 64-bit
/// address whose bits 63..39 copy bit 38.
pub proof fn lemma_virt_addr_to_usize(v: VirtAddr)
    requires
        v.0 < va_limit(),
        usize::BITS == 64,
    ensures
        <usize as vstd::std_specs::convert::FromSpec<VirtAddr>>::from_spec(v) == sign_extended(v.0 as int),
{
    lemma_sign_extend(v.0 as u64);
}

/// A virtual address in the lower half turns into itself.
pub proof fn lemma_virt_addr_to_usize_small(v: VirtAddr)
    requires
        v.0 < va_half(),
    ensures
        <usize as vstd::std_specs::convert::FromSpec<VirtAddr>>::from_spec(v) == v.0,
{
}

/// The page an address floors to starts at or below it, and the page it
/// rounds up to differs from it by one exactly when the address is not
/// page-aligned.
pub proof fn lemma_floor_ceil(a: int)
    requires
        0 <= a,
    ensures
        page_floor(a) * 4096 <= a < page_floor(a) * 4096 + 4096,
        page_ceil(a) == page_floor(a) + if a % 4096 == 0 { 0int } else { 1int },
{
}

/// The address a page starts at lies in that page: turning a page number
/// into its start address and flooring it gives the page number back.
pub proof fn lemma_page_roundtrip(v: VirtPageNum)
    requires
        v.0 * 4096 <= usize::MAX,
    ensures
        page_floor(<VirtAddr as vstd::std_specs::convert::FromSpec<VirtPageNum>>::from_spec(v).0 as int) == v.0,
{
    lemma_page_start(v.0);
}

/// On a 64-bit machine, reading a canonical address (below 2^38, or at or
/// above 2^64 - 2^38) as a virtual address and turning that back into a
/// `usize` gives the address back; and a virtual address below 2^39 turned
/// into a `usize` and read back is unchanged.
pub proof fn lemma_virt_addr_usize_roundtrip(v: usize, a: VirtAddr)
    requires
        usize::BITS == 64,
        a.0 < va_limit(),
    ensures
        v < va_half() || v >= 0xffff_ffc0_0000_0000int ==> <usize as vstd::std_specs::convert::FromSpec<VirtAddr>>::from_spec(
            <VirtAddr as vstd::std_specs::convert::FromSpec<usize>>::from_spec(v),
        ) == v,
        <VirtAddr as vstd::std_specs::convert::FromSpec<usize>>::from_spec(
            <usize as vstd::std_specs::convert::FromSpec<VirtAddr>>::from_spec(a),
        ) == a,
{
    let x = v as u64;
    assert(x >= 0xffff_ffc0_0000_0000u64 ==> (((x % 0x80_0000_0000) | !0x7f_ffff_ffffu64) == x
        && x % 0x80_0000_0000 >= 0x40_0000_0000)) by (bit_vector);
    let y = a.0 as u64;
    assert(y < 0x80_0000_0000u64 && y >= 0x40_0000_0000u64 ==> (y | !0x7f_ffff_ffffu64) % 0x80_0000_0000 == y)
        by (bit_vector);
}

} // verus!
