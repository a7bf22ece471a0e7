//! Physical memory, page-table entries and the two allocators of the kernel:
//! the physical frame bitmap and the pool of pages reserved for page-table
//! nodes and kernel stacks.
//!
//! Physical layout: frames `[0, INITIAL_MAPPED)` are mapped at boot and
//! permanently in use (kernel image and the page-table pool); frames
//! `[INITIAL_MAPPED, MAX_MAPPED)` are handed out one by one.  The pool is a
//! window of `POOL_PAGES` pages at `PAGETABLE_VIRT`, backed by the physical
//! pages at `PAGETABLE_PHYS`.
use crate::bits::{
    bit_of, lemma_bit_clear, lemma_bit_set, lemma_bit_test, lemma_entry_fields, lemma_full_word,
    lemma_index_bits, lemma_low_mask, lemma_zero_word, lemma_aligned_mod,
};
use crate::error::Error;
use vstd::prelude::*;

verus! {

/// Size of a mapped page.
pub const PAGE_SIZE: u64 = 0x1000;
/// Base of the kernel's virtual half; physical memory is mapped there.
pub const KERNEL_BASE: u64 = 0xFFFF_FFFF_8000_0000;
/// Start of the kernel heap window.
pub const HEAP_VIRT: u64 = 0xFFFF_FFFF_8070_0000;
/// Size of the kernel heap window.
pub const HEAP_SIZE: u64 = 0x10_0000;
/// Physical address of the first page of the page-table pool.
pub const PAGETABLE_PHYS: u64 = 0x60_0000;
/// Kernel-virtual address of the first page of the page-table pool.
pub const PAGETABLE_VIRT: u64 = 0xFFFF_FFFF_8060_0000;
/// Number of pages in the page-table pool.
pub const POOL_PAGES: usize = 1024;
/// Frames below this number are mapped at boot and never handed out.
pub const INITIAL_MAPPED: u64 = 3072;
/// Number of physical frames managed (64 MiB).
pub const MAX_MAPPED: u64 = 16384;
/// Number of 64-bit words in the frame bitmap.
pub const BITMAP_WORDS: usize = 256;
/// Number of entries in a page-table node.
pub const ENTRIES: usize = 512;
/// Bytes of physical memory modelled (`MAX_MAPPED` frames).
pub const MEMORY_SIZE: usize = 0x400_0000;

/// Value of `v` with its `n` low bits cleared.
pub open spec fn mask_low(v: u64, n: u64) -> u64 {
    v & !(((1u64 << n) - 1) as u64)
}

/// Virtual address.
#[derive(Clone, Copy, Debug, PartialEq, Eq, Structural)]
pub struct VirtualAddress(pub u64);

/// Physical address.
#[derive(Clone, Copy, Debug, PartialEq, Eq, Structural)]
pub struct PhysicalAddress(pub u64);

impl VirtualAddress {
    pub fn new(v: u64) -> (r: Self)
        ensures
            r.0 == v,
    {
        VirtualAddress(v)
    }

    /// Page frame number of the address.
    pub fn frame(&self) -> (r: u64)
        ensures
            r == self.0 >> 12,
    {
        self.0 >> 12
    }

    /// Index into the page table (level 1).
    pub fn table_index(&self) -> (r: usize)
        ensures
            r == (self.0 >> 12) & 0x1ff,
            r < 512,
    {
        proof {
            lemma_index_bits(self.0, 12);
        }
        ((self.0 >> 12) & 0x1ff) as usize
    }

    /// Index into the page directory (level 2).
    pub fn dir_index(&self) -> (r: usize)
        ensures
            r == (self.0 >> 21) & 0x1ff,
            r < 512,
    {
        proof {
            lemma_index_bits(self.0, 21);
        }
        ((self.0 >> 21) & 0x1ff) as usize
    }

    /// Index into the page directory pointer table (level 3).
    pub fn dptr_index(&self) -> (r: usize)
        ensures
            r == (self.0 >> 30) & 0x1ff,
            r < 512,
    {
        proof {
            lemma_index_bits(self.0, 30);
        }
        ((self.0 >> 30) & 0x1ff) as usize
    }

    /// Index into the PML4 (level 4).
    pub fn pml4_index(&self) -> (r: usize)
        ensures
            r == (self.0 >> 39) & 0x1ff,
            r < 512,
    {
        proof {
            lemma_index_bits(self.0, 39);
        }
        ((self.0 >> 39) & 0x1ff) as usize
    }

    /// The address with its `lowbits` low bits cleared.
    pub fn mask(&self, lowbits: u64) -> (r: u64)
        requires
            lowbits < 64,
        ensures
            r == mask_low(self.0, lowbits),
    {
        proof {
            assert(1u64 << lowbits >= 1) by (bit_vector)
                requires
                    lowbits < 64,
            ;
        }
        self.0 & !((1u64 << lowbits) - 1)
    }

    /// Whether the address lies in the user half (PML4 slot 0).
    pub fn usermode(&self) -> (r: bool)
        ensures
            r == ((self.0 >> 39) & 0x1ff == 0),
    {
        self.pml4_index() == 0
    }

    pub fn sub(&self, v: u64) -> (r: u64)
        requires
            v <= self.0,
        ensures
            r == self.0 - v,
    {
        self.0 - v
    }

    pub fn add(&self, v: u64) -> (r: u64)
        requires
            self.0 + v <= u64::MAX,
        ensures
            r == self.0 + v,
    {
        self.0 + v
    }
}

impl PhysicalAddress {
    pub fn new(v: u64) -> (r: Self)
        ensures
            r.0 == v,
    {
        PhysicalAddress(v)
    }

    /// The address with its `lowbits` low bits cleared.
    pub fn mask(&self, lowbits: u64) -> (r: u64)
        requires
            lowbits < 64,
        ensures
            r == mask_low(self.0, lowbits),
    {
        proof {
            assert(1u64 << lowbits >= 1) by (bit_vector)
                requires
                    lowbits < 64,
            ;
        }
        self.0 & !((1u64 << lowbits) - 1)
    }

    /// Address of page frame `frame`.
    pub fn from_pfn(frame: u64) -> (r: Self)
        requires
            frame * PAGE_SIZE <= u64::MAX,
        ensures
            r.0 == frame * PAGE_SIZE,
    {
        PhysicalAddress(frame * PAGE_SIZE)
    }

    /// Page frame number of the address.
    pub fn pfn(&self) -> (r: u64)
        ensures
            r == self.0 >> 12,
    {
        self.0 >> 12
    }

    pub fn sub(&self, v: u64) -> (r: u64)
        requires
            v <= self.0,
        ensures
            r == self.0 - v,
    {
        self.0 - v
    }

    pub fn add(&self, v: u64) -> (r: u64)
        requires
            self.0 + v <= u64::MAX,
        ensures
            r == self.0 + v,
    {
        self.0 + v
    }
}

// ---------------------------------------------------------------------------
// Page-table entries

/// Bit 0: the entry maps something.
pub open spec fn present_entry(e: u64) -> bool {
    e & 1u64 != 0
}

/// Bit 7: the entry maps a large page rather than a next-level table.
pub open spec fn large_entry(e: u64) -> bool {
    e & 0x80u64 != 0
}

/// The 4 KiB-aligned physical address held by an entry.
pub open spec fn entry_address(e: u64) -> u64 {
    e & !0xfffu64
}

/// Flag bits of an entry: present, and rw (bit 1), user (bit 2), page
/// size (bit 7) as asked.
pub open spec fn entry_flags(rw: bool, user: bool, ps: bool) -> u64 {
    (1 + (if ps { 0x80u64 } else { 0u64 }) + (if rw { 2u64 } else { 0u64 }) + (if user {
        4u64
    } else {
        0u64
    })) as u64
}

/// The entry that maps `paddr` with the given flags.
pub open spec fn make_entry(paddr: u64, rw: bool, user: bool, ps: bool) -> u64 {
    (paddr & !0xfffu64) | entry_flags(rw, user, ps)
}

/// Kernel-virtual address of physical address `a` (the kernel maps
/// physical memory at `KERNEL_BASE`; the sum wraps around 2^64).
pub open spec fn kernel_virt(a: u64) -> u64 {
    if a + KERNEL_BASE <= u64::MAX {
        (a + KERNEL_BASE) as u64
    } else {
        (a + KERNEL_BASE - 0x1_0000_0000_0000_0000) as u64
    }
}

pub proof fn lemma_flags_small(rw: bool, user: bool, ps: bool)
    ensures
        entry_flags(rw, user, ps) < 0x1000,
        entry_flags(rw, user, ps) & 1u64 == 1u64,
        (entry_flags(rw, user, ps) & 0x80u64 != 0) == ps,
{
    let f = entry_flags(rw, user, ps);
    let a: u64 = if ps { 0x80 } else { 0 };
    let b: u64 = if rw { 2 } else { 0 };
    let c: u64 = if user { 4 } else { 0 };
    assert(f & 1u64 == 1u64 && (f & 0x80u64 != 0) == (a == 0x80)) by (bit_vector)
        requires
            a == 0 || a == 0x80,
            b == 0 || b == 2,
            c == 0 || c == 4,
            f == 1 + a + b + c,
    ;
}

/// Facts about an entry built by `make_entry`.
pub proof fn lemma_make_entry(paddr: u64, rw: bool, user: bool, ps: bool)
    ensures
        present_entry(make_entry(paddr, rw, user, ps)),
        large_entry(make_entry(paddr, rw, user, ps)) == ps,
        entry_address(make_entry(paddr, rw, user, ps)) == paddr & !0xfffu64,
        make_entry(paddr, rw, user, ps) >> 12u64 == paddr >> 12u64,
{
    lemma_flags_small(rw, user, ps);
    lemma_low_mask(paddr);
    let a = paddr & !0xfffu64;
    lemma_entry_fields(a, entry_flags(rw, user, ps));
    assert(a >> 12u64 == paddr >> 12u64) by (bit_vector)
        requires
            a == paddr & !0xfffu64,
    ;
}

/// A page-table node: 512 entries of the x86_64 format.
#[derive(Clone, Copy)]
pub struct PageTable {
    pub v: [u64; 512],
}

impl PageTable {
    /// A node with every entry empty.
    pub fn new() -> (r: Self)
        ensures
            forall|k: int| 0 <= k < 512 ==> r.v@[k] == 0,
    {
        PageTable { v: [0u64; 512] }
    }

    /// Installs a mapping of `paddr` at `idx`; refuses (returns false) to
    /// overwrite a present entry.
    pub fn map(&mut self, idx: usize, paddr: PhysicalAddress, rw: bool, user: bool, ps: bool) -> (r:
        bool)
        requires
            idx < 512,
        ensures
            r == !present_entry(old(self).v@[idx as int]),
            r ==> final(self).v@ == old(self).v@.update(
                idx as int,
                make_entry(paddr.0, rw, user, ps),
            ),
            !r ==> *final(self) == *old(self),
    {
        if self.v[idx] & 1 != 0 {
            return false;
        }
        let mut entry: u64 = 0x1;
        if ps {
            entry = entry + 0x80;
        }
        if rw {
            entry = entry + 0x2;
        }
        if user {
            entry = entry + 0x4;
        }
        let base = paddr.mask(12);
        proof {
            lemma_low_mask(paddr.0);
        }
        let flags = entry;
        entry = entry | base;
        proof {
            let pa = paddr.0;
            assert(entry == (pa & !0xfffu64) | flags) by (bit_vector)
                requires
                    entry == flags | base,
                    base == pa & !0xfffu64,
            ;
        }
        self.v[idx] = entry;
        true
    }

    /// Clears the entry at `idx`; returns whether it was present.
    pub fn unmap(&mut self, idx: usize) -> (r: bool)
        requires
            idx < 512,
        ensures
            r == present_entry(old(self).v@[idx as int]),
            r ==> final(self).v@ == old(self).v@.update(idx as int, 0u64),
            !r ==> *final(self) == *old(self),
    {
        if self.v[idx] & 1 != 0 {
            self.v[idx] = 0;
            true
        } else {
            false
        }
    }

    /// Kernel-virtual address of the next-level node referenced at `idx`;
    /// fails if the entry is absent or maps a large page.
    pub fn next(&self, idx: usize) -> (r: Result<VirtualAddress, Error>)
        requires
            idx < 512,
        ensures
            !present_entry(self.v@[idx as int]) || large_entry(self.v@[idx as int]) ==> r
                == Err::<VirtualAddress, Error>(Error::EFAULT),
            present_entry(self.v@[idx as int]) && !large_entry(self.v@[idx as int]) ==> r == Ok::<
                VirtualAddress,
                Error,
            >(VirtualAddress(kernel_virt(entry_address(self.v@[idx as int])))),
    {
        let e = self.v[idx];
        if e & 1 == 0 || e & 0x80 != 0 {
            return Err(Error::EFAULT);
        }
        let a = e & !0xfff;
        if a <= u64::MAX - KERNEL_BASE {
            Ok(VirtualAddress(a + KERNEL_BASE))
        } else {
            Ok(VirtualAddress(a - (u64::MAX - KERNEL_BASE) - 1))
        }
    }

    /// Installs the shared kernel PDPT at entry 511 (rw, supervisor only).
    pub fn map_kernel(&mut self, kernel_pdpt: PhysicalAddress) -> (r: bool)
        ensures
            r == !present_entry(old(self).v@[511]),
            r ==> final(self).v@ == old(self).v@.update(
                511,
                make_entry(kernel_pdpt.0, true, false, false),
            ),
            !r ==> *final(self) == *old(self),
    {
        self.map(511, kernel_pdpt, true, false, false)
    }

    /// Whether the entry at `idx` is present.
    pub fn present(&self, idx: usize) -> (r: bool)
        requires
            idx < 512,
        ensures
            r == present_entry(self.v@[idx as int]),
    {
        self.v[idx] & 1 != 0
    }

    /// The raw entry at `idx`.
    pub fn get(&self, idx: usize) -> (r: u64)
        requires
            idx < 512,
        ensures
            r == self.v@[idx as int],
    {
        self.v[idx]
    }
}

} // verus!

verus! {

// ---------------------------------------------------------------------------
// Allocators

/// Lowest index in `[lo, hi)` whose flag is clear, or `hi` when every flag
/// there is set.
pub open spec fn first_free(s: Seq<bool>, lo: int, hi: int) -> int
    decreases hi - lo,
{
    if lo >= hi {
        hi
    } else if !s[lo] {
        lo
    } else {
        first_free(s, lo + 1, hi)
    }
}

pub proof fn lemma_first_free(s: Seq<bool>, lo: int, hi: int)
    requires
        lo <= hi,
    ensures
        lo <= first_free(s, lo, hi) <= hi,
        first_free(s, lo, hi) < hi ==> !s[first_free(s, lo, hi)],
        forall|j: int| lo <= j < first_free(s, lo, hi) ==> s[j],
    decreases hi - lo,
{
    if lo < hi && s[lo] {
        lemma_first_free(s, lo + 1, hi);
    }
}

/// The `n` entries from `i` on exist in `s` and are all clear.
pub open spec fn run_free(s: Seq<bool>, i: int, n: int) -> bool {
    &&& 0 <= i
    &&& i + n <= s.len()
    &&& forall|j: int| i <= j < i + n ==> !s[j]
}

/// Lowest start `>= lo` (and below `s.len()`) of a clear run of `n`
/// entries, or `s.len()` when there is none.
pub open spec fn first_run(s: Seq<bool>, n: int, lo: int) -> int
    decreases s.len() - lo,
{
    if lo >= s.len() {
        s.len() as int
    } else if run_free(s, lo, n) {
        lo
    } else {
        first_run(s, n, lo + 1)
    }
}

pub proof fn lemma_first_run(s: Seq<bool>, n: int, lo: int)
    requires
        0 <= lo <= s.len(),
    ensures
        lo <= first_run(s, n, lo) <= s.len(),
        first_run(s, n, lo) < s.len() ==> run_free(s, first_run(s, n, lo), n),
        forall|j: int| lo <= j < first_run(s, n, lo) ==> !run_free(s, j, n),
    decreases s.len() - lo,
{
    if lo < s.len() && !run_free(s, lo, n) {
        lemma_first_run(s, n, lo + 1);
    }
}

/// `s` with the entries in `[lo, hi)` set to `b`.
pub open spec fn fill_range(s: Seq<bool>, lo: int, hi: int, b: bool) -> Seq<bool> {
    Seq::new(s.len(), |j: int| if lo <= j < hi { b } else { s[j] })
}

/// A release of `count` pool pages from address `b` on stopped at its
/// `k`-th page: the pages before it were in use and are now free, that
/// page is outside the window or free, and nothing else changed.
pub open spec fn stopped_at(before: Seq<bool>, after: Seq<bool>, b: int, k: int, count: int) -> bool {
    let i0 = pool_index_of(b);
    &&& 0 <= k < count
    &&& k > 0 ==> in_pool_window(b)
    &&& forall|m: int| i0 <= m < i0 + k ==> before[m]
    &&& !(in_pool_window(b) && i0 + k < POOL_PAGES && before[i0 + k])
    &&& after == fill_range(before, i0, i0 + k, false)
}

/// Kernel-virtual address of pool page `i`.
pub open spec fn pool_vaddr(i: int) -> u64 {
    (PAGETABLE_VIRT + i * 4096) as u64
}

/// Physical address of pool page `i`.
pub open spec fn pool_paddr(i: int) -> u64 {
    (PAGETABLE_PHYS + i * 4096) as u64
}

/// Whether `a` lies in the pool's virtual window.
pub open spec fn in_pool_window(a: int) -> bool {
    PAGETABLE_VIRT <= a < PAGETABLE_VIRT + POOL_PAGES * 4096
}

/// Pool page that holds virtual address `a`.
pub open spec fn pool_index_of(a: int) -> int {
    (a - PAGETABLE_VIRT) / 4096
}

/// The in-use flags of the frames that a bitmap records, one bit a frame.
pub open spec fn frames_of(bitmap: Seq<u64>) -> Seq<bool> {
    Seq::new(MAX_MAPPED as nat, |p: int| bit_of(bitmap[p / 64], (p % 64) as u64))
}

/// The kernel's memory state: the frame bitmap, the pool's in-use flags and
/// page contents, physical memory, and the address of the PDPT shared by
/// every address space for the kernel half.
pub struct MMU {
    pub bitmap: Vec<u64>,
    pub inuse: Vec<bool>,
    pub tables: Vec<PageTable>,
    pub memory: Vec<u8>,
    pub kernel_pdpt: u64,
}

impl MMU {
    /// In-use flag of each physical frame below `MAX_MAPPED`.
    pub open spec fn frames(&self) -> Seq<bool> {
        frames_of(self.bitmap@)
    }

    /// In-use flag of each pool page.
    pub open spec fn pool(&self) -> Seq<bool> {
        self.inuse@
    }

    /// Entries of pool page `i`, read as a page-table node.
    pub open spec fn table(&self, i: int) -> Seq<u64> {
        self.tables@[i].v@
    }

    pub open spec fn wf(&self) -> bool {
        &&& self.bitmap@.len() == BITMAP_WORDS
        &&& self.inuse@.len() == POOL_PAGES
        &&& self.tables@.len() == POOL_PAGES
        &&& self.memory@.len() == MEMORY_SIZE
        &&& self.kernel_pdpt & 0xfffu64 == 0
        &&& self.kernel_pdpt < PAGETABLE_PHYS
        &&& forall|p: int| 0 <= p < INITIAL_MAPPED ==> #[trigger] self.frames()[p]
    }

    /// Everything but the frame bitmap is the same in `self` and `o`.
    pub open spec fn same_but_frames(&self, o: &MMU) -> bool {
        &&& self.inuse@ == o.inuse@
        &&& self.tables@ == o.tables@
        &&& self.memory@ == o.memory@
        &&& self.kernel_pdpt == o.kernel_pdpt
    }

    /// Everything but the pool (flags and pages) is the same in `self` and `o`.
    pub open spec fn same_but_pool(&self, o: &MMU) -> bool {
        &&& self.bitmap@ == o.bitmap@
        &&& self.memory@ == o.memory@
        &&& self.kernel_pdpt == o.kernel_pdpt
    }

    /// State right after boot: the boot-mapped frames in use, the pool free
    /// and zeroed.
    pub fn new(kernel_pdpt: PhysicalAddress) -> (r: Self)
        requires
            kernel_pdpt.0 % PAGE_SIZE == 0,
            kernel_pdpt.0 < PAGETABLE_PHYS,
        ensures
            r.wf(),
            r.frames() == Seq::new(MAX_MAPPED as nat, |p: int| p < INITIAL_MAPPED),
            r.pool() == Seq::new(POOL_PAGES as nat, |i: int| false),
            forall|i: int, k: int| 0 <= i < POOL_PAGES && 0 <= k < 512 ==> r.table(i)[k] == 0,
            r.kernel_pdpt == kernel_pdpt.0,
    {
        proof {
            lemma_aligned_mod(kernel_pdpt.0);
        }
        let boot_words: usize = (INITIAL_MAPPED / 64) as usize;
        let mut bitmap: Vec<u64> = Vec::new();
        let mut w: usize = 0;
        while w < BITMAP_WORDS
            invariant
                w <= BITMAP_WORDS,
                boot_words == 48,
                bitmap@.len() == w,
                forall|j: int|
                    0 <= j < w ==> bitmap@[j] == if j < 48 {
                        0xffff_ffff_ffff_ffffu64
                    } else {
                        0u64
                    },
            decreases BITMAP_WORDS - w,
        {
            if w < boot_words {
                bitmap.push(0xffff_ffff_ffff_ffff);
            } else {
                bitmap.push(0);
            }
            w += 1;
        }
        let mut inuse: Vec<bool> = Vec::new();
        let mut tables: Vec<PageTable> = Vec::new();
        let mut i: usize = 0;
        while i < POOL_PAGES
            invariant
                i <= POOL_PAGES,
                inuse@.len() == i,
                tables@.len() == i,
                forall|j: int| 0 <= j < i ==> !inuse@[j],
                forall|j: int, k: int| 0 <= j < i && 0 <= k < 512 ==> tables@[j].v@[k] == 0,
            decreases POOL_PAGES - i,
        {
            inuse.push(false);
            tables.push(PageTable::new());
            i += 1;
        }
        let memory: Vec<u8> = vec![0u8; MEMORY_SIZE];
        let r = MMU { bitmap, inuse, tables, memory, kernel_pdpt: kernel_pdpt.0 };
        assert forall|p: int| 0 <= p < MAX_MAPPED implies r.frames()[p] == (p < INITIAL_MAPPED) by {
            if p < INITIAL_MAPPED {
                lemma_full_word((p % 64) as u64);
            } else {
                lemma_zero_word((p % 64) as u64);
            }
        }
        assert(r.frames() =~= Seq::new(MAX_MAPPED as nat, |p: int| p < INITIAL_MAPPED));
        assert(r.pool() =~= Seq::new(POOL_PAGES as nat, |i: int| false));
        r
    }

    /// Whether physical frame `frame` is in use.
    fn page_marked(&self, frame: u64) -> (r: bool)
        requires
            self.wf(),
            frame < MAX_MAPPED,
        ensures
            r == self.frames()[frame as int],
    {
        let idx = (frame / 64) as usize;
        let bitoff = frame % 64;
        proof {
            lemma_bit_test(self.bitmap@[idx as int], bitoff);
        }
        self.bitmap[idx] & (1u64 << bitoff) != 0
    }

    /// Marks physical frame `frame` as in use.
    fn mark_page(&mut self, frame: u64)
        requires
            old(self).wf(),
            frame < MAX_MAPPED,
        ensures
            final(self).wf(),
            final(self).same_but_frames(old(self)),
            final(self).frames() == old(self).frames().update(frame as int, true),
    {
        let idx = (frame / 64) as usize;
        let bitoff = frame % 64;
        let w = self.bitmap[idx];
        self.bitmap.set(idx, w | (1u64 << bitoff));
        assert forall|p: int| 0 <= p < MAX_MAPPED implies self.frames()[p] == old(
            self,
        ).frames().update(frame as int, true)[p] by {
            if p / 64 == idx {
                lemma_bit_set(w, bitoff, (p % 64) as u64);
            }
        }
        assert(self.frames() =~= old(self).frames().update(frame as int, true));
    }

    /// Marks physical frame `frame` as free.
    fn clear_page(&mut self, frame: u64)
        requires
            old(self).wf(),
            INITIAL_MAPPED <= frame < MAX_MAPPED,
        ensures
            final(self).wf(),
            final(self).same_but_frames(old(self)),
            final(self).frames() == old(self).frames().update(frame as int, false),
    {
        let idx = (frame / 64) as usize;
        let bitoff = frame % 64;
        let w = self.bitmap[idx];
        self.bitmap.set(idx, w & !(1u64 << bitoff));
        assert forall|p: int| 0 <= p < MAX_MAPPED implies self.frames()[p] == old(
            self,
        ).frames().update(frame as int, false)[p] by {
            if p / 64 == idx {
                lemma_bit_clear(w, bitoff, (p % 64) as u64);
            }
        }
        assert(self.frames() =~= old(self).frames().update(frame as int, false));
    }

    /// Allocates the lowest free frame of `[INITIAL_MAPPED, MAX_MAPPED)`.
    pub fn alloc_phys(&mut self) -> (r: Result<PhysicalAddress, Error>)
        requires
            old(self).wf(),
        ensures
            final(self).wf(),
            final(self).same_but_frames(old(self)),
            ({
                let p = first_free(old(self).frames(), INITIAL_MAPPED as int, MAX_MAPPED as int);
                if p < MAX_MAPPED {
                    &&& r == Ok::<PhysicalAddress, Error>(PhysicalAddress((p * 4096) as u64))
                    &&& INITIAL_MAPPED <= p && !old(self).frames()[p]
                    &&& final(self).frames() == old(self).frames().update(p, true)
                } else {
                    &&& r == Err::<PhysicalAddress, Error>(Error::ENOMEM)
                    &&& *final(self) == *old(self)
                }
            }),
    {
        proof {
            lemma_first_free(self.frames(), INITIAL_MAPPED as int, MAX_MAPPED as int);
        }
        let mut frame: u64 = INITIAL_MAPPED;
        while frame < MAX_MAPPED
            invariant
                INITIAL_MAPPED <= frame <= MAX_MAPPED,
                *self == *old(self),
                self.wf(),
                first_free(self.frames(), INITIAL_MAPPED as int, MAX_MAPPED as int) == first_free(
                    self.frames(),
                    frame as int,
                    MAX_MAPPED as int,
                ),
            decreases MAX_MAPPED - frame,
        {
            if !self.page_marked(frame) {
                self.mark_page(frame);
                return Ok(PhysicalAddress::from_pfn(frame));
            }
            frame += 1;
        }
        Err(Error::ENOMEM)
    }

    /// Releases the frame holding `addr`.  Fails with `EFAULT` when that
    /// frame is not an allocated one of `[INITIAL_MAPPED, MAX_MAPPED)`.
    pub fn free_phys(&mut self, addr: PhysicalAddress) -> (r: Result<(), Error>)
        requires
            old(self).wf(),
        ensures
            final(self).wf(),
            final(self).same_but_frames(old(self)),
            ({
                let p = (addr.0 >> 12) as int;
                if INITIAL_MAPPED <= p < MAX_MAPPED && old(self).frames()[p] {
                    &&& r == Ok::<(), Error>(())
                    &&& final(self).frames() == old(self).frames().update(p, false)
                } else {
                    &&& r == Err::<(), Error>(Error::EFAULT)
                    &&& *final(self) == *old(self)
                }
            }),
    {
        let frame = addr.pfn();
        if frame < INITIAL_MAPPED || frame >= MAX_MAPPED {
            return Err(Error::EFAULT);
        }
        if !self.page_marked(frame) {
            return Err(Error::EFAULT);
        }
        self.clear_page(frame);
        Ok(())
    }

    /// Takes the lowest free pool page, zeroes it and returns its
    /// kernel-virtual address.
    pub fn alloc_page(&mut self) -> (r: Result<VirtualAddress, Error>)
        requires
            old(self).wf(),
        ensures
            final(self).wf(),
            final(self).same_but_pool(old(self)),
            ({
                let i = first_free(old(self).pool(), 0, POOL_PAGES as int);
                if i < POOL_PAGES {
                    &&& r == Ok::<VirtualAddress, Error>(VirtualAddress(pool_vaddr(i)))
                    &&& 0 <= i && !old(self).pool()[i]
                    &&& final(self).pool() == old(self).pool().update(i, true)
                    &&& forall|k: int| 0 <= k < 512 ==> final(self).table(i)[k] == 0
                    &&& forall|j: int|
                        0 <= j < POOL_PAGES && j != i ==> final(self).tables@[j]
                            == old(self).tables@[j]
                } else {
                    &&& r == Err::<VirtualAddress, Error>(Error::ENOMEM)
                    &&& *final(self) == *old(self)
                }
            }),
    {
        proof {
            lemma_first_free(self.pool(), 0, POOL_PAGES as int);
        }
        let mut i: usize = 0;
        while i < POOL_PAGES
            invariant
                i <= POOL_PAGES,
                *self == *old(self),
                self.wf(),
                first_free(self.pool(), 0, POOL_PAGES as int) == first_free(
                    self.pool(),
                    i as int,
                    POOL_PAGES as int,
                ),
            decreases POOL_PAGES - i,
        {
            if !self.inuse[i] {
                self.inuse.set(i, true);
                self.tables.set(i, PageTable::new());
                assert(self.frames() == old(self).frames());
                let address: u64 = (i as u64) * PAGE_SIZE + PAGETABLE_VIRT;
                return Ok(VirtualAddress(address));
            }
            i += 1;
        }
        Err(Error::ENOMEM)
    }

    /// Returns the pool page holding `virt`.  Fails with `EFAULT` when
    /// `virt` is outside the pool window or its page is not in use.
    pub fn free_page(&mut self, virt: VirtualAddress) -> (r: Result<(), Error>)
        requires
            old(self).wf(),
        ensures
            final(self).wf(),
            final(self).same_but_pool(old(self)),
            final(self).tables@ == old(self).tables@,
            ({
                let i = pool_index_of(virt.0 as int);
                if in_pool_window(virt.0 as int) && old(self).pool()[i] {
                    &&& r == Ok::<(), Error>(())
                    &&& final(self).pool() == old(self).pool().update(i, false)
                } else {
                    &&& r == Err::<(), Error>(Error::EFAULT)
                    &&& *final(self) == *old(self)
                }
            }),
    {
        if virt.0 < PAGETABLE_VIRT {
            return Err(Error::EFAULT);
        }
        let index = (virt.0 - PAGETABLE_VIRT) / PAGE_SIZE;
        if index >= POOL_PAGES as u64 {
            return Err(Error::EFAULT);
        }
        let i = index as usize;
        if self.inuse[i] {
            self.inuse.set(i, false);
            assert(self.frames() == old(self).frames());
            return Ok(());
        }
        Err(Error::EFAULT)
    }

    /// Takes the first run of `count` free pool pages (first fit) and
    /// returns the kernel-virtual address of its first page.  The pages are
    /// not zeroed.
    pub fn alloc_contiguous(&mut self, count: usize) -> (r: Result<VirtualAddress, Error>)
        requires
            old(self).wf(),
        ensures
            final(self).wf(),
            final(self).same_but_pool(old(self)),
            final(self).tables@ == old(self).tables@,
            ({
                let i = first_run(old(self).pool(), count as int, 0);
                if i < POOL_PAGES {
                    &&& r == Ok::<VirtualAddress, Error>(VirtualAddress(pool_vaddr(i)))
                    &&& run_free(old(self).pool(), i, count as int)
                    &&& final(self).pool() == fill_range(old(self).pool(), i, i + count, true)
                } else {
                    &&& r == Err::<VirtualAddress, Error>(Error::ENOMEM)
                    &&& *final(self) == *old(self)
                }
            }),
    {
        proof {
            lemma_first_run(self.pool(), count as int, 0);
        }
        let mut i: usize = 0;
        while i < POOL_PAGES
            invariant
                i <= POOL_PAGES,
                *self == *old(self),
                self.wf(),
                first_run(self.pool(), count as int, 0) == first_run(
                    self.pool(),
                    count as int,
                    i as int,
                ),
            decreases POOL_PAGES - i,
        {
            // Look for a free run linearly
            if count <= POOL_PAGES - i {
                let end = i + count;
                let mut j: usize = i;
                while j < end && !self.inuse[j]
                    invariant
                        i <= j <= end,
                        end == i + count,
                        end <= POOL_PAGES,
                        self.wf(),
                        forall|k: int| i <= k < j ==> !self.pool()[k],
                    decreases end - j,
                {
                    j += 1;
                }
                if j == end {
                    assert(run_free(self.pool(), i as int, count as int));
                    let ghost before = self.pool();
                    let mut k: usize = i;
                    while k < end
                        invariant
                            i <= k <= end,
                            end == i + count,
                            end <= POOL_PAGES,
                            old(self).wf(),
                            self.wf(),
                            self.same_but_pool(old(self)),
                            self.tables@ == old(self).tables@,
                            self.pool() == fill_range(before, i as int, k as int, true),
                        decreases end - k,
                    {
                        self.inuse.set(k, true);
                        assert(self.frames() == old(self).frames());
                        assert(self.pool() =~= fill_range(before, i as int, k + 1, true));
                        k += 1;
                    }
                    let addr: u64 = (i as u64) * PAGE_SIZE + PAGETABLE_VIRT;
                    return Ok(VirtualAddress(addr));
                }
                assert(!run_free(self.pool(), i as int, count as int));
            }
            i += 1;
        }
        Err(Error::ENOMEM)
    }

    /// Returns `count` consecutive pool pages starting at the page of
    /// `addr`.  Stops with `EFAULT` at the first page that is outside the
    /// window or not in use; the pages before it stay released.
    pub fn free_contiguous(&mut self, addr: VirtualAddress, count: usize) -> (r: Result<(), Error>)
        requires
            old(self).wf(),
        ensures
            final(self).wf(),
            final(self).same_but_pool(old(self)),
            final(self).tables@ == old(self).tables@,
            ({
                let b = mask_low(addr.0, 12) as int;
                let i0 = pool_index_of(b);
                if count == 0 || (in_pool_window(b) && i0 + count <= POOL_PAGES && forall|m: int|
                    i0 <= m < i0 + count ==> old(self).pool()[m]) {
                    &&& r == Ok::<(), Error>(())
                    &&& final(self).pool() == fill_range(old(self).pool(), i0, i0 + count, false)
                } else {
                    &&& r == Err::<(), Error>(Error::EFAULT)
                    &&& exists|k: int|
                        #[trigger] stopped_at(old(self).pool(), final(self).pool(), b, k, count as int)
                }
            }),
    {
        let base = addr.mask(12);
        let ghost b = base as int;
        let ghost i0 = pool_index_of(b);
        proof {
            lemma_low_mask(addr.0);
            lemma_aligned_mod(base);
            if in_pool_window(b) {
                assert(b - PAGETABLE_VIRT == i0 * 4096);
            }
        }
        let mut k: usize = 0;
        while k < count
            invariant
                k <= count,
                self.wf(),
                self.same_but_pool(old(self)),
                self.tables@ == old(self).tables@,
                base as int == b,
                base == mask_low(addr.0, 12),
                i0 == pool_index_of(b),
                in_pool_window(b) ==> b - PAGETABLE_VIRT == i0 * 4096,
                k > 0 ==> in_pool_window(b) && i0 + k <= POOL_PAGES,
                forall|m: int| i0 <= m < i0 + k ==> old(self).pool()[m],
                self.pool() == fill_range(old(self).pool(), i0, i0 + k, false),
            decreases count - k,
        {
            let address = base + (k as u64) * PAGE_SIZE;
            let ghost a = address as int;
            proof {
                if in_pool_window(b) {
                    assert(a - PAGETABLE_VIRT == (i0 + k) * 4096) by (nonlinear_arith)
                        requires
                            a == b + k * 4096,
                            b - PAGETABLE_VIRT == i0 * 4096,
                    ;
                    assert(pool_index_of(a) == i0 + k) by (nonlinear_arith)
                        requires
                            a - PAGETABLE_VIRT == (i0 + k) * 4096,
                            pool_index_of(a) == (a - PAGETABLE_VIRT) / 4096,
                    ;
                }
            }
            let ghost prev = self.pool();
            match self.free_page(VirtualAddress(address)) {
                Err(e) => {
                    assert(!(in_pool_window(b) && i0 + k < POOL_PAGES && old(self).pool()[i0
                        + k]));
                    assert(self.pool() == fill_range(old(self).pool(), i0, i0 + k, false));
                    assert(forall|m: int| i0 <= m < i0 + k ==> old(self).pool()[m]);
                    assert(k > 0 ==> in_pool_window(b));
                    proof {
                        if in_pool_window(b) && i0 + count <= POOL_PAGES {
                            assert(!old(self).pool()[i0 + k]);
                        }
                        assert(!(count == 0 || (in_pool_window(b) && i0 + count <= POOL_PAGES
                            && forall|m: int| i0 <= m < i0 + count ==> old(self).pool()[m])));
                        assert(stopped_at(old(self).pool(), self.pool(), b, k as int, count as int));

                    }
                    return Err(e);
                },
                Ok(()) => {},
            }
            assert(self.pool() =~= fill_range(old(self).pool(), i0, i0 + k + 1, false));
            k += 1;
        }
        assert(self.pool() =~= fill_range(old(self).pool(), i0, i0 + count, false));
        Ok(())
    }

    /// Pool page holding kernel-virtual address `v`, if it is in the window.
    pub fn pool_index(v: VirtualAddress) -> (r: Option<usize>)
        ensures
            in_pool_window(v.0 as int) ==> r == Some(pool_index_of(v.0 as int) as usize),
            !in_pool_window(v.0 as int) ==> r == None::<usize>,
    {
        if v.0 < PAGETABLE_VIRT {
            return None;
        }
        let index = (v.0 - PAGETABLE_VIRT) / PAGE_SIZE;
        if index >= POOL_PAGES as u64 {
            return None;
        }
        Some(index as usize)
    }

    /// The page-table node held by pool page `i`.
    pub fn table_at(&self, i: usize) -> (r: &PageTable)
        requires
            self.wf(),
            i < POOL_PAGES,
        ensures
            *r == self.tables@[i as int],
    {
        &self.tables[i]
    }

    /// Maps `paddr` at entry `idx` of the node held by pool page `i`.
    pub fn map_at(
        &mut self,
        i: usize,
        idx: usize,
        paddr: PhysicalAddress,
        rw: bool,
        user: bool,
        ps: bool,
    ) -> (r: bool)
        requires
            old(self).wf(),
            i < POOL_PAGES,
            idx < 512,
        ensures
            final(self).wf(),
            final(self).same_but_pool(old(self)),
            final(self).inuse@ == old(self).inuse@,
            r == !present_entry(old(self).table(i as int)[idx as int]),
            r ==> final(self).tables@ == old(self).tables@.update(
                i as int,
                PageTable { v: final(self).tables@[i as int].v },
            ),
            r ==> final(self).table(i as int) == old(self).table(i as int).update(
                idx as int,
                make_entry(paddr.0, rw, user, ps),
            ),
            !r ==> *final(self) == *old(self),
    {
        let mut t = self.tables[i];
        let r = t.map(idx, paddr, rw, user, ps);
        if r {
            self.tables.set(i, t);
            assert(self.frames() == old(self).frames());
        }
        r
    }

    /// Installs the shared kernel PDPT at entry 511 of the node held by
    /// pool page `i`.
    pub fn map_kernel_at(&mut self, i: usize) -> (r: bool)
        requires
            old(self).wf(),
            i < POOL_PAGES,
        ensures
            final(self).wf(),
            final(self).same_but_pool(old(self)),
            final(self).inuse@ == old(self).inuse@,
            r == !present_entry(old(self).table(i as int)[511]),
            r ==> final(self).tables@ == old(self).tables@.update(
                i as int,
                PageTable { v: final(self).tables@[i as int].v },
            ),
            r ==> final(self).table(i as int) == old(self).table(i as int).update(
                511,
                make_entry(old(self).kernel_pdpt, true, false, false),
            ),
            !r ==> *final(self) == *old(self),
    {
        let mut t = self.tables[i];
        let r = t.map_kernel(PhysicalAddress(self.kernel_pdpt));
        if r {
            self.tables.set(i, t);
            assert(self.frames() == old(self).frames());
        }
        r
    }
}

/// Pool grants never overlap and stay in the window: a run of `n` pages
/// from `i` that `alloc_page` (`n == 1`) or `alloc_contiguous` grants from
/// pool state `s` was entirely free there, so it shares no page with any
/// run from `j` of `m` pages still in use in `s`; each of its pages is
/// page-aligned and inside `[PAGETABLE_VIRT, PAGETABLE_VIRT + 4 MiB)`.
pub proof fn lemma_pool_grant(s: Seq<bool>, i: int, n: int, j: int, m: int)
    requires
        s.len() == POOL_PAGES,
        run_free(s, i, n),
        forall|q: int| j <= q < j + m ==> #[trigger] s[q],
    ensures
        n <= 0 || m <= 0 || i + n <= j || j + m <= i,
        forall|q: int|
            i <= q < i + n ==> in_pool_window(#[trigger] pool_vaddr(q) as int) && pool_vaddr(q) % 4096
                == 0,
{
    assert forall|q: int| i <= q < i + n implies in_pool_window(#[trigger] pool_vaddr(q) as int)
        && pool_vaddr(q) % 4096 == 0 by {
        crate::bits::lemma_frame_address((0xF_FFFF_FFF8_0600 + q) as u64);
        lemma_aligned_mod(pool_vaddr(q));
    }
    if !(n <= 0 || m <= 0 || i + n <= j || j + m <= i) {
        let q = if i > j { i } else { j };
        assert(s[q]);
    }
}

} // verus!
