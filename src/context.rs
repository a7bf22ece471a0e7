//! Per-task CPU context and address space.
//!
//! An address space is a chain of four page-table nodes drawn from the
//! pool: the PML4, whose entry 0 leads to the task's own PDPT and whose
//! entry 511 to the kernel PDPT shared by all tasks; the PDPT, whose entry 0
//! leads to the PD; the PD, whose entry 0 leads to the PT.  The PT is the
//! task's only user page table and covers `[0, 2 MiB)`.  Each context also
//! owns a kernel stack of four contiguous pool pages.
use crate::bits::{lemma_aligned_mod, lemma_frame_address, lemma_low_mask};
use crate::error::Error;
use crate::gdt::{GDT_64_USER_CODE, GDT_64_USER_DATA};
use crate::mmu::{
    fill_range, entry_address, first_free, first_run, in_pool_window, kernel_virt, large_entry,
    lemma_first_free, lemma_first_run, lemma_make_entry, make_entry, pool_index_of, pool_paddr,
    pool_vaddr, present_entry, PhysicalAddress, VirtualAddress, INITIAL_MAPPED, KERNEL_BASE,
    MAX_MAPPED, MEMORY_SIZE, MMU, PAGETABLE_PHYS, PAGETABLE_VIRT, PAGE_SIZE, POOL_PAGES,
};
use vstd::prelude::*;

verus! {

/// Pages of the kernel stack.
pub const KERNEL_STACK_PAGES: usize = 4;
/// Pages of the user stack, mapped at the top of the user range.
pub const USER_STACK_PAGES: usize = 4;
/// Initial user stack pointer.
pub const USER_STACK_TOP: u64 = 0x1F_F000;
/// End of the user virtual range covered by the task's page table.
pub const USER_END: u64 = 0x20_0000;
/// RFLAGS of a new user context: interrupts enabled (IF), IOPL 0.
pub const RFLAGS_USER: u64 = 0x200;

/// General purpose registers, all but RSP and RBP.
#[derive(Clone, Copy, Debug, PartialEq, Eq, Structural)]
pub struct GPR {
    pub rax: u64,
    pub rcx: u64,
    pub rdx: u64,
    pub rbx: u64,
    pub rsi: u64,
    pub rdi: u64,
    pub r8: u64,
    pub r9: u64,
    pub r10: u64,
    pub r11: u64,
    pub r12: u64,
    pub r13: u64,
    pub r14: u64,
    pub r15: u64,
}

/// Segment registers, each widened to 64 bits.
#[derive(Clone, Copy, Debug, PartialEq, Eq, Structural)]
pub struct SR {
    pub cs: u64,
    pub ds: u64,
    pub es: u64,
    pub fs: u64,
    pub gs: u64,
    pub ss: u64,
}

/// What the interrupt prologue saves on the kernel stack, in its order.
#[derive(Clone, Copy, Debug, PartialEq, Eq, Structural)]
pub struct CapturedContext {
    pub cr3: u64,
    pub rbp: u64,
    pub gs: u64,
    pub fs: u64,
    pub es: u64,
    pub ds: u64,
    pub gpr: GPR,
    /// Return address into the prologue.
    pub reserved_0: u64,
    /// Interrupt vector.
    pub reserved_1: u64,
    /// Error code.
    pub reserved_2: u64,
    pub rip: u64,
    pub cs: u64,
    pub rflags: u64,
    pub rsp: u64,
    pub ss: u64,
}

/// Pool pages that make up one address space and its kernel stack.
pub struct SpaceLayout {
    pub pml4: nat,
    pub pdpt: nat,
    pub pd: nat,
    pub pt: nat,
    pub stack: nat,
}

/// Saved CPU state of one task, with its address space and kernel stack.
pub struct Context {
    pub rflags: u64,
    pub cr3: u64,
    pub rsp: u64,
    pub rip: u64,
    pub rbp: u64,
    pub page_table: VirtualAddress,
    pub kernel_stack: VirtualAddress,
    pub gpr: GPR,
    pub sr: SR,
    pub layout: Ghost<SpaceLayout>,
}

/// Entry that links a node to the next-level node at physical `paddr`.
pub open spec fn link_entry(paddr: u64) -> u64 {
    make_entry(paddr, true, true, false)
}

/// Entry that maps user frame `p` read-write.
pub open spec fn leaf_entry(p: int) -> u64 {
    make_entry((p * 4096) as u64, true, true, false)
}

/// Frame mapped by a user page-table entry.
pub open spec fn entry_frame(e: u64) -> int {
    (e >> 12u64) as int
}

/// The pages of `l` are in the pool and pairwise distinct.
pub open spec fn layout_ok(l: SpaceLayout) -> bool {
    &&& l.pml4 < POOL_PAGES && l.pdpt < POOL_PAGES && l.pd < POOL_PAGES && l.pt < POOL_PAGES
    &&& l.stack + KERNEL_STACK_PAGES <= POOL_PAGES
    &&& l.pml4 != l.pdpt && l.pml4 != l.pd && l.pml4 != l.pt
    &&& l.pdpt != l.pd && l.pdpt != l.pt && l.pd != l.pt
    &&& !(l.stack <= l.pml4 < l.stack + KERNEL_STACK_PAGES)
    &&& !(l.stack <= l.pdpt < l.stack + KERNEL_STACK_PAGES)
    &&& !(l.stack <= l.pd < l.stack + KERNEL_STACK_PAGES)
    &&& !(l.stack <= l.pt < l.stack + KERNEL_STACK_PAGES)
}

/// Whether pool page `i` belongs to layout `l`.
pub open spec fn owns_page(l: SpaceLayout, i: int) -> bool {
    i == l.pml4 || i == l.pdpt || i == l.pd || i == l.pt || (l.stack <= i
        < l.stack + KERNEL_STACK_PAGES)
}

/// Frames mapped by the present entries among the first `n` of `pt`.
pub open spec fn pt_frames(pt: Seq<u64>, n: int) -> Set<int>
    decreases n,
{
    if n <= 0 {
        Set::empty()
    } else if present_entry(pt[n - 1]) {
        pt_frames(pt, n - 1).insert(entry_frame(pt[n - 1]))
    } else {
        pt_frames(pt, n - 1)
    }
}

/// Whether the entries of `pt` map distinct, allocated user frames.
pub open spec fn user_table_ok(mmu: &MMU, pt: Seq<u64>) -> bool {
    &&& pt.len() == 512
    &&& forall|k: int|
        0 <= k < 512 && #[trigger] present_entry(pt[k]) ==> {
            &&& INITIAL_MAPPED <= entry_frame(pt[k]) < MAX_MAPPED
            &&& pt[k] == leaf_entry(entry_frame(pt[k]))
            &&& mmu.frames()[entry_frame(pt[k])]
        }
    &&& forall|k1: int, k2: int|
        0 <= k1 < 512 && 0 <= k2 < 512 && k1 != k2 && present_entry(pt[k1]) && present_entry(
            pt[k2],
        ) ==> #[trigger] entry_frame(pt[k1]) != #[trigger] entry_frame(pt[k2])
}

/// Pool page of the node that entry `e` links to, if it links into the pool.
pub open spec fn child_index(e: u64) -> Option<int> {
    if present_entry(e) && !large_entry(e) && in_pool_window(kernel_virt(entry_address(e)) as int) {
        Some(pool_index_of(kernel_virt(entry_address(e)) as int))
    } else {
        None
    }
}

/// Physical address that `v` translates to under the PML4 held by pool
/// page `root`, walking the nodes held in the pool.
pub open spec fn translate(mmu: &MMU, root: int, v: u64) -> Option<int> {
    match child_index(mmu.table(root)[((v >> 39u64) & 0x1ffu64) as int]) {
        Some(i3) => match child_index(mmu.table(i3)[((v >> 30u64) & 0x1ffu64) as int]) {
            Some(i2) => match child_index(mmu.table(i2)[((v >> 21u64) & 0x1ffu64) as int]) {
                Some(i1) => {
                    let e = mmu.table(i1)[((v >> 12u64) & 0x1ffu64) as int];
                    if present_entry(e) {
                        Some(entry_address(e) + (v & 0xfffu64))
                    } else {
                        None
                    }
                },
                None => None,
            },
            None => None,
        },
        None => None,
    }
}

/// Physical address that `v` translates to in the address space whose
/// PML4 is at kernel-virtual address `pml4`.
pub open spec fn space_translate(mmu: &MMU, pml4: u64, v: u64) -> Option<int> {
    if in_pool_window(pml4 as int) {
        translate(mmu, pool_index_of(pml4 as int), v)
    } else {
        None
    }
}

pub proof fn lemma_pool_address(i: int)
    requires
        0 <= i < POOL_PAGES,
    ensures
        pool_paddr(i) & 0xfffu64 == 0,
        pool_paddr(i) == PAGETABLE_PHYS + i * 4096,
        pool_vaddr(i) == PAGETABLE_VIRT + i * 4096,
        pool_vaddr(i) == pool_paddr(i) + KERNEL_BASE,
        in_pool_window(pool_vaddr(i) as int),
        pool_index_of(pool_vaddr(i) as int) == i,
        pool_vaddr(i) & 0xfffu64 == 0,
        crate::mmu::mask_low(pool_vaddr(i), 12) == pool_vaddr(i),
{
    lemma_frame_address((1536 + i) as u64);
    lemma_frame_address((0xF_FFFF_FFF8_0600 + i) as u64);
    lemma_low_mask(pool_vaddr(i));
    crate::bits::lemma_entry_fields(pool_vaddr(i), 0);
    assert(pool_index_of(pool_vaddr(i) as int) == i) by (nonlinear_arith)
        requires
            pool_vaddr(i) == PAGETABLE_VIRT + i * 4096,
            pool_index_of(pool_vaddr(i) as int) == (pool_vaddr(i) - PAGETABLE_VIRT) / 4096,
    ;
}

/// A link to pool page `i` leads back to `i`.
pub proof fn lemma_link_child(i: int)
    requires
        0 <= i < POOL_PAGES,
    ensures
        child_index(link_entry(pool_paddr(i))) == Some(i),
        present_entry(link_entry(pool_paddr(i))),
{
    lemma_pool_address(i);
    lemma_make_entry(pool_paddr(i), true, true, false);
    lemma_low_mask(pool_paddr(i));
    crate::bits::lemma_entry_fields(pool_paddr(i), 0);
}

/// Facts about the entry that maps user frame `p`.
pub proof fn lemma_leaf(p: int)
    requires
        0 <= p < MAX_MAPPED,
    ensures
        present_entry(leaf_entry(p)),
        entry_frame(leaf_entry(p)) == p,
        entry_address(leaf_entry(p)) == p * 4096,
{
    lemma_frame_address(p as u64);
    lemma_make_entry((p * 4096) as u64, true, true, false);
    crate::bits::lemma_entry_fields((p * 4096) as u64, 0);
}

/// A frame is in `pt_frames` exactly when a present entry maps it.
pub proof fn lemma_pt_frames(pt: Seq<u64>, n: int, p: int)
    requires
        0 <= n <= pt.len(),
    ensures
        pt_frames(pt, n).contains(p) <==> exists|k: int|
            0 <= k < n && present_entry(pt[k]) && #[trigger] entry_frame(pt[k]) == p,
    decreases n,
{
    if n > 0 {
        lemma_pt_frames(pt, n - 1, p);
        if pt_frames(pt, n).contains(p) && !pt_frames(pt, n - 1).contains(p) {
            assert(present_entry(pt[n - 1]) && entry_frame(pt[n - 1]) == p);
        }
    }
}

pub proof fn lemma_pt_frames_finite(pt: Seq<u64>, n: int)
    ensures
        pt_frames(pt, n).finite(),
    decreases n,
{
    if n > 0 {
        lemma_pt_frames_finite(pt, n - 1);
    }
}

/// Frames that user addresses below 2 MiB reach walk through entry 0 of
/// the upper three levels.
pub proof fn lemma_user_indices(v: u64)
    requires
        v < USER_END,
    ensures
        (v >> 39u64) & 0x1ffu64 == 0,
        (v >> 30u64) & 0x1ffu64 == 0,
        (v >> 21u64) & 0x1ffu64 == 0,
        (v & 0xfffu64) < 4096,
{
    assert((v >> 39u64) & 0x1ffu64 == 0 && (v >> 30u64) & 0x1ffu64 == 0 && (v >> 21u64) & 0x1ffu64
        == 0 && (v & 0xfffu64) < 4096) by (bit_vector)
        requires
            v < 0x20_0000,
    ;
}

impl Context {
    /// Whether this context's address space and kernel stack are laid out
    /// in `mmu` as described at the top of this module.
    pub open spec fn wf(&self, mmu: &MMU) -> bool {
        let l = self.layout@;
        let pt = mmu.table(l.pt as int);
        &&& mmu.wf()
        &&& layout_ok(l)
        &&& forall|i: int| 0 <= i < POOL_PAGES && #[trigger] owns_page(l, i) ==> mmu.pool()[i]
        &&& self.page_table.0 == pool_vaddr(l.pml4 as int)
        &&& self.kernel_stack.0 == pool_vaddr(l.stack as int)
        &&& mmu.table(l.pml4 as int)[0] == link_entry(pool_paddr(l.pdpt as int))
        &&& mmu.table(l.pml4 as int)[511] == make_entry(mmu.kernel_pdpt, true, false, false)
        &&& mmu.table(l.pdpt as int)[0] == link_entry(pool_paddr(l.pd as int))
        &&& mmu.table(l.pd as int)[0] == link_entry(pool_paddr(l.pt as int))
        &&& user_table_ok(mmu, pt)
    }

    /// User frames mapped by this context's page table.
    pub open spec fn frames(&self, mmu: &MMU) -> Set<int> {
        pt_frames(mmu.table(self.layout@.pt as int), 512)
    }

    /// Whether `pool` and `tables` agree with `mmu` on this context's pages.
    pub open spec fn pages_kept(&self, mmu: &MMU, o: &MMU) -> bool {
        forall|i: int|
            0 <= i < POOL_PAGES && #[trigger] owns_page(self.layout@, i) ==> o.pool()[i]
                && o.tables@[i] == mmu.tables@[i]
    }
}

/// A context stays well formed in a new memory state that keeps its pages
/// and nodes, still has its frames allocated, and shares the kernel PDPT.
pub proof fn lemma_context_kept(c: &Context, m1: &MMU, m2: &MMU)
    requires
        c.wf(m1),
        m2.wf(),
        c.pages_kept(m1, m2),
        m2.kernel_pdpt == m1.kernel_pdpt,
        forall|p: int| c.frames(m1).contains(p) ==> #[trigger] m2.frames()[p],
    ensures
        c.wf(m2),
        c.frames(m2) == c.frames(m1),
{
    let l = c.layout@;
    assert(owns_page(l, l.pml4 as int));
    assert(owns_page(l, l.pdpt as int));
    assert(owns_page(l, l.pd as int));
    assert(owns_page(l, l.pt as int));
    let pt = m1.table(l.pt as int);
    assert forall|k: int| 0 <= k < 512 && #[trigger] present_entry(pt[k]) implies m2.frames()[entry_frame(pt[k])] by {
        lemma_pt_frames(pt, 512, entry_frame(pt[k]));
    }
}

/// Pool state after `n` successive single-page allocations from `s`.
pub open spec fn take_pages(s: Seq<bool>, n: nat) -> Seq<bool>
    decreases n,
{
    if n == 0 {
        s
    } else {
        let t = take_pages(s, (n - 1) as nat);
        let i = first_free(t, 0, POOL_PAGES as int);
        if i < POOL_PAGES {
            t.update(i, true)
        } else {
            t
        }
    }
}

/// Pool page handed out by the `n`-th single-page allocation from `s`
/// (`POOL_PAGES` when it fails).
pub open spec fn nth_page(s: Seq<bool>, n: nat) -> int {
    first_free(take_pages(s, n), 0, POOL_PAGES as int)
}

/// First page of the kernel stack taken after the four nodes.
pub open spec fn stack_page(s: Seq<bool>) -> int {
    first_run(take_pages(s, 4), KERNEL_STACK_PAGES as int, 0)
}

/// Frame bitmap after `n` successive frame allocations from `f`.
pub open spec fn take_frames(f: Seq<bool>, n: nat) -> Seq<bool>
    decreases n,
{
    if n == 0 {
        f
    } else {
        let g = take_frames(f, (n - 1) as nat);
        let p = first_free(g, INITIAL_MAPPED as int, MAX_MAPPED as int);
        if p < MAX_MAPPED {
            g.update(p, true)
        } else {
            g
        }
    }
}

/// Frame handed out by the `n`-th frame allocation from `f` (`MAX_MAPPED`
/// when it fails).
pub open spec fn nth_frame(f: Seq<bool>, n: nat) -> int {
    first_free(take_frames(f, n), INITIAL_MAPPED as int, MAX_MAPPED as int)
}

/// Whether `Context::new` finds everything it needs in `mmu`: four free
/// pool pages for the nodes, then a free run of four for the kernel stack,
/// and four free frames for the user stack.
pub open spec fn can_create(mmu: &MMU) -> bool {
    let s = mmu.pool();
    let f = mmu.frames();
    &&& nth_page(s, 0) < POOL_PAGES
    &&& nth_page(s, 1) < POOL_PAGES
    &&& nth_page(s, 2) < POOL_PAGES
    &&& nth_page(s, 3) < POOL_PAGES
    &&& stack_page(s) < POOL_PAGES
    &&& nth_frame(f, 0) < MAX_MAPPED
    &&& nth_frame(f, 1) < MAX_MAPPED
    &&& nth_frame(f, 2) < MAX_MAPPED
    &&& nth_frame(f, 3) < MAX_MAPPED
}

pub open spec fn zero_gpr() -> GPR {
    GPR {
        rax: 0,
        rcx: 0,
        rdx: 0,
        rbx: 0,
        rsi: 0,
        rdi: 0,
        r8: 0,
        r9: 0,
        r10: 0,
        r11: 0,
        r12: 0,
        r13: 0,
        r14: 0,
        r15: 0,
    }
}

/// User-ring selectors: user code for CS, user data for the others.
pub open spec fn user_segments() -> SR {
    let code = (GDT_64_USER_CODE | 3) as u64;
    let data = (GDT_64_USER_DATA | 3) as u64;
    SR { cs: code, ds: data, es: data, fs: data, gs: data, ss: data }
}

/// `c` is the context that `Context::new` builds from `m0`, leaving `m1`.
pub open spec fn created(m0: &MMU, m1: &MMU, c: Context) -> bool {
    let l = c.layout@;
    let s = m0.pool();
    let f = m0.frames();
    &&& c.wf(m1)
    &&& l.pml4 == nth_page(s, 0) && l.pdpt == nth_page(s, 1) && l.pd == nth_page(s, 2)
    &&& l.pt == nth_page(s, 3) && l.stack == stack_page(s)
    &&& forall|i: int| 0 <= i < POOL_PAGES && #[trigger] owns_page(l, i) ==> !m0.pool()[i]
    &&& forall|i: int|
        0 <= i < POOL_PAGES ==> #[trigger] m1.pool()[i] == (m0.pool()[i] || owns_page(l, i))
    &&& forall|i: int|
        0 <= i < POOL_PAGES && !owns_page(l, i) ==> #[trigger] m1.tables@[i] == m0.tables@[i]
    &&& m1.frames() == take_frames(f, 4)
    &&& forall|q: int|
        #[trigger] c.frames(m1).contains(q) ==> INITIAL_MAPPED <= q < MAX_MAPPED && !m0.frames()[q]
    &&& forall|q: int|
        0 <= q < MAX_MAPPED ==> #[trigger] m1.frames()[q] == (m0.frames()[q] || c.frames(m1).contains(q))
    &&& forall|k: int|
        0 <= k < 512 ==> #[trigger] m1.table(l.pt as int)[k] == if k >= 508 {
            leaf_entry(nth_frame(f, (511 - k) as nat))
        } else {
            0u64
        }
    &&& forall|k: int|
        0 < k < 511 ==> #[trigger] m1.table(l.pml4 as int)[k] == 0 && m1.table(l.pdpt as int)[k]
            == 0 && m1.table(l.pd as int)[k] == 0
    &&& m1.table(l.pdpt as int)[511] == 0 && m1.table(l.pd as int)[511] == 0
    &&& c.cr3 == pool_paddr(l.pml4 as int)
    &&& c.rflags == RFLAGS_USER && c.rsp == USER_STACK_TOP && c.rip == 0 && c.rbp == 0
    &&& c.gpr == zero_gpr() && c.sr == user_segments()
}

/// A failed `Context::new` left the allocators as they were.
pub open spec fn failed_cleanly(m0: &MMU, m1: &MMU) -> bool {
    &&& m1.pool() == m0.pool()
    &&& m1.frames() == m0.frames()
    &&& forall|i: int| 0 <= i < POOL_PAGES && m0.pool()[i] ==> #[trigger] m1.tables@[i] == m0.tables@[i]
}

pub proof fn lemma_take_pages(s: Seq<bool>, n: nat)
    requires
        s.len() == POOL_PAGES,
    ensures
        take_pages(s, n).len() == POOL_PAGES,
        forall|i: int| 0 <= i < POOL_PAGES && s[i] ==> #[trigger] take_pages(s, n)[i],
        forall|j: nat|
            j < n && nth_page(s, j) < POOL_PAGES ==> #[trigger] take_pages(s, n)[nth_page(s, j)],
        nth_page(s, n) < POOL_PAGES ==> !take_pages(s, n)[nth_page(s, n)] && 0 <= nth_page(s, n),
    decreases n,
{
    lemma_first_free(take_pages(s, n), 0, POOL_PAGES as int);
    if n > 0 {
        lemma_take_pages(s, (n - 1) as nat);
        lemma_first_free(take_pages(s, (n - 1) as nat), 0, POOL_PAGES as int);
        assert forall|j: nat| j < n && nth_page(s, j) < POOL_PAGES implies #[trigger] take_pages(
            s,
            n,
        )[nth_page(s, j)] by {
            lemma_first_free(take_pages(s, j), 0, POOL_PAGES as int);
            if j < n - 1 {
                assert(take_pages(s, (n - 1) as nat)[nth_page(s, j)]);
            }
        }
    }
}

pub proof fn lemma_take_frames(f: Seq<bool>, n: nat)
    requires
        f.len() == MAX_MAPPED,
    ensures
        take_frames(f, n).len() == MAX_MAPPED,
        forall|i: int| 0 <= i < MAX_MAPPED && f[i] ==> #[trigger] take_frames(f, n)[i],
        forall|j: nat|
            j < n && nth_frame(f, j) < MAX_MAPPED ==> #[trigger] take_frames(f, n)[nth_frame(f, j)],
        nth_frame(f, n) < MAX_MAPPED ==> !take_frames(f, n)[nth_frame(f, n)] && INITIAL_MAPPED
            <= nth_frame(f, n),
        forall|p: int|
            0 <= p < MAX_MAPPED ==> #[trigger] take_frames(f, n)[p] == (f[p] || exists|j: nat|
                j < n && #[trigger] nth_frame(f, j) == p),
    decreases n,
{
    lemma_first_free(take_frames(f, n), INITIAL_MAPPED as int, MAX_MAPPED as int);
    if n > 0 {
        lemma_take_frames(f, (n - 1) as nat);
        lemma_first_free(take_frames(f, (n - 1) as nat), INITIAL_MAPPED as int, MAX_MAPPED as int);
        assert forall|j: nat| j < n && nth_frame(f, j) < MAX_MAPPED implies #[trigger] take_frames(
            f,
            n,
        )[nth_frame(f, j)] by {
            lemma_first_free(take_frames(f, j), INITIAL_MAPPED as int, MAX_MAPPED as int);
            if j < n - 1 {
                assert(take_frames(f, (n - 1) as nat)[nth_frame(f, j)]);
            }
        }
        assert forall|p: int| 0 <= p < MAX_MAPPED implies #[trigger] take_frames(f, n)[p] == (f[p]
            || exists|j: nat| j < n && #[trigger] nth_frame(f, j) == p) by {
            if take_frames(f, n)[p] && !f[p] {
                if take_frames(f, (n - 1) as nat)[p] {
                    let j = choose|j: nat| j < n - 1 && #[trigger] nth_frame(f, j) == p;
                    assert(j < n && nth_frame(f, j) == p);
                } else {
                    assert(nth_frame(f, (n - 1) as nat) == p);
                }
            }
            if exists|j: nat| j < n && #[trigger] nth_frame(f, j) == p {
                let j = choose|j: nat| j < n && #[trigger] nth_frame(f, j) == p;
                assert(take_frames(f, n)[nth_frame(f, j)]);
            }
        }
    }
}

/// Pool page of the node that entry `idx` of the node at pool page `i`
/// links to.
fn child(mmu: &MMU, i: usize, idx: usize) -> (r: Option<usize>)
    requires
        mmu.wf(),
        i < POOL_PAGES,
        idx < 512,
    ensures
        match child_index(mmu.table(i as int)[idx as int]) {
            Some(c) => r == Some(c as usize) && 0 <= c < POOL_PAGES,
            None => r == None::<usize>,
        },
{
    match mmu.table_at(i).next(idx) {
        Ok(v) => MMU::pool_index(v),
        Err(_) => None,
    }
}

/// Releases every frame mapped by the node held by pool page `pt`.
fn free_user_frames(mmu: &mut MMU, pt: usize)
    requires
        old(mmu).wf(),
        pt < POOL_PAGES,
        user_table_ok(old(mmu), old(mmu).table(pt as int)),
    ensures
        final(mmu).wf(),
        final(mmu).same_but_frames(old(mmu)),
        final(mmu).frames() == Seq::new(
            MAX_MAPPED as nat,
            |p: int| old(mmu).frames()[p] && !pt_frames(old(mmu).table(pt as int), 512).contains(p),
        ),
{
    let ghost t = old(mmu).table(pt as int);
    let mut k: usize = 0;
    assert(mmu.frames() =~= Seq::new(
        MAX_MAPPED as nat,
        |p: int| old(mmu).frames()[p] && !pt_frames(t, 0).contains(p),
    ));
    while k < 512
        invariant
            k <= 512,
            pt < POOL_PAGES,
            mmu.wf(),
            mmu.same_but_frames(old(mmu)),
            old(mmu).wf(),
            t == old(mmu).table(pt as int),
            user_table_ok(old(mmu), t),
            mmu.frames() == Seq::new(
                MAX_MAPPED as nat,
                |p: int| old(mmu).frames()[p] && !pt_frames(t, k as int).contains(p),
            ),
        decreases 512 - k,
    {
        let e = mmu.table_at(pt).get(k);
        if e & 1 != 0 {
            let ghost f = entry_frame(e);
            proof {
                assert(present_entry(t[k as int]));
                lemma_leaf(f);
                lemma_frame_address(f as u64);
                lemma_pt_frames(t, k as int, f);
                lemma_make_entry((f * 4096) as u64, true, true, false);
                crate::bits::lemma_entry_fields((f * 4096) as u64, 0);
            }
            let a = PhysicalAddress::new(e).mask(12);
            proof {
                lemma_low_mask(e);
                assert(a == entry_address(e));
                assert(a >> 12 == f);
            }
            let _ = mmu.free_phys(PhysicalAddress::new(a));
        }
        assert(mmu.frames() =~= Seq::new(
            MAX_MAPPED as nat,
            |p: int| old(mmu).frames()[p] && !pt_frames(t, k + 1).contains(p),
        ));
        k += 1;
    }
}

impl Context {
    /// Builds a fresh user context: allocates and links PML4, PDPT, PD and
    /// PT, shares the kernel half at PML4 entry 511, takes a four-page
    /// kernel stack and maps a four-page user stack ending at 2 MiB.  On
    /// failure every page and frame taken so far is given back.
    pub fn new(mmu: &mut MMU) -> (r: Result<Context, Error>)
        requires
            old(mmu).wf(),
        ensures
            final(mmu).wf(),
            final(mmu).memory@ == old(mmu).memory@,
            final(mmu).kernel_pdpt == old(mmu).kernel_pdpt,
            can_create(old(mmu)) <==> r is Ok,
            match r {
                Ok(c) => created(old(mmu), final(mmu), c),
                Err(e) => e == Error::ENOMEM && failed_cleanly(old(mmu), final(mmu)),
            },
    {
        let ghost s = old(mmu).pool();
        let ghost f = old(mmu).frames();
        let ghost t0 = old(mmu).tables@;
        proof {
            lemma_take_pages(s, 0);
            lemma_take_pages(s, 1);
            lemma_take_pages(s, 2);
            lemma_take_pages(s, 3);
            lemma_take_pages(s, 4);
            lemma_take_frames(f, 0);
            lemma_take_frames(f, 1);
            lemma_take_frames(f, 2);
            lemma_take_frames(f, 3);
            lemma_take_frames(f, 4);
            assert(0u64 & 1u64 == 0) by (bit_vector);
        }
        let ghost a = nth_page(s, 0);
        let ghost b = nth_page(s, 1);
        let ghost c = nth_page(s, 2);
        let ghost d = nth_page(s, 3);
        // Page-table nodes
        let pml4_v = match mmu.alloc_page() {
            Ok(v) => v,
            Err(e) => {
                return Err(e);
            },
        };
        assert(mmu.pool() == take_pages(s, 1));
        assert(take_pages(s, 1)[a]);
        assert(forall|j: int| 0 <= j < POOL_PAGES && j != a ==> mmu.tables@[j] == t0[j]);
        let ghost ta = mmu.tables@[a];
        assert forall|k: int| 0 <= k < 512 implies ta.v@[k] == 0 by {
            assert(mmu.table(a)[k] == 0);
        }
        let pdpt_v = match mmu.alloc_page() {
            Ok(v) => v,
            Err(e) => {
                let _ = mmu.free_page(pml4_v);
                proof {
                    lemma_pool_address(a);
                }
                assert(mmu.pool() =~= s);
                return Err(e);
            },
        };
        assert(mmu.pool() == take_pages(s, 2));
        assert(take_pages(s, 2)[a] && take_pages(s, 2)[b]);
        assert(mmu.tables@[a] == ta);
        assert(forall|j: int| 0 <= j < POOL_PAGES && j != a && j != b ==> mmu.tables@[j] == t0[j]);
        let ghost tb = mmu.tables@[b];
        assert forall|k: int| 0 <= k < 512 implies tb.v@[k] == 0 by {
            assert(mmu.table(b)[k] == 0);
        }
        let pd_v = match mmu.alloc_page() {
            Ok(v) => v,
            Err(e) => {
                let _ = mmu.free_page(pml4_v);
                let _ = mmu.free_page(pdpt_v);
                proof {
                    lemma_pool_address(a);
                    lemma_pool_address(b);
                }
                assert(mmu.pool() =~= s);
                return Err(e);
            },
        };
        assert(mmu.pool() == take_pages(s, 3));
        assert(take_pages(s, 3)[a] && take_pages(s, 3)[b] && take_pages(s, 3)[c]);
        assert(mmu.tables@[a] == ta && mmu.tables@[b] == tb);
        assert(forall|j: int|
            0 <= j < POOL_PAGES && j != a && j != b && j != c ==> mmu.tables@[j] == t0[j]);
        let ghost tc = mmu.tables@[c];
        assert forall|k: int| 0 <= k < 512 implies tc.v@[k] == 0 by {
            assert(mmu.table(c)[k] == 0);
        }
        let pt_v = match mmu.alloc_page() {
            Ok(v) => v,
            Err(e) => {
                let _ = mmu.free_page(pml4_v);
                let _ = mmu.free_page(pdpt_v);
                let _ = mmu.free_page(pd_v);
                proof {
                    lemma_pool_address(a);
                    lemma_pool_address(b);
                    lemma_pool_address(c);
                }
                assert(mmu.pool() =~= s);
                return Err(e);
            },
        };
        assert(mmu.pool() == take_pages(s, 4));
        assert(take_pages(s, 4)[a] && take_pages(s, 4)[b] && take_pages(s, 4)[c] && take_pages(s, 4)[d]);
        assert(mmu.tables@[a] == ta && mmu.tables@[b] == tb && mmu.tables@[c] == tc);
        assert(forall|j: int|
            0 <= j < POOL_PAGES && j != a && j != b && j != c && j != d ==> mmu.tables@[j] == t0[j]);
        let ghost td = mmu.tables@[d];
        assert forall|k: int| 0 <= k < 512 implies td.v@[k] == 0 by {
            assert(mmu.table(d)[k] == 0);
        }
        proof {
            lemma_pool_address(a);
            lemma_pool_address(b);
            lemma_pool_address(c);
            lemma_pool_address(d);
        }
        let i4 = ((pml4_v.0 - PAGETABLE_VIRT) / PAGE_SIZE) as usize;
        let i3 = ((pdpt_v.0 - PAGETABLE_VIRT) / PAGE_SIZE) as usize;
        let i2 = ((pd_v.0 - PAGETABLE_VIRT) / PAGE_SIZE) as usize;
        let i1 = ((pt_v.0 - PAGETABLE_VIRT) / PAGE_SIZE) as usize;
        assert(i4 == a && i3 == b && i2 == c && i1 == d);
        let linked = mmu.map_kernel_at(i4);
        assert(linked);
        let linked = mmu.map_at(i4, 0, PhysicalAddress::new(pdpt_v.sub(KERNEL_BASE)), true, true, false);
        assert(linked);
        let linked = mmu.map_at(i3, 0, PhysicalAddress::new(pd_v.sub(KERNEL_BASE)), true, true, false);
        assert(linked);
        let linked = mmu.map_at(i2, 0, PhysicalAddress::new(pt_v.sub(KERNEL_BASE)), true, true, false);
        assert(linked);
        let cr3 = pml4_v.sub(KERNEL_BASE);
        assert(forall|j: int|
            0 <= j < POOL_PAGES && j != a && j != b && j != c && j != d ==> mmu.tables@[j] == t0[j]);
        // Kernel stack
        let kernel_stack = match mmu.alloc_contiguous(KERNEL_STACK_PAGES) {
            Ok(v) => v,
            Err(e) => {
                let _ = mmu.free_page(pml4_v);
                let _ = mmu.free_page(pdpt_v);
                let _ = mmu.free_page(pd_v);
                let _ = mmu.free_page(pt_v);
                assert(mmu.pool() =~= s);
                return Err(e);
            },
        };
        let ghost k0 = stack_page(s);
        proof {
            lemma_first_run(take_pages(s, 4), KERNEL_STACK_PAGES as int, 0);
            lemma_pool_address(k0);
        }
        let ghost l = SpaceLayout { pml4: a as nat, pdpt: b as nat, pd: c as nat, pt: d as nat, stack: k0 as nat };
        let ghost m_stack = *mmu;
        assert forall|i: int| 0 <= i < POOL_PAGES implies #[trigger] m_stack.pool()[i] == (s[i]
            || owns_page(l, i)) by {}
        assert(take_pages(s, 0) == s);
        assert(layout_ok(l));
        assert forall|i: int| 0 <= i < POOL_PAGES && #[trigger] owns_page(l, i) implies !s[i] by {
            if s[i] {
                assert(take_pages(s, 1)[i] && take_pages(s, 2)[i] && take_pages(s, 3)[i]
                    && take_pages(s, 4)[i]);
            }
        }
        proof {
            lemma_link_child(b);
            lemma_link_child(c);
            lemma_link_child(d);
            assert(m_stack.table(a)[0] == link_entry(pool_paddr(b)));
            assert(m_stack.table(a)[511] == make_entry(m_stack.kernel_pdpt, true, false, false));
            assert(m_stack.table(b)[0] == link_entry(pool_paddr(c)));
            assert(m_stack.table(c)[0] == link_entry(pool_paddr(d)));
            assert(m_stack.table(b)[511] == 0 && m_stack.table(c)[511] == 0);
            assert forall|k: int| 0 < k < 511 implies #[trigger] m_stack.table(a)[k] == 0
                && m_stack.table(b)[k] == 0 && m_stack.table(c)[k] == 0 by {}
            assert forall|k: int| 0 <= k < 512 implies #[trigger] m_stack.table(d)[k] == 0 by {}
            assert(forall|j: int|
                0 <= j < POOL_PAGES && !owns_page(l, j) ==> m_stack.tables@[j] == t0[j]);
        }
        let user_cs: u64 = (GDT_64_USER_CODE | 3) as u64;
        let user_ds: u64 = (GDT_64_USER_DATA | 3) as u64;
        let mut context = Context {
            rflags: RFLAGS_USER,
            cr3,
            rsp: 0,
            rip: 0,
            rbp: 0,
            page_table: pml4_v,
            kernel_stack,
            gpr: GPR {
                rax: 0,
                rcx: 0,
                rdx: 0,
                rbx: 0,
                rsi: 0,
                rdi: 0,
                r8: 0,
                r9: 0,
                r10: 0,
                r11: 0,
                r12: 0,
                r13: 0,
                r14: 0,
                r15: 0,
            },
            sr: SR { cs: user_cs, ds: user_ds, es: user_ds, fs: user_ds, gs: user_ds, ss: user_ds },
            layout: Ghost(l),
        };
        // User stack
        let mut i: usize = 0;
        while i < USER_STACK_PAGES
            invariant
                i <= USER_STACK_PAGES,
                mmu.wf(),
                old(mmu).wf(),
                s == old(mmu).pool(),
                f == old(mmu).frames(),
                t0 == old(mmu).tables@,
                a == nth_page(s, 0) && b == nth_page(s, 1) && c == nth_page(s, 2) && d == nth_page(s, 3),
                k0 == stack_page(s),
                0 <= k0 && k0 + KERNEL_STACK_PAGES <= POOL_PAGES,
                i4 == a && i3 == b && i2 == c && i1 == d,
                0 <= a < POOL_PAGES && 0 <= b < POOL_PAGES && 0 <= c < POOL_PAGES && 0 <= d < POOL_PAGES,
                l == context.layout@,
                l == (SpaceLayout { pml4: a as nat, pdpt: b as nat, pd: c as nat, pt: d as nat, stack: k0 as nat }),
                pml4_v.0 == pool_vaddr(a) && pdpt_v.0 == pool_vaddr(b) && pd_v.0 == pool_vaddr(c)
                    && pt_v.0 == pool_vaddr(d) && kernel_stack.0 == pool_vaddr(k0),
                mmu.pool() == m_stack.pool(),
                mmu.memory@ == old(mmu).memory@,
                mmu.kernel_pdpt == old(mmu).kernel_pdpt,
                forall|j: int| 0 <= j < POOL_PAGES && j != d ==> #[trigger] mmu.tables@[j] == m_stack.tables@[j],
                mmu.frames() == take_frames(f, i as nat),
                forall|j: nat| j < i ==> #[trigger] nth_frame(f, j) < MAX_MAPPED,
                forall|k: int|
                    0 <= k < 512 ==> #[trigger] mmu.table(d)[k] == if k >= 512 - i {
                        leaf_entry(nth_frame(f, (511 - k) as nat))
                    } else {
                        0u64
                    },
                forall|j: int| 0 <= j < POOL_PAGES ==> #[trigger] m_stack.pool()[j] == (s[j] || owns_page(l, j)),
                forall|j: int| 0 <= j < POOL_PAGES && #[trigger] owns_page(l, j) ==> !s[j],
                s.len() == POOL_PAGES,
                f.len() == MAX_MAPPED,
                layout_ok(l),
                forall|j: int|
                    0 <= j < POOL_PAGES && !owns_page(l, j) ==> #[trigger] m_stack.tables@[j] == t0[j],
            decreases USER_STACK_PAGES - i,
        {
            let ghost pt_now = mmu.table(d);
            proof {
                assert(0u64 & 1u64 == 0) by (bit_vector);
            }
            let ghost tables_before = mmu.tables@;
            let phys = match mmu.alloc_phys() {
                Ok(p) => p,
                Err(e) => {
                    assert(mmu.tables@ == tables_before);
                    proof {
                        lemma_stack_table(mmu, f, d, i as nat);
                    }
                    proof {
                        lemma_pool_address(a);
                        lemma_pool_address(b);
                        lemma_pool_address(c);
                        lemma_pool_address(d);
                        lemma_pool_address(k0);
                    }
                    free_user_frames(mmu, i1);
                    let ghost p0 = mmu.pool();
                    let _ = mmu.free_contiguous(kernel_stack, KERNEL_STACK_PAGES);
                    assert(mmu.pool() == fill_range(p0, k0, k0 + 4, false));
                    let _ = mmu.free_page(pml4_v);
                    let _ = mmu.free_page(pdpt_v);
                    let _ = mmu.free_page(pd_v);
                    let _ = mmu.free_page(pt_v);
                    assert(mmu.pool() == fill_range(p0, k0, k0 + 4, false).update(a, false).update(
                        b,
                        false,
                    ).update(c, false).update(d, false));
                    assert(p0 == m_stack.pool());
                    assert forall|j: int| 0 <= j < POOL_PAGES implies mmu.pool()[j] == s[j] by {
                        assert(m_stack.pool()[j] == (s[j] || owns_page(l, j)));
                        if owns_page(l, j) {
                            assert(!s[j]);
                        }
                    }
                    assert(mmu.pool() =~= s);
                    proof {
                        lemma_take_frames(f, i as nat);
                        lemma_untake_frames(f, i as nat);
                    }
                    assert(mmu.frames() =~= f);
                    return Err(e);
                },
            };
            assert(i1 as int == d);
            assert(mmu.table(d)[(511 - i) as int] == 0u64);
            assert(!present_entry(mmu.table(d)[(511 - i) as int]));
            let mapped = mmu.map_at(i1, 511 - i, phys, true, true, false);
            assert(mapped);
            assert forall|k: int|
                0 <= k < 512 implies #[trigger] mmu.table(d)[k] == if k >= 512 - (i + 1) {
                    leaf_entry(nth_frame(f, (511 - k) as nat))
                } else {
                    0u64
                } by {}
            i += 1;
        }
        context.rsp = USER_STACK_TOP;
        assert(context.cr3 == pool_paddr(a));
        proof {
            lemma_stack_table(mmu, f, d, 4);
            assert(context.wf(mmu));
            assert(mmu.tables@[a] == m_stack.tables@[a]);
            assert(mmu.tables@[b] == m_stack.tables@[b]);
            assert(mmu.tables@[c] == m_stack.tables@[c]);
            assert forall|j: int| 0 <= j < POOL_PAGES && !owns_page(l, j) implies #[trigger] mmu.tables@[j] == t0[j] by {
                assert(mmu.tables@[j] == m_stack.tables@[j]);
            }
            assert forall|k: int| 0 < k < 511 implies #[trigger] mmu.table(a)[k] == 0
                && mmu.table(b)[k] == 0 && mmu.table(c)[k] == 0 by {
                assert(m_stack.table(a)[k] == 0 && m_stack.table(b)[k] == 0 && m_stack.table(c)[k] == 0);
            }
            assert(mmu.frames() == take_frames(f, 4));
            assert(context.gpr == zero_gpr());
            assert(context.sr == user_segments());
            lemma_take_frames(f, 4);
            lemma_untake_frames(f, 4);
            assert forall|q: int| #[trigger] context.frames(mmu).contains(q) implies INITIAL_MAPPED
                <= q < MAX_MAPPED && !f[q] by {
                let j = choose|j: nat| j < 4 && #[trigger] nth_frame(f, j) == q;
                lemma_take_frames(f, j);
            }
            assert(m_stack.table(b)[511] == 0 && m_stack.table(c)[511] == 0);
            assert(mmu.table(b)[511] == 0 && mmu.table(c)[511] == 0);
            assert(forall|i: int| 0 <= i < POOL_PAGES && #[trigger] owns_page(l, i) ==> !s[i]);
            assert(forall|i: int|
                0 <= i < POOL_PAGES ==> #[trigger] mmu.pool()[i] == (s[i] || owns_page(l, i)));
            assert(forall|k: int|
                0 <= k < 512 ==> #[trigger] mmu.table(d)[k] == if k >= 508 {
                    leaf_entry(nth_frame(f, (511 - k) as nat))
                } else {
                    0u64
                });
        }
        Ok(context)
    }
}

proof fn lemma_untake_frames(f: Seq<bool>, n: nat)
    requires
        f.len() == MAX_MAPPED,
        forall|j: nat| j < n ==> #[trigger] nth_frame(f, j) < MAX_MAPPED,
    ensures
        forall|p: int|
            0 <= p < MAX_MAPPED && f[p] ==> !exists|j: nat| j < n && #[trigger] nth_frame(f, j) == p,
{
    assert forall|p: int| 0 <= p < MAX_MAPPED && f[p] implies !exists|j: nat|
        j < n && #[trigger] nth_frame(f, j) == p by {
        if exists|j: nat| j < n && #[trigger] nth_frame(f, j) == p {
            let j = choose|j: nat| j < n && #[trigger] nth_frame(f, j) == p;
            lemma_take_frames(f, j);
        }
    }
}

/// The user table that `Context::new` has filled with its first `n`
/// stack frames maps them, and only them, correctly.
proof fn lemma_stack_table(mmu: &MMU, f: Seq<bool>, d: int, n: nat)
    requires
        mmu.wf(),
        0 <= d < POOL_PAGES,
        n <= 4,
        f.len() == MAX_MAPPED,
        mmu.frames() == take_frames(f, n),
        forall|j: nat| j < n ==> #[trigger] nth_frame(f, j) < MAX_MAPPED,
        forall|k: int|
            0 <= k < 512 ==> #[trigger] mmu.table(d)[k] == if k >= 512 - n {
                leaf_entry(nth_frame(f, (511 - k) as nat))
            } else {
                0u64
            },
    ensures
        user_table_ok(mmu, mmu.table(d)),
        forall|p: int|
            pt_frames(mmu.table(d), 512).contains(p) <==> exists|j: nat|
                j < n && #[trigger] nth_frame(f, j) == p,
{
    assert(0u64 & 1u64 == 0) by (bit_vector);
    lemma_take_frames(f, n);
    let pt = mmu.table(d);
    assert forall|j: nat| j < n implies INITIAL_MAPPED <= #[trigger] nth_frame(f, j) && take_frames(f, n)[nth_frame(f, j)] by {
        lemma_take_frames(f, j);
    }
    assert forall|k: int| 0 <= k < 512 && #[trigger] present_entry(pt[k]) implies {
        &&& INITIAL_MAPPED <= entry_frame(pt[k]) < MAX_MAPPED
        &&& pt[k] == leaf_entry(entry_frame(pt[k]))
        &&& mmu.frames()[entry_frame(pt[k])]
    } by {
        let j = (511 - k) as nat;
        assert(nth_frame(f, j) < MAX_MAPPED);
        lemma_leaf(nth_frame(f, j));
    }
    assert forall|k1: int, k2: int|
        0 <= k1 < 512 && 0 <= k2 < 512 && k1 != k2 && present_entry(pt[k1]) && present_entry(
            pt[k2],
        ) implies #[trigger] entry_frame(pt[k1]) != #[trigger] entry_frame(pt[k2]) by {
        let j1 = (511 - k1) as nat;
        let j2 = (511 - k2) as nat;
        lemma_leaf(nth_frame(f, j1));
        lemma_leaf(nth_frame(f, j2));
        if j1 < j2 {
            lemma_take_frames(f, j2);
        } else {
            lemma_take_frames(f, j1);
        }
    }
    assert forall|p: int|
        pt_frames(pt, 512).contains(p) <==> exists|j: nat| j < n && #[trigger] nth_frame(f, j) == p by {
        lemma_pt_frames(pt, 512, p);
        if exists|j: nat| j < n && #[trigger] nth_frame(f, j) == p {
            let j = choose|j: nat| j < n && #[trigger] nth_frame(f, j) == p;
            let k = 511 - j;
            lemma_leaf(nth_frame(f, j));
            assert(present_entry(pt[k]) && entry_frame(pt[k]) == p);
        }
        if pt_frames(pt, 512).contains(p) {
            let k = choose|k: int| 0 <= k < 512 && present_entry(pt[k]) && #[trigger] entry_frame(pt[k]) == p;
            let j = (511 - k) as nat;
            lemma_leaf(nth_frame(f, j));
            assert(j < n && nth_frame(f, j) == p);
        }
    }
}

/// `c` with the registers captured in `ctx`.
pub open spec fn stored_context(c: Context, ctx: CapturedContext) -> Context {
    Context {
        rsp: ctx.rsp,
        rbp: ctx.rbp,
        cr3: ctx.cr3,
        rip: ctx.rip,
        rflags: ctx.rflags,
        sr: SR { cs: ctx.cs, ds: ctx.ds, es: ctx.es, fs: ctx.fs, gs: ctx.gs, ss: ctx.ss },
        gpr: ctx.gpr,
        ..c
    }
}

/// Presence flag of each entry of a node.
pub open spec fn presence(pt: Seq<u64>) -> Seq<bool> {
    Seq::new(512, |k: int| present_entry(pt[k]))
}

/// Page-table index that `Context::map` chooses for `address` in the user
/// table `pt`: the one that the address names, or, when that is 0, the
/// lowest empty entry from 1 on (512 when there is none).
pub open spec fn map_index(pt: Seq<u64>, address: u64) -> int {
    let t = ((address >> 12u64) & 0x1ffu64) as int;
    if t == 0 {
        first_free(presence(pt), 1, 512)
    } else {
        t
    }
}

/// Physical address computed by a walk, from a present leaf entry.
pub proof fn lemma_leaf_offset(e: u64, v: u64)
    ensures
        (e & !0xfffu64) + (v & 0xfffu64) <= u64::MAX,
{
    assert((e & !0xfffu64) <= 0xffff_ffff_ffff_f000u64 && (v & 0xfffu64) <= 0xfffu64) by (bit_vector);
}

/// Physical address that `vaddr` translates to in the address space whose
/// PML4 is at `pml4`.
fn walk(mmu: &MMU, pml4: VirtualAddress, vaddr: u64) -> (r: Option<u64>)
    requires
        mmu.wf(),
    ensures
        match space_translate(mmu, pml4.0, vaddr) {
            Some(pa) => r == Some(pa as u64) && pa <= u64::MAX,
            None => r == None::<u64>,
        },
{
    let root = match MMU::pool_index(pml4) {
        Some(i) => i,
        None => {
            return None;
        },
    };
    let v = VirtualAddress::new(vaddr);
    let i3 = match child(mmu, root, v.pml4_index()) {
        Some(i) => i,
        None => {
            return None;
        },
    };
    let i2 = match child(mmu, i3, v.dptr_index()) {
        Some(i) => i,
        None => {
            return None;
        },
    };
    let i1 = match child(mmu, i2, v.dir_index()) {
        Some(i) => i,
        None => {
            return None;
        },
    };
    let e = mmu.table_at(i1).get(v.table_index());
    if e & 1 == 0 {
        return None;
    }
    proof {
        lemma_leaf_offset(e, vaddr);
    }
    Some((e & !0xfff) + (vaddr & 0xfff))
}

impl MMU {
    /// Physical address that `addr` translates to in the address space
    /// whose PML4 is at kernel-virtual address `pml4`; fails with `EFAULT`
    /// when it is not mapped there.
    pub fn vtop(&self, pml4: VirtualAddress, addr: VirtualAddress) -> (r: Result<PhysicalAddress, Error>)
        requires
            self.wf(),
        ensures
            match space_translate(self, pml4.0, addr.0) {
                Some(pa) => r == Ok::<PhysicalAddress, Error>(PhysicalAddress(pa as u64)),
                None => r == Err::<PhysicalAddress, Error>(Error::EFAULT),
            },
    {
        match walk(self, pml4, addr.0) {
            Some(pa) => Ok(PhysicalAddress(pa)),
            None => Err(Error::EFAULT),
        }
    }
}

impl Context {
    /// Releases the kernel stack, every user frame mapped by the page
    /// table, then the PT, PD, PDPT and PML4 nodes.
    pub fn release(self, mmu: &mut MMU)
        requires
            self.wf(old(mmu)),
        ensures
            final(mmu).wf(),
            final(mmu).memory@ == old(mmu).memory@,
            final(mmu).kernel_pdpt == old(mmu).kernel_pdpt,
            final(mmu).tables@ == old(mmu).tables@,
            forall|i: int|
                0 <= i < POOL_PAGES ==> #[trigger] final(mmu).pool()[i] == (old(mmu).pool()[i]
                    && !owns_page(self.layout@, i)),
            forall|p: int|
                0 <= p < MAX_MAPPED ==> #[trigger] final(mmu).frames()[p] == (old(mmu).frames()[p]
                    && !self.frames(old(mmu)).contains(p)),
    {
        let ghost l = self.layout@;
        let ghost m0 = *mmu;
        proof {
            lemma_pool_address(l.pml4 as int);
            lemma_pool_address(l.pdpt as int);
            lemma_pool_address(l.pd as int);
            lemma_pool_address(l.pt as int);
            lemma_pool_address(l.stack as int);
            lemma_link_child(l.pdpt as int);
            lemma_link_child(l.pd as int);
            lemma_link_child(l.pt as int);
            assert(owns_page(l, l.pml4 as int) && owns_page(l, l.pdpt as int) && owns_page(l, l.pd as int) && owns_page(l, l.pt as int));
            assert(forall|m: int| l.stack <= m < l.stack + 4 ==> owns_page(l, m));
        }
        assert forall|m: int| l.stack <= m < l.stack + 4 implies m0.pool()[m] by {
            assert(owns_page(l, m));
        }
        // Kernel stack
        let _ = mmu.free_contiguous(self.kernel_stack, KERNEL_STACK_PAGES);
        let ghost p1 = mmu.pool();
        assert(p1 == fill_range(m0.pool(), l.stack as int, (l.stack + 4) as int, false));
        // Walk down to the user page table; the layout invariant links each
        // level to the next, so no step of the walk fails
        let pml4 = ((self.page_table.0 - PAGETABLE_VIRT) / PAGE_SIZE) as usize;
        let pdpt = match child(mmu, pml4, 0) {
            Some(i) => i,
            None => {
                proof {
                    assert(false);
                }
                return;
            },
        };
        let pd = match child(mmu, pdpt, 0) {
            Some(i) => i,
            None => {
                proof {
                    assert(false);
                }
                return;
            },
        };
        let pt = match child(mmu, pd, 0) {
            Some(i) => i,
            None => {
                proof {
                    assert(false);
                }
                return;
            },
        };
        // User frames, then the nodes, leaves first
        free_user_frames(mmu, pt);
        let _ = mmu.free_page(VirtualAddress::new((pt as u64) * PAGE_SIZE + PAGETABLE_VIRT));
        let _ = mmu.free_page(VirtualAddress::new((pd as u64) * PAGE_SIZE + PAGETABLE_VIRT));
        let _ = mmu.free_page(VirtualAddress::new((pdpt as u64) * PAGE_SIZE + PAGETABLE_VIRT));
        let _ = mmu.free_page(VirtualAddress::new((pml4 as u64) * PAGE_SIZE + PAGETABLE_VIRT));
        assert(pt == l.pt && pd == l.pd && pdpt == l.pdpt && pml4 == l.pml4);
        assert(mmu.pool() == p1.update(l.pt as int, false).update(l.pd as int, false).update(
            l.pdpt as int,
            false,
        ).update(l.pml4 as int, false));
        assert forall|i: int| 0 <= i < POOL_PAGES implies #[trigger] mmu.pool()[i] == (m0.pool()[i]
            && !owns_page(l, i)) by {}
    }

    /// Maps a fresh frame into the user page table and returns the user
    /// address it now backs.  With `address` naming page-table index 0 the
    /// lowest empty entry from 1 on is used, else the index that `address`
    /// names; fails with `ENOMEM` when that entry is taken, none is empty,
    /// or no frame is free.
    pub fn map(&self, mmu: &mut MMU, address: u64) -> (r: Result<u64, Error>)
        requires
            self.wf(old(mmu)),
        ensures
            final(mmu).wf(),
            self.wf(final(mmu)),
            final(mmu).pool() == old(mmu).pool(),
            final(mmu).memory@ == old(mmu).memory@,
            final(mmu).kernel_pdpt == old(mmu).kernel_pdpt,
            forall|j: int|
                0 <= j < POOL_PAGES && j != self.layout@.pt ==> #[trigger] final(mmu).tables@[j]
                    == old(mmu).tables@[j],
            ({
                let pt = old(mmu).table(self.layout@.pt as int);
                let idx = map_index(pt, address);
                let p = first_free(old(mmu).frames(), INITIAL_MAPPED as int, MAX_MAPPED as int);
                if idx >= 512 || present_entry(pt[idx]) || p >= MAX_MAPPED {
                    &&& r == Err::<u64, Error>(Error::ENOMEM)
                    &&& *final(mmu) == *old(mmu)
                } else {
                    &&& r == Ok::<u64, Error>((idx * 4096) as u64)
                    &&& final(mmu).frames() == old(mmu).frames().update(p, true)
                    &&& final(mmu).table(self.layout@.pt as int) == pt.update(idx, leaf_entry(p))
                    &&& self.frames(final(mmu)) == self.frames(old(mmu)).insert(p)
                }
            }),
    {
        let ghost l = self.layout@;
        let ghost pt0 = old(mmu).table(l.pt as int);
        proof {
            lemma_pool_address(l.pml4 as int);
            lemma_link_child(l.pdpt as int);
            lemma_link_child(l.pd as int);
            lemma_link_child(l.pt as int);
        }
        // The layout invariant links each level to the next, so no step of
        // the walk fails
        let pml4 = ((self.page_table.0 - PAGETABLE_VIRT) / PAGE_SIZE) as usize;
        let pdpt = match child(mmu, pml4, 0) {
            Some(i) => i,
            None => {
                proof {
                    assert(false);
                }
                return Err(Error::EFAULT);
            },
        };
        let pd = match child(mmu, pdpt, 0) {
            Some(i) => i,
            None => {
                proof {
                    assert(false);
                }
                return Err(Error::EFAULT);
            },
        };
        let pt = match child(mmu, pd, 0) {
            Some(i) => i,
            None => {
                proof {
                    assert(false);
                }
                return Err(Error::EFAULT);
            },
        };
        // Find an available index or use the specified one
        let vaddr = VirtualAddress::new(address);
        let mut idx: usize = vaddr.table_index();
        if idx == 0 {
            let mut i: usize = 1;
            while i < 512 && mmu.table_at(pt).present(i)
                invariant
                    1 <= i <= 512,
                    pt == l.pt,
                    pt < POOL_PAGES,
                    mmu.wf(),
                    pt0 == mmu.table(pt as int),
                    first_free(presence(pt0), 1, 512) == first_free(presence(pt0), i as int, 512),
                decreases 512 - i,
            {
                i += 1;
            }
            idx = i;
        }
        proof {
            lemma_first_free(presence(pt0), 1, 512);
        }
        assert(idx == map_index(pt0, address));
        if idx >= 512 || mmu.table_at(pt).present(idx) {
            return Err(Error::ENOMEM);
        }
        let phys = match mmu.alloc_phys() {
            Ok(p) => p,
            Err(e) => {
                return Err(e);
            },
        };
        let ghost p = first_free(old(mmu).frames(), INITIAL_MAPPED as int, MAX_MAPPED as int);
        proof {
            lemma_first_free(old(mmu).frames(), INITIAL_MAPPED as int, MAX_MAPPED as int);
            lemma_leaf(p);
        }
        let mapped = mmu.map_at(pt, idx, phys, true, true, false);
        assert(mapped);
        let ghost pt1 = mmu.table(l.pt as int);
        assert(pt1 == pt0.update(idx as int, leaf_entry(p)));
        proof {
            assert forall|k: int| 0 <= k < 512 && #[trigger] present_entry(pt1[k]) implies {
                &&& INITIAL_MAPPED <= entry_frame(pt1[k]) < MAX_MAPPED
                &&& pt1[k] == leaf_entry(entry_frame(pt1[k]))
                &&& mmu.frames()[entry_frame(pt1[k])]
            } by {
                if k != idx {
                    assert(present_entry(pt0[k]));
                }
            }
            assert forall|k1: int, k2: int|
                0 <= k1 < 512 && 0 <= k2 < 512 && k1 != k2 && present_entry(pt1[k1])
                    && present_entry(pt1[k2]) implies #[trigger] entry_frame(pt1[k1])
                != #[trigger] entry_frame(pt1[k2]) by {
                if k1 == idx {
                    assert(old(mmu).frames()[entry_frame(pt0[k2])]);
                } else if k2 == idx {
                    assert(old(mmu).frames()[entry_frame(pt0[k1])]);
                }
            }
            assert forall|q: int| #[trigger] self.frames(mmu).contains(q) == self.frames(old(mmu)).insert(p).contains(q) by {
                lemma_pt_frames(pt1, 512, q);
                lemma_pt_frames(pt0, 512, q);
                if q == p {
                    assert(present_entry(pt1[idx as int]) && entry_frame(pt1[idx as int]) == p);
                }
                if self.frames(mmu).contains(q) && q != p {
                    let k = choose|k: int| 0 <= k < 512 && present_entry(pt1[k]) && #[trigger] entry_frame(pt1[k]) == q;
                    assert(k != idx);
                    assert(present_entry(pt0[k]) && entry_frame(pt0[k]) == q);
                }
                if self.frames(old(mmu)).contains(q) {
                    let k = choose|k: int| 0 <= k < 512 && present_entry(pt0[k]) && #[trigger] entry_frame(pt0[k]) == q;
                    assert(k != idx);
                    assert(present_entry(pt1[k]) && entry_frame(pt1[k]) == q);
                }
            }
            assert(self.frames(mmu) =~= self.frames(old(mmu)).insert(p));
            assert(self.wf(mmu));
        }
        Ok(idx as u64 * PAGE_SIZE)
    }

    /// Stores `value` at `vaddr` as seen through this context's address
    /// space.  Fails with `EFAULT` when the address is not mapped there.
    pub fn write(&self, mmu: &mut MMU, vaddr: u64, value: u8) -> (r: Result<(), Error>)
        requires
            old(mmu).wf(),
        ensures
            final(mmu).wf(),
            final(mmu).bitmap@ == old(mmu).bitmap@,
            final(mmu).inuse@ == old(mmu).inuse@,
            final(mmu).tables@ == old(mmu).tables@,
            final(mmu).kernel_pdpt == old(mmu).kernel_pdpt,
            match space_translate(old(mmu), self.page_table.0, vaddr) {
                Some(pa) => if pa < MEMORY_SIZE {
                    &&& r == Ok::<(), Error>(())
                    &&& final(mmu).memory@ == old(mmu).memory@.update(pa, value)
                } else {
                    &&& r == Err::<(), Error>(Error::EFAULT)
                    &&& final(mmu).memory@ == old(mmu).memory@
                },
                None => {
                    &&& r == Err::<(), Error>(Error::EFAULT)
                    &&& final(mmu).memory@ == old(mmu).memory@
                },
            },
    {
        match walk(mmu, self.page_table, vaddr) {
            Some(pa) => {
                if pa < MEMORY_SIZE as u64 {
                    mmu.memory.set(pa as usize, value);
                    assert(mmu.frames() == old(mmu).frames());
                    Ok(())
                } else {
                    Err(Error::EFAULT)
                }
            },
            None => Err(Error::EFAULT),
        }
    }

    /// Reads the byte at `vaddr` as seen through this context's address
    /// space.  Fails with `EFAULT` when the address is not mapped there.
    pub fn read(&self, mmu: &MMU, vaddr: u64) -> (r: Result<u8, Error>)
        requires
            mmu.wf(),
        ensures
            match space_translate(mmu, self.page_table.0, vaddr) {
                Some(pa) => if pa < MEMORY_SIZE {
                    r == Ok::<u8, Error>(mmu.memory@[pa])
                } else {
                    r == Err::<u8, Error>(Error::EFAULT)
                },
                None => r == Err::<u8, Error>(Error::EFAULT),
            },
    {
        match walk(mmu, self.page_table, vaddr) {
            Some(pa) => {
                if pa < MEMORY_SIZE as u64 {
                    Ok(mmu.memory[pa as usize])
                } else {
                    Err(Error::EFAULT)
                }
            },
            None => Err(Error::EFAULT),
        }
    }

    /// Copies the registers that the interrupt prologue captured into this
    /// context.
    pub fn store(&mut self, ctx: &CapturedContext)
        ensures
            *final(self) == stored_context(*old(self), *ctx),
    {
        self.rsp = ctx.rsp;
        self.rbp = ctx.rbp;
        self.cr3 = ctx.cr3;
        self.rip = ctx.rip;
        self.rflags = ctx.rflags;
        self.sr.cs = ctx.cs;
        self.sr.ds = ctx.ds;
        self.sr.es = ctx.es;
        self.sr.fs = ctx.fs;
        self.sr.gs = ctx.gs;
        self.sr.ss = ctx.ss;
        self.gpr.rax = ctx.gpr.rax;
        self.gpr.rcx = ctx.gpr.rcx;
        self.gpr.rdx = ctx.gpr.rdx;
        self.gpr.rbx = ctx.gpr.rbx;
        self.gpr.rsi = ctx.gpr.rsi;
        self.gpr.rdi = ctx.gpr.rdi;
        self.gpr.r8 = ctx.gpr.r8;
        self.gpr.r9 = ctx.gpr.r9;
        self.gpr.r10 = ctx.gpr.r10;
        self.gpr.r11 = ctx.gpr.r11;
        self.gpr.r12 = ctx.gpr.r12;
        self.gpr.r13 = ctx.gpr.r13;
        self.gpr.r14 = ctx.gpr.r14;
        self.gpr.r15 = ctx.gpr.r15;
    }

    /// The interrupt-return frame that resumes this context, in push order:
    /// SS, RSP, RFLAGS, CS, RIP.
    pub fn iret_frame(&self) -> (r: [u64; 5])
        ensures
            r@ == seq![self.sr.ss, self.rsp, self.rflags, self.sr.cs, self.rip],
    {
        let r = [self.sr.ss, self.rsp, self.rflags, self.sr.cs, self.rip];
        assert(r@ =~= seq![self.sr.ss, self.rsp, self.rflags, self.sr.cs, self.rip]);
        r
    }

    /// Whether resuming this context has to load its page-table root into
    /// CR3, given the value CR3 holds now.
    pub fn needs_cr3_switch(&self, current_cr3: u64) -> (r: bool)
        ensures
            r == (current_cr3 != self.cr3),
    {
        current_cr3 != self.cr3
    }
}

/// Creating a context and then releasing it leaves the frame bitmap and
/// the pool's in-use flags exactly as they were before the creation: the
/// release gives back every page and frame that the creation took.
pub proof fn lemma_create_then_release(m0: &MMU, m1: &MMU, c: &Context, m2: &MMU)
    requires
        m0.wf(),
        m2.wf(),
        created(m0, m1, *c),
        forall|i: int|
            0 <= i < POOL_PAGES ==> #[trigger] m2.pool()[i] == (m1.pool()[i] && !owns_page(
                c.layout@,
                i,
            )),
        forall|p: int|
            0 <= p < MAX_MAPPED ==> #[trigger] m2.frames()[p] == (m1.frames()[p]
                && !c.frames(m1).contains(p)),
    ensures
        m2.pool() == m0.pool(),
        m2.frames() == m0.frames(),
{
    assert forall|i: int| 0 <= i < POOL_PAGES implies m2.pool()[i] == m0.pool()[i] by {
        assert(m1.pool()[i] == (m0.pool()[i] || owns_page(c.layout@, i)));
        if owns_page(c.layout@, i) {
            assert(!m0.pool()[i]);
        }
    }
    assert(m2.pool() =~= m0.pool());
    assert forall|p: int| 0 <= p < MAX_MAPPED implies m2.frames()[p] == m0.frames()[p] by {
        assert(m1.frames()[p] == (m0.frames()[p] || c.frames(m1).contains(p)));
        if c.frames(m1).contains(p) {
            assert(!m0.frames()[p]);
        }
    }
    assert(m2.frames() =~= m0.frames());
}

} // verus!
