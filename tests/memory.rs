use kernel_core::error::Error;
use kernel_core::mmu::{
    PageTable, PhysicalAddress, VirtualAddress, INITIAL_MAPPED, KERNEL_BASE, MAX_MAPPED, MMU,
    PAGETABLE_VIRT, PAGE_SIZE, POOL_PAGES,
};

const KERNEL_PDPT: u64 = 0x10_3000;

fn fresh() -> MMU {
    MMU::new(PhysicalAddress::new(KERNEL_PDPT))
}

fn frames_in_use(m: &MMU) -> usize {
    m.bitmap.iter().map(|w| w.count_ones() as usize).sum()
}

fn pool_in_use(m: &MMU) -> usize {
    m.inuse.iter().filter(|b| **b).count()
}

#[test]
fn address_indices() {
    let v = VirtualAddress::new(0xFFFF_FFFF_8060_1234);
    assert_eq!(v.pml4_index(), 511);
    assert_eq!(v.dptr_index(), 510);
    assert_eq!(v.dir_index(), 3);
    assert_eq!(v.table_index(), 1);
    assert_eq!(v.frame(), 0xFFFF_FFFF_8060_1234u64 >> 12);
    assert_eq!(v.mask(12), 0xFFFF_FFFF_8060_1000);
    assert!(!v.usermode());
    assert!(VirtualAddress::new(0x5000).usermode());
    assert_eq!(VirtualAddress::new(0x5000).table_index(), 5);
    assert_eq!(v.sub(KERNEL_BASE), 0x60_1234);
    assert_eq!(VirtualAddress::new(0x1000).add(0x234), 0x1234);
}

#[test]
fn physical_address_frames() {
    let p = PhysicalAddress::from_pfn(3072);
    assert_eq!(p.0, 0xC0_0000);
    assert_eq!(p.pfn(), 3072);
    assert_eq!(PhysicalAddress::new(0x1234_5678).mask(12), 0x1234_5000);
    assert_eq!(p.add(0x10), 0xC0_0010);
    assert_eq!(p.sub(0x10), 0xBF_FFF0);
}

#[test]
fn page_table_entries() {
    let mut t = PageTable::new();
    assert!(!t.present(3));
    assert!(t.map(3, PhysicalAddress::new(0x60_1fff), true, true, false));
    assert_eq!(t.get(3), 0x60_1000 | 0x7);
    assert!(t.present(3));
    // refuses to overwrite a present entry
    assert!(!t.map(3, PhysicalAddress::new(0x70_0000), true, false, false));
    assert_eq!(t.get(3), 0x60_1007);
    assert_eq!(t.next(3), Ok(VirtualAddress::new(KERNEL_BASE + 0x60_1000)));
    assert_eq!(t.next(4), Err(Error::EFAULT));
    assert!(t.map(4, PhysicalAddress::new(0x20_0000), false, false, true));
    assert_eq!(t.get(4), 0x20_0081);
    assert_eq!(t.next(4), Err(Error::EFAULT));
    assert!(t.unmap(3));
    assert!(!t.unmap(3));
    assert_eq!(t.get(3), 0);
    assert!(t.map_kernel(PhysicalAddress::new(KERNEL_PDPT)));
    assert_eq!(t.get(511), KERNEL_PDPT | 0x3);
}

#[test]
fn frame_allocation_lowest_first() {
    let mut m = fresh();
    assert_eq!(frames_in_use(&m), INITIAL_MAPPED as usize);
    let a = m.alloc_phys().unwrap();
    let b = m.alloc_phys().unwrap();
    assert_eq!(a.0, INITIAL_MAPPED * PAGE_SIZE);
    assert_eq!(b.0, (INITIAL_MAPPED + 1) * PAGE_SIZE);
    assert_eq!(m.free_phys(a), Ok(()));
    assert_eq!(m.free_phys(a), Err(Error::EFAULT));
    assert_eq!(m.alloc_phys().unwrap().0, a.0);
    // boot frames and frames past the window are never released
    assert_eq!(m.free_phys(PhysicalAddress::new(0x1000)), Err(Error::EFAULT));
    assert_eq!(m.free_phys(PhysicalAddress::new(MAX_MAPPED * PAGE_SIZE)), Err(Error::EFAULT));
}

#[test]
fn frame_bitmap_conservation() {
    let mut m = fresh();
    let mut live: Vec<u64> = Vec::new();
    for round in 0..200u64 {
        if round % 3 == 2 {
            let p = live.remove((round as usize * 7) % live.len());
            assert_eq!(m.free_phys(PhysicalAddress::new(p)), Ok(()));
        } else {
            let p = m.alloc_phys().unwrap();
            assert!(p.pfn() >= INITIAL_MAPPED && p.pfn() < MAX_MAPPED);
            assert!(!live.contains(&p.0));
            live.push(p.0);
        }
        assert_eq!(frames_in_use(&m), INITIAL_MAPPED as usize + live.len());
    }
}

#[test]
fn frame_exhaustion() {
    let mut m = fresh();
    let n = (MAX_MAPPED - INITIAL_MAPPED) as usize;
    for _ in 0..n {
        assert!(m.alloc_phys().is_ok());
    }
    assert_eq!(m.alloc_phys(), Err(Error::ENOMEM));
}

#[test]
fn pool_pages_disjoint() {
    let mut m = fresh();
    let a = m.alloc_page().unwrap();
    assert_eq!(a.0, PAGETABLE_VIRT);
    let run = m.alloc_contiguous(4).unwrap();
    assert_eq!(run.0, PAGETABLE_VIRT + PAGE_SIZE);
    let b = m.alloc_page().unwrap();
    assert_eq!(b.0, PAGETABLE_VIRT + 5 * PAGE_SIZE);
    for v in [a.0, run.0, b.0] {
        assert_eq!(v % PAGE_SIZE, 0);
        assert!(v >= PAGETABLE_VIRT && v < PAGETABLE_VIRT + POOL_PAGES as u64 * PAGE_SIZE);
    }
    assert_eq!(pool_in_use(&m), 6);
    // a freed hole too small for a run of four is skipped
    assert_eq!(m.free_page(a), Ok(()));
    assert_eq!(m.free_page(a), Err(Error::EFAULT));
    assert_eq!(m.alloc_contiguous(4).unwrap().0, PAGETABLE_VIRT + 6 * PAGE_SIZE);
    assert_eq!(m.alloc_page().unwrap().0, PAGETABLE_VIRT);
    assert_eq!(m.free_contiguous(run, 4), Ok(()));
    assert_eq!(m.free_contiguous(run, 4), Err(Error::EFAULT));
    assert_eq!(m.free_page(VirtualAddress::new(0x1000)), Err(Error::EFAULT));
    assert_eq!(m.alloc_contiguous(POOL_PAGES + 1), Err(Error::ENOMEM));
}

#[test]
fn pool_page_is_zeroed() {
    let mut m = fresh();
    let a = m.alloc_page().unwrap();
    let i = MMU::pool_index(a).unwrap();
    assert!(m.map_at(i, 7, PhysicalAddress::new(0xC0_0000), true, true, false));
    assert_eq!(m.table_at(i).get(7), 0xC0_0007);
    assert_eq!(m.free_page(a), Ok(()));
    let b = m.alloc_page().unwrap();
    assert_eq!(b, a);
    assert_eq!(m.table_at(i).get(7), 0);
}

#[test]
fn pool_exhaustion() {
    let mut m = fresh();
    for _ in 0..POOL_PAGES {
        assert!(m.alloc_page().is_ok());
    }
    assert_eq!(m.alloc_page(), Err(Error::ENOMEM));
    assert_eq!(m.alloc_contiguous(1), Err(Error::ENOMEM));
}

#[test]
fn error_messages() {
    assert_eq!(Error::ENOMEM.message(), "Insufficient memory");
    assert_eq!(Error::EFAULT.message(), "Access violation");
    assert_eq!(Error::EAGAIN.message(), "Already exist");
    assert_eq!(Error::EFULL.message(), "No more space");
    assert_eq!(Error::EINVAL.message(), "Invalid argument");
}
