use kernel_core::bitmap::Bitmap;
use kernel_core::dfs::{check_inode, read_u32, BlockAlloc, DSuperBlock, DFS_MAGIC, DINODE_MAGIC};
use kernel_core::gdt::{GdtEntry, GDT, GDT_TSS_AVAIL};
use kernel_core::error::Error;
use kernel_core::idt::{register_isr, unregister_isr, IdtEntry, IDT, IDT_INTERRUPT_64, IDT_TRAP_64};
use kernel_core::pci::{config_address, function_count, PCIBus};
use kernel_core::pic::{MASTER_DATA, MASTER_PIC, PIC, SLAVE_DATA, SLAVE_PIC};
use kernel_core::timer::{
    init_writes, register_scheduler, register_timer, unregister_timer, Timer, MAX_CALLBACKS,
    TIMER_WRAP,
};
use kernel_core::tss::TSS;

#[test]
fn isr_registration_conflict() {
    let mut idt: IDT<u64> = IDT::new();
    assert!(register_isr(&mut idt, 32, 100));
    assert!(!register_isr(&mut idt, 32, 200));
    assert_eq!(idt.handler(32), Some(100));
    assert!(unregister_isr(&mut idt, 32));
    assert!(!unregister_isr(&mut idt, 32));
    assert_eq!(idt.handler(32), None);
    assert!(register_isr(&mut idt, 32, 200));
    assert_eq!(idt.handler(32), Some(200));
    assert_eq!(idt.handler(999), None);
}

#[test]
fn gate_descriptors() {
    let mut idt: IDT<u64> = IDT::new();
    idt.set_kernel_isr(14, 0xFFFF_FFFF_8012_3456);
    assert_eq!(
        idt.entries[14],
        IdtEntry {
            lowbits: 0x3456,
            selector: 0x8,
            reserved_0: 0,
            attribute: 0x8E,
            midbits: 0x8012,
            hibits: 0xFFFF_FFFF,
            reserved_1: 0,
        }
    );
    idt.set_kernel_trap(1, 0x1234);
    assert_eq!(idt.entries[1].attribute, 0x80 | IDT_TRAP_64);
    let stubs: Vec<u64> = (0..256u64).map(|i| 0x10_0000 + 16 * i).collect();
    idt.init(&stubs);
    assert_eq!(idt.entries[3].attribute, 0x80 | (3 << 5) | IDT_INTERRUPT_64);
    assert_eq!(idt.entries[4].attribute, 0x80 | IDT_INTERRUPT_64);
    assert_eq!(idt.entries[255].lowbits, (0x10_0000u64 + 16 * 255) as u16);
}

#[test]
fn timer_callbacks() {
    let mut timer: Timer<u64> = Timer::new();
    for i in 0..MAX_CALLBACKS {
        assert_eq!(register_timer(&mut timer, i as u64), Ok(i));
    }
    assert_eq!(register_timer(&mut timer, 99), Err(Error::EFULL));
    assert_eq!(unregister_timer(&mut timer, 4), Ok(()));
    assert_eq!(unregister_timer(&mut timer, 4), Err(Error::ENOENT));
    assert_eq!(unregister_timer(&mut timer, MAX_CALLBACKS), Err(Error::ENOENT));
    assert_eq!(register_timer(&mut timer, 77), Ok(4));
    let cbs = timer.callbacks();
    assert_eq!(cbs.len(), MAX_CALLBACKS);
    assert_eq!(cbs[4], 77);
    assert_eq!(cbs[5], 5);
    assert_eq!(register_scheduler(&mut timer, 1), Ok(()));
    assert_eq!(register_scheduler(&mut timer, 2), Err(Error::EAGAIN));
    assert_eq!(timer.scheduler, Some(1));
}

#[test]
fn timer_tick_wraps() {
    let mut timer: Timer<u64> = Timer::new();
    assert_eq!(timer.advance(), 1);
    assert_eq!(timer.advance(), 2);
    timer.tick = TIMER_WRAP - 1;
    assert_eq!(timer.advance(), TIMER_WRAP);
    assert_eq!(timer.advance(), 1);
    assert_eq!(init_writes(), vec![(0x43u16, 0x36u8), (0x40, 0), (0x40, 0)]);
}

#[test]
fn pic_sequences() {
    assert_eq!(
        PIC::remap(32, 40, 0xb8, 0x8e),
        vec![
            (MASTER_PIC, 0x11),
            (SLAVE_PIC, 0x11),
            (MASTER_DATA, 32),
            (SLAVE_DATA, 40),
            (MASTER_DATA, 4),
            (SLAVE_DATA, 2),
            (MASTER_DATA, 1),
            (SLAVE_DATA, 1),
            (MASTER_DATA, 0xb8),
            (SLAVE_DATA, 0x8e),
        ]
    );
    assert_eq!(PIC::eoi(false), vec![(0x20u16, 0x20u8)]);
    assert_eq!(PIC::eoi(true), vec![(0xA0u16, 0x20u8), (0x20, 0x20)]);
    assert_eq!(PIC::disable(), vec![(0xA1u16, 0xffu8), (0x21, 0xff)]);
    assert_eq!(PIC::mask(0b0000_0001, 3), 0b0000_1001);
    assert_eq!(PIC::unmask(0xff, 0), 0xfe);
    assert_eq!(PIC::data_port(true), 0xA1);
}

#[test]
fn bitmap_bits() {
    let mut bmp = Bitmap::new(100);
    assert_eq!(bmp.len(), 100);
    bmp.set(9);
    assert_eq!(bmp.get(9), true);
    bmp.clear(9);
    assert_eq!(bmp.get(9), false);

    bmp.set_direct(&[0xff], 0);
    assert_eq!(bmp.get(0), true);
    bmp.set_direct(&[0xff], 2);
    assert_eq!(bmp.get(16), true);
    assert_eq!(bmp.get(8), false);
    bmp.set_direct(&[0xf0], 3);
    assert_eq!(bmp.get(24), false);
    assert_eq!(bmp.get(28), true);
    // bytes past the storage are ignored
    bmp.set_direct(&[1, 2, 3], 12);
    assert_eq!(bmp.storage.len(), 13);
    assert_eq!(bmp.storage[12], 1);
}

#[test]
fn block_allocation() {
    let mut a = BlockAlloc { block_cnt: 4, freemap: Bitmap::new(4) };
    assert_eq!(a.allocate(), Ok(1));
    assert_eq!(a.allocate(), Ok(2));
    assert_eq!(a.allocate(), Ok(3));
    assert_eq!(a.allocate(), Err(Error::EFULL));
    assert_eq!(a.free(2), Ok(()));
    assert_eq!(a.allocate(), Ok(2));
}

#[test]
fn pci_addresses() {
    assert_eq!(config_address(0, 3, 0, 0x8), 0x8000_1808);
    assert_eq!(config_address(1, 0, 2, 0xF), 0x8001_020C);
    assert_eq!(function_count(0x0080_0000), 1);
    assert_eq!(function_count(0x0081_0000), 8);
    assert_eq!(PCIBus::new(2).busno, 2);
}

#[test]
fn task_state_segment() {
    let mut tss = TSS::new();
    assert_eq!(tss.privilege_stack_table, [0; 3]);
    tss.set_kernel_stack(0xFFFF_FFFF_8061_0000);
    assert_eq!(tss.privilege_stack_table[0], 0xFFFF_FFFF_8061_0000);
    assert_eq!(tss.interrupt_stack_table[0], 0xFFFF_FFFF_8061_0000);
    assert_eq!(tss.interrupt_stack_table[1], 0);
}

#[test]
fn segment_descriptors() {
    let mut g = GDT::new();
    g.set_entry(5, 0xFFFFF, 0, 0xA, 3, true, false, true, false, true);
    assert_eq!(
        g.entries[5],
        GdtEntry { low_limit: 0xFFFF, low_base: 0, mid_base: 0, attribute: 0xFA, mixed: 0xAF, hi_base: 0 }
    );
    g.set_tss(0xFFFF_FFFF_8012_3456, 103);
    assert_eq!(
        g.entries[7],
        GdtEntry {
            low_limit: 103,
            low_base: 0x3456,
            mid_base: 0x12,
            attribute: 0x80 | GDT_TSS_AVAIL,
            mixed: 0,
            hi_base: 0x80,
        }
    );
    assert_eq!(g.entries[8].low_limit, 0xFFFF);
    assert_eq!(g.entries[8].low_base, 0xFFFF);
}

#[test]
fn superblock_parsing() {
    let mut block = vec![0u8; 512];
    block[0..4].copy_from_slice(&DFS_MAGIC.to_le_bytes());
    block[4..8].copy_from_slice(&5000u32.to_le_bytes());
    assert_eq!(read_u32(&block, 4), 5000);
    let sb = DSuperBlock::parse(&block).unwrap();
    assert_eq!(sb, DSuperBlock { magic: DFS_MAGIC, blockno: 5000 });
    assert_eq!(sb.freemap_blocks(), 2);
    assert_eq!(DSuperBlock { magic: DFS_MAGIC, blockno: 4096 }.freemap_blocks(), 1);
    assert_eq!(DSuperBlock::parse(&block[..100]), Err(Error::EIO));
    block[0] ^= 1;
    assert_eq!(DSuperBlock::parse(&block), Err(Error::EBADFS));
    let mut inode = vec![0u8; 512];
    assert_eq!(check_inode(&inode), Err(Error::EBADFS));
    inode[0..4].copy_from_slice(&DINODE_MAGIC.to_le_bytes());
    assert_eq!(check_inode(&inode), Ok(()));
}
