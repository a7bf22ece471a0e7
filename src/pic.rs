//! The pair of 8259 interrupt controllers: the port writes that remap,
//! acknowledge, mask and disable them.  The writes are computed here and
//! performed, in order, by the caller.
use vstd::prelude::*;

verus! {

/// First vector of the master controller after the remap.
pub const PIC_ISR_START: u8 = 32;
pub const MASTER_PIC: u16 = 0x20;
pub const MASTER_DATA: u16 = 0x21;
pub const SLAVE_PIC: u16 = 0xA0;
pub const SLAVE_DATA: u16 = 0xA1;
/// End-of-interrupt command.
pub const PIC_EOI: u8 = 0x20;
/// ICW4 needed.
pub const ICW1_ICW4: u8 = 0x1;
/// Initialization.
pub const ICW1_INIT: u8 = 0x10;
/// 8086/88 mode.
pub const ICW4_8086: u8 = 0x1;

/// The interrupt controller pair.
pub struct PIC;

impl PIC {
    /// Writes that acknowledge an interrupt: the slave first when it raised
    /// it, then the master.
    pub fn eoi(slave: bool) -> (r: Vec<(u16, u8)>)
        ensures
            slave ==> r@ == seq![(SLAVE_PIC, PIC_EOI), (MASTER_PIC, PIC_EOI)],
            !slave ==> r@ == seq![(MASTER_PIC, PIC_EOI)],
    {
        let mut r: Vec<(u16, u8)> = Vec::new();
        if slave {
            r.push((SLAVE_PIC, PIC_EOI));
        }
        r.push((MASTER_PIC, PIC_EOI));
        assert(slave ==> r@ =~= seq![(SLAVE_PIC, PIC_EOI), (MASTER_PIC, PIC_EOI)]);
        assert(!slave ==> r@ =~= seq![(MASTER_PIC, PIC_EOI)]);
        r
    }

    /// Writes that mask every line of both controllers.
    pub fn disable() -> (r: Vec<(u16, u8)>)
        ensures
            r@ == seq![(SLAVE_DATA, 0xffu8), (MASTER_DATA, 0xffu8)],
    {
        let r = vec![(SLAVE_DATA, 0xffu8), (MASTER_DATA, 0xffu8)];
        assert(r@ =~= seq![(SLAVE_DATA, 0xffu8), (MASTER_DATA, 0xffu8)]);
        r
    }

    /// Data port of the master or the slave controller.
    pub fn data_port(slave: bool) -> (r: u16)
        ensures
            r == if slave { SLAVE_DATA } else { MASTER_DATA },
    {
        if slave {
            SLAVE_DATA
        } else {
            MASTER_DATA
        }
    }

    /// New mask register value that masks line `idx`.
    pub fn mask(current: u8, idx: u8) -> (r: u8)
        requires
            idx < 8,
        ensures
            r == current | (1u8 << idx),
    {
        current | (1u8 << idx)
    }

    /// New mask register value that unmasks line `idx`.
    pub fn unmask(current: u8, idx: u8) -> (r: u8)
        requires
            idx < 8,
        ensures
            r == current & !(1u8 << idx),
    {
        current & !(1u8 << idx)
    }

    /// Writes of the initialisation sequence that moves the master's lines
    /// to `master_offset` and the slave's to `slave_offset`, then restores
    /// the mask registers read before (`master_mask`, `slave_mask`).
    pub fn remap(master_offset: u8, slave_offset: u8, master_mask: u8, slave_mask: u8) -> (r: Vec<
        (u16, u8),
    >)
        ensures
            r@ == seq![
                (MASTER_PIC, (ICW1_INIT + ICW1_ICW4) as u8),
                (SLAVE_PIC, (ICW1_INIT + ICW1_ICW4) as u8),
                (MASTER_DATA, master_offset),
                (SLAVE_DATA, slave_offset),
                (MASTER_DATA, 4u8),
                (SLAVE_DATA, 2u8),
                (MASTER_DATA, ICW4_8086),
                (SLAVE_DATA, ICW4_8086),
                (MASTER_DATA, master_mask),
                (SLAVE_DATA, slave_mask),
            ],
    {
        let r = vec![
            (MASTER_PIC, ICW1_INIT + ICW1_ICW4),
            (SLAVE_PIC, ICW1_INIT + ICW1_ICW4),
            (MASTER_DATA, master_offset),
            (SLAVE_DATA, slave_offset),
            // Tell the master there is a slave at IRQ2, and the slave its
            // cascade identity
            (MASTER_DATA, 4u8),
            (SLAVE_DATA, 2u8),
            (MASTER_DATA, ICW4_8086),
            (SLAVE_DATA, ICW4_8086),
            // Restore the masks
            (MASTER_DATA, master_mask),
            (SLAVE_DATA, slave_mask),
        ];
        assert(r@ =~= seq![
            (MASTER_PIC, (ICW1_INIT + ICW1_ICW4) as u8),
            (SLAVE_PIC, (ICW1_INIT + ICW1_ICW4) as u8),
            (MASTER_DATA, master_offset),
            (SLAVE_DATA, slave_offset),
            (MASTER_DATA, 4u8),
            (SLAVE_DATA, 2u8),
            (MASTER_DATA, ICW4_8086),
            (SLAVE_DATA, ICW4_8086),
            (MASTER_DATA, master_mask),
            (SLAVE_DATA, slave_mask),
        ]);
        r
    }
}

} // verus!
