//! Segment selectors of the boot-time descriptor table, and the encoding of
//! its descriptors.
use vstd::prelude::*;

verus! {

/// 64-bit kernel code segment.
pub const GDT_64_CODE: u16 = 0x8;
/// 64-bit kernel data segment.
pub const GDT_64_DATA: u16 = 0x10;
/// 32-bit user code segment.
pub const GDT_32_USER_CODE: u16 = 0x18;
/// 32-bit user data segment.
pub const GDT_32_USER_DATA: u16 = 0x20;
/// 64-bit user code segment.
pub const GDT_64_USER_CODE: u16 = 0x28;
/// 64-bit user data segment.
pub const GDT_64_USER_DATA: u16 = 0x30;
/// Task-state segment.
pub const GDT_TSS: u16 = 0x38;

/// Number of descriptors in the table.
pub const GDT_ENTRIES: usize = 10;
/// Available 64-bit TSS system segment type.
pub const GDT_TSS_AVAIL: u8 = 0x9;
/// Busy 64-bit TSS system segment type.
pub const GDT_TSS_BUSY: u8 = 0xB;

/// A segment descriptor in the hardware layout.
#[derive(Clone, Copy, Debug, PartialEq, Eq, Structural)]
pub struct GdtEntry {
    pub low_limit: u16,
    pub low_base: u16,
    pub mid_base: u8,
    pub attribute: u8,
    pub mixed: u8,
    pub hi_base: u8,
}

/// The descriptor for a segment of `limit` at `base`, of type `dtype`
/// and privilege `dpl`; `user` marks a code/data segment, `avl`, `long`,
/// `db` and `g` set the flags of the same names.
pub open spec fn descriptor(
    limit: u32,
    base: u32,
    dtype: u8,
    dpl: u8,
    user: bool,
    avl: bool,
    long: bool,
    db: bool,
    g: bool,
) -> GdtEntry {
    GdtEntry {
        low_limit: (limit & 0xffff) as u16,
        low_base: (base & 0xffff) as u16,
        mid_base: ((base >> 16u32) & 0xff) as u8,
        attribute: ((dtype & 0xf) | ((dpl & 0x3) << 5u8) | 0x80u8 | (if user { 0x10u8 } else { 0u8 })) as u8,
        mixed: (((limit >> 16u32) & 0xf) as u8 | (if avl { 0x10u8 } else { 0u8 }) | (if long {
            0x20u8
        } else {
            0u8
        }) | (if db { 0x40u8 } else { 0u8 }) | (if g { 0x80u8 } else { 0u8 })) as u8,
        hi_base: ((base >> 24u32) & 0xff) as u8,
    }
}

/// The descriptor table.
pub struct GDT {
    pub entries: Vec<GdtEntry>,
}

impl GDT {
    pub open spec fn wf(&self) -> bool {
        self.entries@.len() == GDT_ENTRIES
    }

    /// A table of null descriptors.
    pub fn new() -> (r: Self)
        ensures
            r.wf(),
            forall|i: int|
                0 <= i < GDT_ENTRIES ==> r.entries@[i] == (GdtEntry {
                    low_limit: 0,
                    low_base: 0,
                    mid_base: 0,
                    attribute: 0,
                    mixed: 0,
                    hi_base: 0,
                }),
    {
        let mut entries: Vec<GdtEntry> = Vec::new();
        let mut i: usize = 0;
        while i < GDT_ENTRIES
            invariant
                i <= GDT_ENTRIES,
                entries@.len() == i,
                forall|j: int| 0 <= j < i ==> entries@[j] == (GdtEntry { low_limit: 0, low_base: 0, mid_base: 0, attribute: 0, mixed: 0, hi_base: 0 }),
            decreases GDT_ENTRIES - i,
        {
            entries.push(GdtEntry { low_limit: 0, low_base: 0, mid_base: 0, attribute: 0, mixed: 0, hi_base: 0 });
            i += 1;
        }
        GDT { entries }
    }

    /// Installs the descriptor of the task-state segment at `base` with
    /// `limit`: a system segment taking slots 7 and 8, slot 8 holding the
    /// upper half of the base.
    pub fn set_tss(&mut self, base: u64, limit: u32)
        requires
            old(self).wf(),
        ensures
            final(self).wf(),
            final(self).entries@ == old(self).entries@.update(
                7,
                descriptor(limit, (base & 0xffff_ffff) as u32, GDT_TSS_AVAIL, 0, false, false, false, false, false),
            ).update(
                8,
                GdtEntry {
                    low_limit: ((base >> 32u64) & 0xffff) as u16,
                    low_base: ((base >> 48u64) & 0xffff) as u16,
                    mid_base: 0,
                    attribute: 0,
                    mixed: 0,
                    hi_base: 0,
                },
            ),
    {
        self.set_entry(7, limit, (base & 0xffff_ffff) as u32, GDT_TSS_AVAIL, 0, false, false, false, false, false);
        let high = GdtEntry {
            low_limit: ((base >> 32) & 0xffff) as u16,
            low_base: ((base >> 48) & 0xffff) as u16,
            mid_base: 0,
            attribute: 0,
            mixed: 0,
            hi_base: 0,
        };
        self.entries.set(8, high);
    }

    /// Encodes and stores descriptor `idx`.
    pub fn set_entry(
        &mut self,
        idx: usize,
        limit: u32,
        base: u32,
        dtype: u8,
        dpl: u8,
        user: bool,
        avl: bool,
        long: bool,
        db: bool,
        g: bool,
    )
        requires
            old(self).wf(),
            idx < GDT_ENTRIES,
        ensures
            final(self).wf(),
            final(self).entries@ == old(self).entries@.update(
                idx as int,
                descriptor(limit, base, dtype, dpl, user, avl, long, db, g),
            ),
    {
        let attribute: u8 = (dtype & 0xf) | ((dpl & 0x3) << 5) | 0x80 | (if user {
            0x10u8
        } else {
            0u8
        });
        let mixed: u8 = ((limit >> 16) & 0xf) as u8 | (if avl {
            0x10u8
        } else {
            0u8
        }) | (if long {
            0x20u8
        } else {
            0u8
        }) | (if db {
            0x40u8
        } else {
            0u8
        }) | (if g {
            0x80u8
        } else {
            0u8
        });
        let entry = GdtEntry {
            low_limit: (limit & 0xffff) as u16,
            low_base: (base & 0xffff) as u16,
            mid_base: ((base >> 16) & 0xff) as u8,
            attribute,
            mixed,
            hi_base: ((base >> 24) & 0xff) as u8,
        };
        self.entries.set(idx, entry);
    }
}

} // verus!
