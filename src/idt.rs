//! Interrupt dispatch: the 256 gate descriptors and the table of handlers
//! that the common interrupt entry calls by vector.
use crate::gdt::GDT_64_CODE;
use vstd::prelude::*;

verus! {

/// Number of interrupt vectors.
pub const IDT_ENTRIES: usize = 256;
pub const IDT_INTERRUPT_16: u8 = 0x6;
pub const IDT_TRAP_16: u8 = 0x7;
/// 64-bit interrupt gate: clears IF on entry.
pub const IDT_INTERRUPT_64: u8 = 0xE;
/// 64-bit trap gate: leaves IF as it is.
pub const IDT_TRAP_64: u8 = 0xF;
/// The breakpoint vector, reachable from user mode.
pub const BREAKPOINT_VECTOR: usize = 3;

/// A gate descriptor in the hardware layout.
#[derive(Clone, Copy, Debug, PartialEq, Eq, Structural)]
pub struct IdtEntry {
    pub lowbits: u16,
    pub selector: u16,
    pub reserved_0: u8,
    pub attribute: u8,
    pub midbits: u16,
    pub hibits: u32,
    pub reserved_1: u32,
}

/// The descriptor for a gate to `handler` through code segment `selector`,
/// callable from privilege `dpl`, of gate type `etype`.
pub open spec fn gate(handler: u64, selector: u16, dpl: u8, etype: u8) -> IdtEntry {
    IdtEntry {
        lowbits: (handler & 0xffff) as u16,
        selector,
        reserved_0: 0,
        attribute: (0x80u8 | (dpl << 5u8) | etype) as u8,
        midbits: ((handler >> 16u64) & 0xffff) as u16,
        hibits: ((handler >> 32u64) & 0xffff_ffff) as u32,
        reserved_1: 0,
    }
}

/// The interrupt descriptor table and its handlers; `H` is the type of a
/// handler.
pub struct IDT<H> {
    pub entries: Vec<IdtEntry>,
    pub handlers: Vec<Option<H>>,
}

impl<H: Copy> IDT<H> {
    pub open spec fn wf(&self) -> bool {
        &&& self.entries@.len() == IDT_ENTRIES
        &&& self.handlers@.len() == IDT_ENTRIES
    }

    /// A table with empty gates and no handlers.
    pub fn new() -> (r: Self)
        ensures
            r.wf(),
            forall|i: int| 0 <= i < IDT_ENTRIES ==> r.handlers@[i] is None,
    {
        let mut entries: Vec<IdtEntry> = Vec::new();
        let mut handlers: Vec<Option<H>> = Vec::new();
        let mut i: usize = 0;
        while i < IDT_ENTRIES
            invariant
                i <= IDT_ENTRIES,
                entries@.len() == i,
                handlers@.len() == i,
                forall|j: int| 0 <= j < i ==> handlers@[j] is None,
            decreases IDT_ENTRIES - i,
        {
            entries.push(
                IdtEntry {
                    lowbits: 0,
                    selector: 0,
                    reserved_0: 0,
                    attribute: 0,
                    midbits: 0,
                    hibits: 0,
                    reserved_1: 0,
                },
            );
            handlers.push(None);
            i += 1;
        }
        IDT { entries, handlers }
    }

    /// Sets entry `idx` of the table.
    pub fn set_entry(&mut self, idx: usize, handler: u64, selector: u16, dpl: u8, etype: u8)
        requires
            old(self).wf(),
            idx < IDT_ENTRIES,
            dpl < 8,
        ensures
            final(self).wf(),
            final(self).handlers == old(self).handlers,
            final(self).entries@ == old(self).entries@.update(
                idx as int,
                gate(handler, selector, dpl, etype),
            ),
    {
        let entry = IdtEntry {
            lowbits: (handler & 0xffff) as u16,
            selector,
            reserved_0: 0,
            attribute: 0x80 | (dpl << 5) | etype,
            midbits: ((handler >> 16) & 0xffff) as u16,
            hibits: ((handler >> 32) & 0xffffffff) as u32,
            reserved_1: 0,
        };
        self.entries.set(idx, entry);
    }

    /// Makes vector `idx` a kernel trap gate (IF stays set).
    pub fn set_kernel_trap(&mut self, idx: usize, handler: u64)
        requires
            old(self).wf(),
            idx < IDT_ENTRIES,
        ensures
            final(self).wf(),
            final(self).handlers == old(self).handlers,
            final(self).entries@ == old(self).entries@.update(
                idx as int,
                gate(handler, GDT_64_CODE, 0, IDT_TRAP_64),
            ),
    {
        self.set_entry(idx, handler, GDT_64_CODE, 0, IDT_TRAP_64);
    }

    /// Makes vector `idx` a kernel interrupt gate (IF cleared).
    pub fn set_kernel_isr(&mut self, idx: usize, handler: u64)
        requires
            old(self).wf(),
            idx < IDT_ENTRIES,
        ensures
            final(self).wf(),
            final(self).handlers == old(self).handlers,
            final(self).entries@ == old(self).entries@.update(
                idx as int,
                gate(handler, GDT_64_CODE, 0, IDT_INTERRUPT_64),
            ),
    {
        self.set_entry(idx, handler, GDT_64_CODE, 0, IDT_INTERRUPT_64);
    }

    /// Points every vector at its entry stub (`stubs[i]` for vector `i`)
    /// through an interrupt gate; only the breakpoint vector may be raised
    /// from user mode.
    pub fn init(&mut self, stubs: &Vec<u64>)
        requires
            old(self).wf(),
            stubs@.len() == IDT_ENTRIES,
        ensures
            final(self).wf(),
            final(self).handlers == old(self).handlers,
            forall|i: int|
                0 <= i < IDT_ENTRIES ==> #[trigger] final(self).entries@[i] == gate(
                    stubs@[i],
                    GDT_64_CODE,
                    if i == BREAKPOINT_VECTOR { 3 } else { 0 },
                    IDT_INTERRUPT_64,
                ),
    {
        let mut i: usize = 0;
        while i < IDT_ENTRIES
            invariant
                i <= IDT_ENTRIES,
                self.wf(),
                stubs@.len() == IDT_ENTRIES,
                self.handlers == old(self).handlers,
                forall|j: int|
                    0 <= j < i ==> #[trigger] self.entries@[j] == gate(
                        stubs@[j],
                        GDT_64_CODE,
                        if j == BREAKPOINT_VECTOR { 3 } else { 0 },
                        IDT_INTERRUPT_64,
                    ),
            decreases IDT_ENTRIES - i,
        {
            if i == BREAKPOINT_VECTOR {
                self.set_entry(i, stubs[i], GDT_64_CODE, 3, IDT_INTERRUPT_64);
            } else {
                self.set_entry(i, stubs[i], GDT_64_CODE, 0, IDT_INTERRUPT_64);
            }
            i += 1;
        }
    }

    /// Installs `handler` for vector `idx`; refuses (false) when a handler
    /// is installed already.
    pub fn register_isr(&mut self, idx: usize, handler: H) -> (r: bool)
        requires
            old(self).wf(),
            idx < IDT_ENTRIES,
        ensures
            final(self).wf(),
            final(self).entries == old(self).entries,
            r == old(self).handlers@[idx as int] is None,
            r ==> final(self).handlers@ == old(self).handlers@.update(idx as int, Some(handler)),
            !r ==> final(self).handlers@ == old(self).handlers@,
    {
        if self.handlers[idx].is_some() {
            return false;
        }
        self.handlers.set(idx, Some(handler));
        true
    }

    /// Removes the handler of vector `idx`; false when there is none.
    pub fn unregister_isr(&mut self, idx: usize) -> (r: bool)
        requires
            old(self).wf(),
            idx < IDT_ENTRIES,
        ensures
            final(self).wf(),
            final(self).entries == old(self).entries,
            r == old(self).handlers@[idx as int] is Some,
            final(self).handlers@ == old(self).handlers@.update(idx as int, None),
    {
        if self.handlers[idx].is_none() {
            assert(self.handlers@ =~= old(self).handlers@.update(idx as int, None));
            return false;
        }
        self.handlers.set(idx, None);
        true
    }

    /// The handler that the common interrupt entry calls for `vector`.
    pub fn handler(&self, vector: u64) -> (r: Option<H>)
        requires
            self.wf(),
        ensures
            vector < IDT_ENTRIES ==> r == self.handlers@[vector as int],
            vector >= IDT_ENTRIES ==> r is None,
    {
        if vector >= IDT_ENTRIES as u64 {
            return None;
        }
        self.handlers[vector as usize]
    }
}

/// Registers an interrupt handler (see `IDT::register_isr`).
pub fn register_isr<H: Copy>(idt: &mut IDT<H>, idx: usize, handler: H) -> (r: bool)
    requires
        old(idt).wf(),
        idx < IDT_ENTRIES,
    ensures
        final(idt).wf(),
        r == old(idt).handlers@[idx as int] is None,
        r ==> final(idt).handlers@ == old(idt).handlers@.update(idx as int, Some(handler)),
        !r ==> final(idt).handlers@ == old(idt).handlers@,
{
    idt.register_isr(idx, handler)
}

/// Unregisters an interrupt handler (see `IDT::unregister_isr`).
pub fn unregister_isr<H: Copy>(idt: &mut IDT<H>, idx: usize) -> (r: bool)
    requires
        old(idt).wf(),
        idx < IDT_ENTRIES,
    ensures
        final(idt).wf(),
        r == old(idt).handlers@[idx as int] is Some,
        final(idt).handlers@ == old(idt).handlers@.update(idx as int, None),
{
    idt.unregister_isr(idx)
}

} // verus!
