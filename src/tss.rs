//! The 64-bit task-state segment: the stack the CPU switches to when an
//! interrupt arrives in user mode.
use vstd::prelude::*;

verus! {

/// Task-state segment in the hardware layout.
#[derive(Clone, Copy, Debug)]
pub struct TSS {
    pub reserved_1: u32,
    /// Stack pointers for privilege levels 0-2.
    pub privilege_stack_table: [u64; 3],
    pub reserved_2: u64,
    /// Interrupt stack table.
    pub interrupt_stack_table: [u64; 7],
    pub reserved_3: u64,
    pub reserved_4: u16,
    /// Offset of the I/O permission bitmap from the segment base.
    pub iomap_base: u16,
}

impl TSS {
    /// A segment with every field zero.
    pub fn new() -> (r: Self)
        ensures
            r.reserved_1 == 0 && r.reserved_2 == 0 && r.reserved_3 == 0 && r.reserved_4 == 0,
            r.iomap_base == 0,
            forall|i: int| 0 <= i < 3 ==> r.privilege_stack_table[i] == 0,
            forall|i: int| 0 <= i < 7 ==> r.interrupt_stack_table[i] == 0,
    {
        TSS {
            reserved_1: 0,
            privilege_stack_table: [0u64; 3],
            reserved_2: 0,
            interrupt_stack_table: [0u64; 7],
            reserved_3: 0,
            reserved_4: 0,
            iomap_base: 0,
        }
    }

    /// Makes `stack_top` the stack used on entry from user mode, both as
    /// the privilege-0 stack and as the first interrupt stack.
    pub fn set_kernel_stack(&mut self, stack_top: u64)
        ensures
            final(self).privilege_stack_table[0] == stack_top,
            final(self).interrupt_stack_table[0] == stack_top,
            forall|i: int| 1 <= i < 3 ==> final(self).privilege_stack_table[i] == old(self).privilege_stack_table[i],
            forall|i: int| 1 <= i < 7 ==> final(self).interrupt_stack_table[i] == old(self).interrupt_stack_table[i],
            final(self).iomap_base == old(self).iomap_base,
    {
        self.privilege_stack_table[0] = stack_top;
        self.interrupt_stack_table[0] = stack_top;
    }
}

} // verus!
