//! PCI configuration space addressing.
use vstd::prelude::*;

verus! {

/// Port that selects a configuration register.
pub const CONFIG_ADDRESS: u16 = 0xCF8;
/// Port that reads or writes the selected register.
pub const CONFIG_DATA: u16 = 0xCFC;
/// Vendor identifier read from a slot with no device.
pub const NO_VENDOR: u32 = 0xFFFF;

/// The value written to `CONFIG_ADDRESS` to select register `offset` of
/// function `func` of device `dev` on bus `bus`.
pub open spec fn config_address_spec(bus: u32, dev: u32, func: u32, offset: u32) -> u32 {
    0x8000_0000u32 | (bus << 16u32) | (dev << 11u32) | (func << 8u32) | (offset & 0xfcu32)
}

/// Computes the configuration address (see `config_address_spec`).
pub fn config_address(bus: u32, dev: u32, func: u32, offset: u32) -> (r: u32)
    ensures
        r == config_address_spec(bus, dev, func, offset),
{
    0x8000_0000u32 | (bus << 16) | (dev << 11) | (func << 8) | (offset & 0xfc)
}

/// Number of functions to probe on a device, from its header-type register
/// (the dword at offset 0xC): eight for a multi-function device.
pub fn function_count(bhlc: u32) -> (r: u32)
    ensures
        r == if (bhlc >> 16u32) & 0xffu32 > 0x80 { 8u32 } else { 1u32 },
{
    if (bhlc >> 16) & 0xFF > 0x80 {
        8
    } else {
        1
    }
}

/// One PCI bus.
pub struct PCIBus {
    pub busno: u32,
}

impl PCIBus {
    pub fn new(busno: u32) -> (r: Self)
        ensures
            r.busno == busno,
    {
        PCIBus { busno }
    }
}

} // verus!
