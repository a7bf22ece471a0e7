//! Core of a small preemptive x86_64 kernel: physical frame and page-table
//! pool allocation, per-task address spaces, saved CPU contexts, the task
//! table with its round-robin scheduler, and the interrupt and timer tables
//! that drive it. Every piece of state that the kernel keeps globally is
//! modelled here as an owned value, so that its invariants can be stated
//! and proved; the thin layer that touches the hardware lives outside.

pub mod bitmap;
pub mod bits;
pub mod error;
pub mod gdt;
pub mod mmu;
pub mod context;
pub mod dfs;
pub mod task;
pub mod timer;
pub mod tss;
pub mod pci;
pub mod idt;
pub mod pic;
