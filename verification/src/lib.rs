//! Core logic of a second-stage x86-64 bootloader.
//!
//! The crate models and verifies the parts of the boot path that decide
//! things: the physical memory map and frame allocator, the ELF segment
//! extractor, the page-table construction, the multiprocessor bring-up
//! protocol, and the boot-information handoff structure.  The thin layer
//! that touches hardware (MMIO, privileged registers, the final jump into
//! the kernel) lives outside this library and only executes the plans and
//! state transitions that are computed and proved here.

pub mod memory_map;
pub mod frame_allocator;
pub mod elf;
pub mod page_table;
pub mod bringup;
pub mod bootinfo;
pub mod boot_flow;
