//! Verified core of a RISC-V partitioning hypervisor's multi-hart bring-up:
//! physical memory layout, hart election and mailboxes, the orchestrator's
//! per-hart dispatch plan, the boot page tables, PMP windows, the device-tree
//! reader and memory masking, and each hart's own preparation of its guest.

pub mod layout;
pub mod election;
pub mod machine;
pub mod boot_table;
pub mod dispatch;
pub mod pmp;
pub mod fdt;
pub mod bringup;
