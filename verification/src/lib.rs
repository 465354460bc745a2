//! Boot-time physical-memory and ACPI core for a UEFI loader.
//!
//! The crate reconciles firmware memory descriptors into free extents,
//! carves them into page frames, validates the chain of checksummed
//! system description tables, and drives the AML-backed power-control
//! path.  Firmware and hardware access stays outside; everything here
//! works on plain values and is verified.

pub mod acpi_methods;
pub mod allocator;
pub mod checksum;
pub mod fadt;
pub mod fat32;
pub mod rsdp;
pub mod sdt;
pub mod system;
pub mod terminal;
pub mod locator;
pub mod mapper;
pub mod primitives;
pub mod frame_allocator;
pub mod memory_map;
