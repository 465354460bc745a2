//! Fixed description table: the table carrying the power-management
//! register addresses.

use vstd::prelude::*;
use vstd::bytes::{spec_u16_from_le_bytes, spec_u32_from_le_bytes, spec_u64_from_le_bytes,
    u16_from_le_bytes, u32_from_le_bytes, u64_from_le_bytes};
use vstd::slice::{slice_index_get, slice_subrange};
use crate::sdt::{SdtHeader, SdtError, sdt_valid, sdt_error_of, sdt_length, fadt_sig,
    fadt_signature};

verus! {

/// Position of a hardware register, as the tables describe it.
#[derive(Clone, Copy, PartialEq, Eq, Structural, Debug)]
pub struct GenericAddressStructure {
    pub address_space: u8,
    pub bit_width: u8,
    pub bit_offset: u8,
    pub access_size: u8,
    pub address: u64,
}

impl GenericAddressStructure {
    /// Reads a register description from twelve bytes of a table.
    pub fn parse(bytes: &[u8], offset: usize) -> (g: GenericAddressStructure)
        requires
            offset + 12 <= bytes@.len(),
        ensures
            g.address_space == bytes@[offset as int],
            g.bit_width == bytes@[offset + 1],
            g.bit_offset == bytes@[offset + 2],
            g.access_size == bytes@[offset + 3],
            g.address == spec_u64_from_le_bytes(bytes@.subrange(offset + 4, offset + 12)),
    {
        let n = bytes.len();
        proof {
            assert(offset + 12 <= n);
        }
        GenericAddressStructure {
            address_space: *slice_index_get(bytes, offset),
            bit_width: *slice_index_get(bytes, offset + 1),
            bit_offset: *slice_index_get(bytes, offset + 2),
            access_size: *slice_index_get(bytes, offset + 3),
            address: u64_from_le_bytes(slice_subrange(bytes, offset + 4, offset + 12)),
        }
    }
}

/// The machine class the firmware says this board serves.
#[derive(Clone, Copy, PartialEq, Eq, Structural, Debug)]
pub enum PowerProfile {
    Unspecified,
    Desktop,
    Mobile,
    Workstation,
    EnterpriseServer,
    SohoServer,
    AppliancePc,
    PerformanceServer,
    Tablet,
    Reserved(u8),
}

/// The profile a preferred-profile byte names.
pub open spec fn spec_power_profile(b: u8) -> PowerProfile {
    if b == 0 {
        PowerProfile::Unspecified
    } else if b == 1 {
        PowerProfile::Desktop
    } else if b == 2 {
        PowerProfile::Mobile
    } else if b == 3 {
        PowerProfile::Workstation
    } else if b == 4 {
        PowerProfile::EnterpriseServer
    } else if b == 5 {
        PowerProfile::SohoServer
    } else if b == 6 {
        PowerProfile::AppliancePc
    } else if b == 7 {
        PowerProfile::PerformanceServer
    } else if b == 8 {
        PowerProfile::Tablet
    } else {
        PowerProfile::Reserved(b)
    }
}

/// Byte length a fixed description table needs for the fields this
/// core reads.
pub const FADT_MIN_LENGTH: usize = 116;

/// Offset of the extended power-management control register
/// description, present from longer table revisions on.
pub const FADT_X_PM1A_CONTROL_OFFSET: usize = 172;

/// The parsed fields agree with the table's byte image.
pub open spec fn fadt_matches(f: Fadt, bytes: Seq<u8>) -> bool {
    &&& f.header.signature@ =~= fadt_sig()
    &&& f.header.length == sdt_length(bytes)
    &&& f.firmware_ctrl == spec_u32_from_le_bytes(bytes.subrange(36, 40))
    &&& f.dsdt_address == spec_u32_from_le_bytes(bytes.subrange(40, 44))
    &&& f.preferred_pm_profile == bytes[45]
    &&& f.sci_interrupt == spec_u16_from_le_bytes(bytes.subrange(46, 48))
    &&& f.smi_cmd_port == spec_u32_from_le_bytes(bytes.subrange(48, 52))
    &&& f.acpi_enable == bytes[52]
    &&& f.acpi_disable == bytes[53]
    &&& f.pm1a_event_block == spec_u32_from_le_bytes(bytes.subrange(56, 60))
    &&& f.pm1b_event_block == spec_u32_from_le_bytes(bytes.subrange(60, 64))
    &&& f.pm1a_control_block == spec_u32_from_le_bytes(bytes.subrange(64, 68))
    &&& f.pm1b_control_block == spec_u32_from_le_bytes(bytes.subrange(68, 72))
    &&& f.flags == spec_u32_from_le_bytes(bytes.subrange(112, 116))
    &&& f.x_pm1a_control_block is Some <==> sdt_length(bytes) >= FADT_X_PM1A_CONTROL_OFFSET
        + 12
    &&& f.x_pm1a_control_block matches Some(g) ==> g.address == spec_u64_from_le_bytes(
        bytes.subrange(FADT_X_PM1A_CONTROL_OFFSET + 4, FADT_X_PM1A_CONTROL_OFFSET + 12),
    )
}

/// Fixed description table, reduced to the fields this core reads:
/// the definition-block address, the machine profile, and the
/// power-management register blocks.
#[derive(Clone, Copy, PartialEq, Eq, Debug)]
pub struct Fadt {
    pub header: SdtHeader,
    pub firmware_ctrl: u32,
    pub dsdt_address: u32,
    pub preferred_pm_profile: u8,
    pub sci_interrupt: u16,
    pub smi_cmd_port: u32,
    pub acpi_enable: u8,
    pub acpi_disable: u8,
    pub pm1a_event_block: u32,
    pub pm1b_event_block: u32,
    pub pm1a_control_block: u32,
    pub pm1b_control_block: u32,
    pub flags: u32,
    pub x_pm1a_control_block: Option<GenericAddressStructure>,
}

impl Fadt {
    /// Validates a fixed-description-table image and reads out the
    /// fields this core uses.  A table too short for them, though
    /// internally valid, is rejected as truncated.
    pub fn parse(bytes: &[u8]) -> (r: Result<Fadt, SdtError>)
        ensures
            r is Ok <==> sdt_valid(bytes@, fadt_sig()) && sdt_length(bytes@)
                >= FADT_MIN_LENGTH,
            r matches Err(e) ==> e == if !sdt_valid(bytes@, fadt_sig()) {
                sdt_error_of(bytes@, fadt_sig())
            } else {
                SdtError::Truncated
            },
            r matches Ok(f) ==> fadt_matches(f, bytes@),
    {
        let expected = fadt_signature();
        let header = match SdtHeader::validate(bytes, &expected) {
            Ok(h) => h,
            Err(e) => {
                return Err(e);
            },
        };
        if header.length < FADT_MIN_LENGTH as u32 {
            return Err(SdtError::Truncated);
        }
        let x_pm1a_control_block = if header.length as usize >= FADT_X_PM1A_CONTROL_OFFSET + 12 {
            Some(GenericAddressStructure::parse(bytes, FADT_X_PM1A_CONTROL_OFFSET))
        } else {
            None
        };
        Ok(
            Fadt {
                header,
                firmware_ctrl: u32_from_le_bytes(slice_subrange(bytes, 36, 40)),
                dsdt_address: u32_from_le_bytes(slice_subrange(bytes, 40, 44)),
                preferred_pm_profile: *slice_index_get(bytes, 45),
                sci_interrupt: u16_from_le_bytes(slice_subrange(bytes, 46, 48)),
                smi_cmd_port: u32_from_le_bytes(slice_subrange(bytes, 48, 52)),
                acpi_enable: *slice_index_get(bytes, 52),
                acpi_disable: *slice_index_get(bytes, 53),
                pm1a_event_block: u32_from_le_bytes(slice_subrange(bytes, 56, 60)),
                pm1b_event_block: u32_from_le_bytes(slice_subrange(bytes, 60, 64)),
                pm1a_control_block: u32_from_le_bytes(slice_subrange(bytes, 64, 68)),
                pm1b_control_block: u32_from_le_bytes(slice_subrange(bytes, 68, 72)),
                flags: u32_from_le_bytes(slice_subrange(bytes, 112, 116)),
                x_pm1a_control_block,
            },
        )
    }

    /// The machine profile named by the preferred-profile byte.
    pub fn power_profile(&self) -> (p: PowerProfile)
        ensures
            p == spec_power_profile(self.preferred_pm_profile),
    {
        match self.preferred_pm_profile {
            0 => PowerProfile::Unspecified,
            1 => PowerProfile::Desktop,
            2 => PowerProfile::Mobile,
            3 => PowerProfile::Workstation,
            4 => PowerProfile::EnterpriseServer,
            5 => PowerProfile::SohoServer,
            6 => PowerProfile::AppliancePc,
            7 => PowerProfile::PerformanceServer,
            8 => PowerProfile::Tablet,
            b => PowerProfile::Reserved(b),
        }
    }
}

} // verus!
