//! Handles to the firmware-reported system tables.

use vstd::prelude::*;

verus! {

/// One entry of the firmware configuration table: a vendor GUID and
/// the physical address of the table it announces.
#[derive(Clone, Copy, PartialEq, Eq, Debug)]
pub struct ConfigTableEntry {
    pub guid: [u8; 16],
    pub address: u64,
}

/// GUID announcing a first-revision root pointer, in byte order.
pub open spec fn acpi_v1_guid() -> Seq<u8> {
    seq![
        0x30u8, 0x2du8, 0x9du8, 0xebu8, 0x88u8, 0x2du8, 0xd3u8, 0x11u8, 0x9au8, 0x16u8, 0x00u8,
        0x90u8, 0x27u8, 0x3fu8, 0xc1u8, 0x4du8,
    ]
}

/// GUID announcing an extended root pointer, in byte order.
pub open spec fn acpi_v2_guid() -> Seq<u8> {
    seq![
        0x71u8, 0xe8u8, 0x68u8, 0x88u8, 0xf1u8, 0xe4u8, 0xd3u8, 0x11u8, 0xbcu8, 0x22u8, 0x00u8,
        0x80u8, 0xc7u8, 0x3cu8, 0x88u8, 0x81u8,
    ]
}

fn guid_eq(g: &[u8; 16], h: [u8; 16]) -> (r: bool)
    ensures
        r == (g@ =~= h@),
{
    let mut i: usize = 0;
    let mut same = true;
    while i < 16
        invariant
            0 <= i <= 16,
            same == (forall|t: int| 0 <= t < i ==> g@[t] == h@[t]),
        decreases 16 - i,
    {
        if g[i] != h[i] {
            same = false;
        }
        i = i + 1;
    }
    same
}

/// The first-revision root-pointer GUID as a value.
pub fn acpi_v1_guid_bytes() -> (g: [u8; 16])
    ensures
        g@ =~= acpi_v1_guid(),
{
    [
        0x30,
        0x2d,
        0x9d,
        0xeb,
        0x88,
        0x2d,
        0xd3,
        0x11,
        0x9a,
        0x16,
        0x00,
        0x90,
        0x27,
        0x3f,
        0xc1,
        0x4d,
    ]
}

/// The extended root-pointer GUID as a value.
pub fn acpi_v2_guid_bytes() -> (g: [u8; 16])
    ensures
        g@ =~= acpi_v2_guid(),
{
    [
        0x71,
        0xe8,
        0x68,
        0x88,
        0xf1,
        0xe4,
        0xd3,
        0x11,
        0xbc,
        0x22,
        0x00,
        0x80,
        0xc7,
        0x3c,
        0x88,
        0x81,
    ]
}

/// The physical addresses of the candidate root pointers the
/// firmware announced: the plain one and the extended one.
#[derive(Clone, Copy, PartialEq, Eq, Debug)]
pub struct SystemHandles {
    pub acpi: Option<u64>,
    pub acpi2: Option<u64>,
}

/// The candidate the locator starts from: the extended pointer
/// whenever one was announced, the plain one otherwise.
pub open spec fn spec_root_pointer(h: SystemHandles) -> Option<u64> {
    if h.acpi2 is Some {
        h.acpi2
    } else {
        h.acpi
    }
}

/// What scanning the configuration entries in order leaves in the
/// handles: for each kind, the address of its last announcement.
pub open spec fn spec_handles_of(entries: Seq<ConfigTableEntry>) -> SystemHandles
    decreases entries.len(),
{
    if entries.len() == 0 {
        SystemHandles { acpi: None, acpi2: None }
    } else {
        let prev = spec_handles_of(entries.drop_last());
        let e = entries.last();
        if e.guid@ =~= acpi_v1_guid() {
            SystemHandles { acpi: Some(e.address), ..prev }
        } else if e.guid@ =~= acpi_v2_guid() {
            SystemHandles { acpi2: Some(e.address), ..prev }
        } else {
            prev
        }
    }
}

impl SystemHandles {
    /// Gathers the root-pointer handles from the firmware
    /// configuration table entries.
    pub fn get(entries: &Vec<ConfigTableEntry>) -> (h: SystemHandles)
        ensures
            h == spec_handles_of(entries@),
    {
        let mut h = SystemHandles { acpi: None, acpi2: None };
        let n = entries.len();
        let mut i: usize = 0;
        while i < n
            invariant
                n == entries@.len(),
                0 <= i <= n,
                h == spec_handles_of(entries@.subrange(0, i as int)),
            decreases n - i,
        {
            let e = entries[i];
            proof {
                assert(entries@.subrange(0, i + 1).drop_last() =~= entries@.subrange(0, i as int));
                assert(entries@.subrange(0, i + 1).last() == e);
            }
            if guid_eq(&e.guid, acpi_v1_guid_bytes()) {
                h = SystemHandles { acpi: Some(e.address), ..h };
            } else if guid_eq(&e.guid, acpi_v2_guid_bytes()) {
                h = SystemHandles { acpi2: Some(e.address), ..h };
            }
            i = i + 1;
        }
        proof {
            assert(entries@.subrange(0, n as int) =~= entries@);
        }
        h
    }

    /// The root pointer the locator will use.
    pub fn root_pointer(&self) -> (r: Option<u64>)
        ensures
            r == spec_root_pointer(*self),
    {
        match self.acpi2 {
            Some(a) => Some(a),
            None => self.acpi,
        }
    }
}

/// Whenever an extended root pointer was announced, the locator
/// starts from it, never from the plain one.
pub proof fn lemma_root_pointer_prefers_v2(h: SystemHandles)
    requires
        h.acpi2 is Some,
    ensures
        spec_root_pointer(h) == h.acpi2,
{
}

/// Why the power path could not run.
#[derive(Clone, Copy, PartialEq, Eq, Structural, Debug)]
pub enum AmlError {
    ParseFailed,
    ObjectNotFound,
}

/// Boot-sequence error: every validation or lookup failure below
/// surfaces here, typed.
#[derive(Clone, Copy, PartialEq, Eq, Debug)]
pub enum Error {
    RsdpNotFound,
    NoAmlContext,
    AcpiError(crate::locator::TableError),
    AmlError(AmlError),
}

impl From<crate::locator::TableError> for Error {
    fn from(orig: crate::locator::TableError) -> (r: Error)
        ensures
            r == Error::AcpiError(orig),
    {
        Error::AcpiError(orig)
    }
}

impl vstd::std_specs::convert::FromSpecImpl<crate::locator::TableError> for Error {
    open spec fn obeys_from_spec() -> bool {
        true
    }

    open spec fn from_spec(orig: crate::locator::TableError) -> Error {
        Error::AcpiError(orig)
    }
}

impl From<AmlError> for Error {
    fn from(orig: AmlError) -> (r: Error)
        ensures
            r == Error::AmlError(orig),
    {
        Error::AmlError(orig)
    }
}

impl vstd::std_specs::convert::FromSpecImpl<AmlError> for Error {
    open spec fn obeys_from_spec() -> bool {
        true
    }

    open spec fn from_spec(orig: AmlError) -> Error {
        Error::AmlError(orig)
    }
}

/// Common header every standard firmware table begins with.
#[derive(Clone, Copy, PartialEq, Eq, Structural, Debug)]
pub struct Header {
    pub signature: u64,
    pub revision: u32,
    pub length: u32,
    pub crc: u32,
    /// Must be zero.
    pub reserved: u32,
}

} // verus!
