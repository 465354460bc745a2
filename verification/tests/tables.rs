use boot_core::fadt::{Fadt, PowerProfile};
use boot_core::locator::{locate, PhysMemory, TableError, TableSet};
use boot_core::rsdp::{Rsdp, RsdpError};
use boot_core::sdt::{SdtError, SdtHeader};
use boot_core::system::{ConfigTableEntry, SystemHandles};

fn fix_checksum(buf: &mut Vec<u8>, at: usize) {
    buf[at] = 0;
    let sum: u32 = buf.iter().map(|b| *b as u32).sum();
    buf[at] = ((256 - (sum % 256)) % 256) as u8;
}

/// A first-revision root pointer image with a good checksum.
fn rsdp_v1(rsdt_address: u32) -> Vec<u8> {
    let mut b = vec![0u8; 20];
    b[0..8].copy_from_slice(b"RSD PTR ");
    b[9..15].copy_from_slice(b"OEMIDX");
    b[15] = 0;
    b[16..20].copy_from_slice(&rsdt_address.to_le_bytes());
    fix_checksum(&mut b, 8);
    b
}

/// An extended root pointer image with a good checksum.
fn rsdp_v2(xsdt_address: u64) -> Vec<u8> {
    let mut b = vec![0u8; 36];
    b[0..8].copy_from_slice(b"RSD PTR ");
    b[9..15].copy_from_slice(b"OEMIDX");
    b[15] = 2;
    b[20..24].copy_from_slice(&36u32.to_le_bytes());
    b[24..32].copy_from_slice(&xsdt_address.to_le_bytes());
    fix_checksum(&mut b, 8);
    b
}

/// A system description table with the given signature and payload.
fn sdt(sig: &[u8; 4], payload: &[u8]) -> Vec<u8> {
    let len = 36 + payload.len();
    let mut b = vec![0u8; len];
    b[0..4].copy_from_slice(sig);
    b[4..8].copy_from_slice(&(len as u32).to_le_bytes());
    b[8] = 1;
    b[10..16].copy_from_slice(b"OEMIDX");
    b[16..24].copy_from_slice(b"TABLEIDX");
    b[36..].copy_from_slice(payload);
    fix_checksum(&mut b, 9);
    b
}

/// A fixed description table long enough for the parsed fields.
fn fadt_table(dsdt_address: u32, pm1a: u32, profile: u8) -> Vec<u8> {
    let mut payload = vec![0u8; 80];
    payload[4..8].copy_from_slice(&dsdt_address.to_le_bytes()); // offset 40
    payload[9] = profile; // offset 45
    payload[28..32].copy_from_slice(&pm1a.to_le_bytes()); // offset 64
    sdt(b"FACP", &payload)
}

#[test]
fn valid_v1_root_pointer_is_accepted() {
    let b = rsdp_v1(0x1234);
    let p = Rsdp::validate(&b).unwrap();
    assert_eq!(p.revision, 0);
    assert_eq!(p.rsdt_address, 0x1234);
    assert_eq!(&p.oem_id, b"OEMIDX");
}

#[test]
fn valid_v2_root_pointer_is_accepted() {
    let b = rsdp_v2(0xdead_0000);
    let p = Rsdp::validate(&b).unwrap();
    assert_eq!(p.revision, 2);
    assert_eq!(p.length, 36);
    assert_eq!(p.xsdt_address, 0xdead_0000);
}

#[test]
fn flipping_any_payload_byte_fails_the_checksum() {
    let good = rsdp_v1(0x1234);
    // Corrupt each byte outside the signature and OEM text fields in
    // turn: every corruption must be caught by the checksum.
    for i in 16..20 {
        let mut bad = good.clone();
        bad[i] = bad[i].wrapping_add(1);
        assert_eq!(Rsdp::validate(&bad), Err(RsdpError::InvalidChecksum), "byte {}", i);
    }
}

#[test]
fn wrong_signature_is_rejected() {
    let mut b = rsdp_v1(0);
    b[0] = b'X';
    assert_eq!(Rsdp::validate(&b), Err(RsdpError::IncorrectSignature));
}

#[test]
fn invalid_oem_text_is_rejected() {
    let mut b = rsdp_v1(0);
    b[9] = 0xff;
    assert_eq!(Rsdp::validate(&b), Err(RsdpError::InvalidOemId));
}

#[test]
fn short_root_pointer_buffer_is_rejected() {
    let b = vec![0u8; 10];
    assert_eq!(Rsdp::validate(&b), Err(RsdpError::NoValidRsdp));
}

#[test]
fn sdt_header_round_trip() {
    let b = sdt(b"XSDT", &[1, 2, 3, 4]);
    let h = SdtHeader::validate(&b, b"XSDT").unwrap();
    assert_eq!(&h.signature, b"XSDT");
    assert_eq!(h.length as usize, b.len());
    assert_eq!(&h.oem_table_id, b"TABLEIDX");
}

#[test]
fn sdt_signature_mismatch_is_typed() {
    let b = sdt(b"XSDT", &[]);
    assert_eq!(SdtHeader::validate(&b, b"RSDT"), Err(SdtError::InvalidSignature));
}

#[test]
fn sdt_checksum_corruption_is_typed() {
    let mut b = sdt(b"XSDT", &[9, 9]);
    let last: usize = b.len() - 1;
    b[last] = b[last].wrapping_add(7);
    assert_eq!(SdtHeader::validate(&b, b"XSDT"), Err(SdtError::InvalidChecksum));
}

#[test]
fn sdt_oem_text_errors_are_typed() {
    let mut b = sdt(b"XSDT", &[]);
    b[10] = 0xff;
    assert_eq!(SdtHeader::validate(&b, b"XSDT"), Err(SdtError::InvalidOemId));
    let mut c = sdt(b"XSDT", &[]);
    c[16] = 0xff;
    assert_eq!(SdtHeader::validate(&c, b"XSDT"), Err(SdtError::InvalidTableId));
}

#[test]
fn sdt_truncated_buffer_is_typed() {
    let b = vec![0u8; 20];
    assert_eq!(SdtHeader::validate(&b, b"XSDT"), Err(SdtError::Truncated));
}

#[test]
fn fadt_fields_are_read_from_their_offsets() {
    let b = fadt_table(0x7777, 0x604, 1);
    let f = Fadt::parse(&b).unwrap();
    assert_eq!(f.dsdt_address, 0x7777);
    assert_eq!(f.pm1a_control_block, 0x604);
    assert_eq!(f.power_profile(), PowerProfile::Desktop);
}

#[test]
fn power_profiles_cover_the_reserved_range() {
    let known = [
        PowerProfile::Unspecified,
        PowerProfile::Desktop,
        PowerProfile::Mobile,
        PowerProfile::Workstation,
        PowerProfile::EnterpriseServer,
        PowerProfile::SohoServer,
        PowerProfile::AppliancePc,
        PowerProfile::PerformanceServer,
        PowerProfile::Tablet,
    ];
    for (i, want) in known.iter().enumerate() {
        let b = fadt_table(0, 0, i as u8);
        assert_eq!(Fadt::parse(&b).unwrap().power_profile(), *want);
    }
    let b = fadt_table(0, 0, 11);
    assert_eq!(Fadt::parse(&b).unwrap().power_profile(), PowerProfile::Reserved(11));
}

/// A complete chain: extended root pointer, 64-bit root table, fixed
/// table, one secondary block, one primary block.
fn whole_chain() -> (SystemHandles, PhysMemory) {
    let dsdt = sdt(b"DSDT", &[0xAA, 0xBB]);
    let ssdt = sdt(b"SSDT", &[0xCC]);
    let facp = fadt_table(0x6000, 0x604, 1);
    let mut xsdt_payload = Vec::new();
    xsdt_payload.extend_from_slice(&0x4000u64.to_le_bytes());
    xsdt_payload.extend_from_slice(&0x5000u64.to_le_bytes());
    let xsdt = sdt(b"XSDT", &xsdt_payload);
    let rsdp = rsdp_v2(0x3000);

    let mut mem = PhysMemory::new();
    mem.add_region(0x2000, rsdp);
    mem.add_region(0x3000, xsdt);
    mem.add_region(0x4000, facp);
    mem.add_region(0x5000, ssdt);
    mem.add_region(0x6000, dsdt);
    let handles = SystemHandles { acpi: None, acpi2: Some(0x2000) };
    (handles, mem)
}

#[test]
fn locate_walks_the_whole_chain() {
    let (handles, mem) = whole_chain();
    let ts: TableSet = locate(&handles, &mem).unwrap();
    assert_eq!(ts.fadt.pm1a_control_block, 0x604);
    assert_eq!(ts.fadt.dsdt_address, 0x6000);
    assert_eq!(ts.dsdt.as_deref(), Some(&[0xAA, 0xBB][..]));
    assert_eq!(ts.ssdts.len(), 1);
    assert_eq!(&ts.ssdts[0], &vec![0xCC]);
}

#[test]
fn locate_needs_some_root_pointer() {
    let mem = PhysMemory::new();
    let handles = SystemHandles { acpi: None, acpi2: None };
    assert_eq!(locate(&handles, &mem).err(), Some(TableError::RootPointerNotFound));
}

#[test]
fn locate_prefers_the_extended_pointer() {
    let (mut handles, mem) = whole_chain();
    // Make the plain pointer point nowhere: only the extended chain
    // is valid, so success shows the extended one was used.
    handles.acpi = Some(0xffff_0000);
    let ts = locate(&handles, &mem).unwrap();
    assert_eq!(ts.fadt.pm1a_control_block, 0x604);
    // With only the plain pointer, the walk fails.
    handles.acpi2 = None;
    assert!(locate(&handles, &mem).is_err());
}

#[test]
fn locate_reports_a_corrupt_root_pointer() {
    let (handles, mut mem) = whole_chain();
    mem.regions[0].bytes[17] = mem.regions[0].bytes[17].wrapping_add(1);
    assert_eq!(
        locate(&handles, &mem).err(),
        Some(TableError::RootPointer(RsdpError::InvalidChecksum))
    );
}

#[test]
fn locate_reports_a_corrupt_root_table() {
    let (handles, mut mem) = whole_chain();
    // Rebuild the root table with a broken checksum.
    let mut xsdt_payload = Vec::new();
    xsdt_payload.extend_from_slice(&0x4000u64.to_le_bytes());
    xsdt_payload.extend_from_slice(&0x5000u64.to_le_bytes());
    let mut xsdt = sdt(b"XSDT", &xsdt_payload);
    xsdt[35] = xsdt[35].wrapping_add(1);
    mem.regions[1].bytes = xsdt;
    assert_eq!(
        locate(&handles, &mem).err(),
        Some(TableError::Table(SdtError::InvalidChecksum))
    );
}

#[test]
fn locate_without_fixed_table_is_typed() {
    let ssdt = sdt(b"SSDT", &[0xCC]);
    let mut xsdt_payload = Vec::new();
    xsdt_payload.extend_from_slice(&0x5000u64.to_le_bytes());
    let xsdt = sdt(b"XSDT", &xsdt_payload);
    let rsdp = rsdp_v2(0x3000);
    let mut mem = PhysMemory::new();
    mem.add_region(0x2000, rsdp);
    mem.add_region(0x3000, xsdt);
    mem.add_region(0x5000, ssdt);
    let handles = SystemHandles { acpi: None, acpi2: Some(0x2000) };
    assert_eq!(locate(&handles, &mem).err(), Some(TableError::FadtNotFound));
}

#[test]
fn locate_follows_a_v1_chain() {
    let facp = fadt_table(0, 0x404, 0);
    let mut rsdt_payload = Vec::new();
    rsdt_payload.extend_from_slice(&0x4000u32.to_le_bytes());
    let rsdt = sdt(b"RSDT", &rsdt_payload);
    let rsdp = rsdp_v1(0x3000);
    let mut mem = PhysMemory::new();
    mem.add_region(0x2000, rsdp);
    mem.add_region(0x3000, rsdt);
    mem.add_region(0x4000, facp);
    let handles = SystemHandles { acpi: Some(0x2000), acpi2: None };
    let ts = locate(&handles, &mem).unwrap();
    assert_eq!(ts.fadt.pm1a_control_block, 0x404);
    assert!(ts.dsdt.is_none());
    assert!(ts.ssdts.is_empty());
}

#[test]
fn config_table_scan_finds_both_pointers() {
    let v1: [u8; 16] = [
        0x30, 0x2d, 0x9d, 0xeb, 0x88, 0x2d, 0xd3, 0x11, 0x9a, 0x16, 0x00, 0x90, 0x27, 0x3f, 0xc1,
        0x4d,
    ];
    let v2: [u8; 16] = [
        0x71, 0xe8, 0x68, 0x88, 0xf1, 0xe4, 0xd3, 0x11, 0xbc, 0x22, 0x00, 0x80, 0xc7, 0x3c, 0x88,
        0x81,
    ];
    let entries = vec![
        ConfigTableEntry { guid: [9; 16], address: 0x1 },
        ConfigTableEntry { guid: v1, address: 0x111 },
        ConfigTableEntry { guid: v2, address: 0x222 },
    ];
    let h = SystemHandles::get(&entries);
    assert_eq!(h.acpi, Some(0x111));
    assert_eq!(h.acpi2, Some(0x222));
    assert_eq!(h.root_pointer(), Some(0x222));
}

#[test]
fn root_pointer_prefers_v2_and_falls_back() {
    let both = SystemHandles { acpi: Some(1), acpi2: Some(2) };
    assert_eq!(both.root_pointer(), Some(2));
    let only_v1 = SystemHandles { acpi: Some(1), acpi2: None };
    assert_eq!(only_v1.root_pointer(), Some(1));
    let none = SystemHandles { acpi: None, acpi2: None };
    assert_eq!(none.root_pointer(), None);
}
