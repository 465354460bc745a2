use boot_core::acpi_methods::{pci_config_address, shutdown, shutdown_direct, sleep_object_path,
    sleep_register_value, wakeup, AmlBringUp, AmlState, AmlStep};
use boot_core::fadt::Fadt;
use boot_core::fat32::Date;
use boot_core::locator::{locate, PhysMemory, TableError, TableSet};
use boot_core::mapper::{page_range_inclusive, Mapper, TranslateStep};
use boot_core::primitives::{Color, Location, Pixel, PixelFormat, Size};
use boot_core::system::{AmlError, Error, SystemHandles};
use boot_core::terminal::{Commands, ShellCommand};

fn fix_checksum(buf: &mut Vec<u8>, at: usize) {
    buf[at] = 0;
    let sum: u32 = buf.iter().map(|b| *b as u32).sum();
    buf[at] = ((256 - (sum % 256)) % 256) as u8;
}

fn sdt(sig: &[u8; 4], payload: &[u8]) -> Vec<u8> {
    let len = 36 + payload.len();
    let mut b = vec![0u8; len];
    b[0..4].copy_from_slice(sig);
    b[4..8].copy_from_slice(&(len as u32).to_le_bytes());
    b[10..16].copy_from_slice(b"OEMIDX");
    b[16..24].copy_from_slice(b"TABLEIDX");
    b[36..].copy_from_slice(payload);
    fix_checksum(&mut b, 9);
    b
}

fn sample_fadt(pm1a: u32) -> Fadt {
    let mut payload = vec![0u8; 80];
    payload[28..32].copy_from_slice(&pm1a.to_le_bytes());
    let b = sdt(b"FACP", &payload);
    Fadt::parse(&b).unwrap()
}

fn sample_tables(with_dsdt: bool, ssdts: usize) -> TableSet {
    let mut payload = vec![0u8; 80];
    if with_dsdt {
        payload[4..8].copy_from_slice(&0x6000u32.to_le_bytes());
    }
    let facp = sdt(b"FACP", &payload);
    let mut xsdt_payload = Vec::new();
    xsdt_payload.extend_from_slice(&0x4000u64.to_le_bytes());
    let mut mem = PhysMemory::new();
    mem.add_region(0x4000, facp);
    for k in 0..ssdts {
        let base = 0x8000 + 0x1000 * (k as u64);
        xsdt_payload.extend_from_slice(&base.to_le_bytes());
        mem.add_region(base, sdt(b"SSDT", &[k as u8]));
    }
    if with_dsdt {
        mem.add_region(0x6000, sdt(b"DSDT", &[0x11]));
    }
    let xsdt = sdt(b"XSDT", &xsdt_payload);
    mem.add_region(0x3000, xsdt);
    let mut rsdp = vec![0u8; 36];
    rsdp[0..8].copy_from_slice(b"RSD PTR ");
    rsdp[9..15].copy_from_slice(b"OEMIDX");
    rsdp[15] = 2;
    rsdp[20..24].copy_from_slice(&36u32.to_le_bytes());
    rsdp[24..32].copy_from_slice(&0x3000u64.to_le_bytes());
    fix_checksum(&mut rsdp, 8);
    mem.add_region(0x2000, rsdp);
    let handles = SystemHandles { acpi: None, acpi2: Some(0x2000) };
    locate(&handles, &mem).unwrap()
}

#[test]
fn bring_up_follows_the_protocol() {
    let ts = sample_tables(true, 2);
    let mut b = AmlBringUp::new(&ts);
    assert_eq!(b.state, AmlState::TablesLoaded);
    assert_eq!(b.next_step(), AmlStep::ParsePrimary);
    b.primary_parsed();
    assert_eq!(b.next_step(), AmlStep::ParseSecondary(0));
    b.secondary_parsed();
    assert_eq!(b.next_step(), AmlStep::ParseSecondary(1));
    b.secondary_parsed();
    assert_eq!(b.next_step(), AmlStep::InitializeObjects);
    b.objects_initialized();
    assert_eq!(b.next_step(), AmlStep::Done);
    assert!(b.is_ready());
    assert!(!b.degraded);
}

#[test]
fn bring_up_degrades_without_a_primary_block() {
    let ts = sample_tables(false, 0);
    let mut b = AmlBringUp::new(&ts);
    assert_eq!(b.next_step(), AmlStep::PrimaryAbsent);
    b.primary_absent();
    assert_eq!(b.next_step(), AmlStep::InitializeObjects);
    b.objects_initialized();
    assert!(b.is_ready());
    assert!(b.degraded);
}

#[test]
fn shutdown_needs_a_ready_namespace() {
    let ts = sample_tables(true, 0);
    let ctx = AmlBringUp::new(&ts);
    let fadt = sample_fadt(0x604);
    assert_eq!(shutdown(&ctx, &fadt, Some((5, 5))), Err(Error::NoAmlContext));
}

#[test]
fn shutdown_needs_the_sleep_object() {
    let ts = sample_tables(true, 0);
    let mut ctx = AmlBringUp::new(&ts);
    ctx.primary_parsed();
    ctx.objects_initialized();
    let fadt = sample_fadt(0x604);
    assert_eq!(
        shutdown(&ctx, &fadt, None),
        Err(Error::AmlError(AmlError::ObjectNotFound))
    );
}

#[test]
fn shutdown_builds_the_register_write() {
    let ts = sample_tables(true, 0);
    let mut ctx = AmlBringUp::new(&ts);
    ctx.primary_parsed();
    ctx.objects_initialized();
    let fadt = sample_fadt(0x604);
    let v = shutdown(&ctx, &fadt, Some((5, 5))).unwrap();
    assert_eq!(v.port, 0x604);
    assert_eq!(v.value, (5 << 10) | 0x2000);
}

#[test]
fn direct_shutdown_uses_the_fixed_pattern() {
    let fadt = sample_fadt(0xB2);
    let v = shutdown_direct(&fadt);
    assert_eq!(v.port, 0xB2);
    assert_eq!(v.value, 0x3c00);
}

#[test]
fn sleep_register_value_places_the_bits() {
    assert_eq!(sleep_register_value(0), 0x2000);
    assert_eq!(sleep_register_value(7), 0x3c00);
    assert_eq!(sleep_register_value(5), (5 << 10) | 0x2000);
}

#[test]
fn sleep_object_paths_are_rooted_names() {
    assert_eq!(sleep_object_path(5), "\\_S5");
    assert_eq!(sleep_object_path(0), "\\_S0");
    assert_eq!(sleep_object_path(3), "\\_S3");
}

#[test]
fn table_errors_convert_into_boot_errors() {
    assert_eq!(
        Error::from(TableError::FadtNotFound),
        Error::AcpiError(TableError::FadtNotFound)
    );
    assert_eq!(
        Error::from(AmlError::ParseFailed),
        Error::AmlError(AmlError::ParseFailed)
    );
}

#[test]
fn wakeup_never_fails() {
    assert_eq!(wakeup(), Ok(()));
}

#[test]
fn pci_addresses_are_checked_sums() {
    assert_eq!(pci_config_address(0xe000_0000, 0x10), Some(0xe000_0010));
    assert_eq!(pci_config_address(u64::MAX, 1), None);
}

#[test]
fn command_words_parse() {
    let one = |w: &str| vec![w.to_string()];
    assert_eq!(Commands::parse_command(&one("shutdown")), ShellCommand::Shutdown);
    assert_eq!(Commands::parse_command(&one("ls")), ShellCommand::Ls);
    assert_eq!(Commands::parse_command(&one("cd")), ShellCommand::Cd);
    assert_eq!(Commands::parse_command(&one("rm")), ShellCommand::Rm);
    assert_eq!(Commands::parse_command(&one("load")), ShellCommand::Load);
    assert_eq!(Commands::parse_command(&one("gop")), ShellCommand::Gop);
    assert_eq!(Commands::parse_command(&one("halt")), ShellCommand::NotFound);
    assert_eq!(Commands::parse_command(&Vec::new()), ShellCommand::NotFound);
    assert_eq!(
        Commands::parse_command(&vec!["ls".to_string(), "x".to_string()]),
        ShellCommand::NotFound
    );
}

#[test]
fn date_bit_fields_unpack() {
    // 2005-07-19: year 25 from 1980, month 7, day 19.
    let raw: u16 = (25 << 9) | (7 << 5) | 19;
    let d = Date::new(raw);
    assert_eq!(d.day(), 19);
    assert_eq!(d.month(), 7);
    assert_eq!(d.year(), 2005);
}

#[test]
fn primitive_tuples_and_pixels() {
    assert_eq!(Location { x: 3, y: -4 }.tuple(), (3, -4));
    assert_eq!(Size { width: 800, height: 600 }.tuple(), (800, 600));
    let c = Color::new(1, 2, 3);
    assert_eq!((c.red, c.green, c.blue), (1, 2, 3));
    assert_eq!(Pixel::new(c, PixelFormat::Rgb).inner, [1, 2, 3, 0]);
    assert_eq!(Pixel::new(c, PixelFormat::Bgr).inner, [3, 2, 1, 0]);
}

#[test]
fn page_walk_decisions() {
    let addr: u64 = 0xdead_beef_cafe_f00d;
    let idx = Mapper::page_table_indexes(addr);
    assert_eq!(idx[0] as u64, (addr >> 39) & 0x1ff);
    assert_eq!(idx[3] as u64, (addr >> 12) & 0x1ff);
    assert_eq!(Mapper::translate_step(0), TranslateStep::NotPresent);
    assert_eq!(Mapper::translate_step(0x2000 | 1), TranslateStep::Next(0x2000));
    assert_eq!(Mapper::translate_step(0x2000 | 1 | 0x80), TranslateStep::Huge);
    assert_eq!(Mapper::translate_finish(0x5000, 0xabc), 0x5abc);
}

#[test]
fn heap_page_ranges_are_inclusive() {
    assert_eq!(page_range_inclusive(0x1000, 0x1000), (1, 1));
    assert_eq!(page_range_inclusive(0x1800, 0x1000), (1, 2));
    assert_eq!(page_range_inclusive(0x1000, 1), (1, 1));
}
