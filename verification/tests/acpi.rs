use molecule::acpi::hpet::{hpet_sleep, init_hpet, Hpet, HpetTable};
use molecule::acpi::madt::{
    EntryHeader, IntSrcOverride, IoApic, Lapic, LapicAddrOverride, LapicNmi, IoApicNmi, Madt, MadtEntry,
};
use molecule::acpi::rsdp::{find_rsdt_addr, RsdpV1};
use molecule::acpi::rsdt::{populate_sub_tables, Rsdt, RsdtAddr};
use molecule::acpi::xsdt::Xsdt;
use molecule::acpi::{AcpiTables, SdtHeader, SdtSignature};
use molecule::bytes::{checksum_valid, read_u16_at, read_u32_at, read_u64_at};
use molecule::drivers::uart_16650::{
    LineStatus, PortWrite, SerialError, SerialPort, DATA_READY, TRANSMITTER_HOLDING_REGISTER_EMPTY,
};
use molecule::logger::{Level, MoleculeLogger};
use molecule::memory::addr::VirtAddr;

fn fix_checksum(bytes: &mut Vec<u8>, length: usize, at: usize) {
    bytes[at] = 0;
    let sum = bytes[..length].iter().fold(0u8, |sum, byte| sum.wrapping_add(*byte));
    bytes[at] = 0u8.wrapping_sub(sum);
}

fn table(signature: &[u8; 4], body: &[u8]) -> Vec<u8> {
    let mut bytes = vec![0u8; 36];
    bytes[0..4].copy_from_slice(signature);
    bytes[4..8].copy_from_slice(&((36 + body.len()) as u32).to_le_bytes());
    bytes[8] = 2;
    bytes[10..16].copy_from_slice(b"MAKER ");
    bytes[16..24].copy_from_slice(b"TABLE   ");
    bytes[24..28].copy_from_slice(&7u32.to_le_bytes());
    bytes[28..32].copy_from_slice(&0x1234_5678u32.to_le_bytes());
    bytes[32..36].copy_from_slice(&9u32.to_le_bytes());
    bytes.extend_from_slice(body);
    let length = bytes.len();
    fix_checksum(&mut bytes, length, 9);
    bytes
}

const HHDM: VirtAddr = VirtAddr(0xFFFF_8000_0000_0000);

#[test]
fn numbers_are_read_lowest_byte_first() {
    let bytes = vec![0x01, 0x02, 0x03, 0x04, 0x05, 0x06, 0x07, 0x08, 0x09];
    assert_eq!(read_u16_at(&bytes, 0), 0x0201);
    assert_eq!(read_u16_at(&bytes, 7), 0x0908);
    assert_eq!(read_u32_at(&bytes, 1), 0x0504_0302);
    assert_eq!(read_u64_at(&bytes, 1), 0x0908_0706_0504_0302);
    assert_eq!(read_u32_at(&vec![0xFF, 0xFF, 0xFF, 0xFF], 0), u32::MAX);
}

#[test]
fn checksums_add_up_to_zero() {
    assert!(checksum_valid(&vec![], 0));
    assert!(checksum_valid(&vec![0x10, 0xF0], 2));
    assert!(!checksum_valid(&vec![0x10, 0xF1], 2));
    assert!(checksum_valid(&vec![0x10, 0xF0, 0x55], 2));
    assert!(checksum_valid(&vec![0xFF; 256], 256));
    assert!(!checksum_valid(&vec![0xFF; 256], 255));
}

#[test]
fn a_header_is_parsed_from_a_sound_table() {
    let bytes = table(b"APIC", &[1, 2, 3, 4]);
    let header = SdtHeader::parse(&bytes, SdtSignature(*b"APIC")).unwrap();
    assert_eq!(header.signature, SdtSignature(*b"APIC"));
    assert_eq!(header.length, 40);
    assert_eq!(header.revision, 2);
    assert_eq!(header.checksum, bytes[9]);
    assert_eq!(&header.oem_id, b"MAKER ");
    assert_eq!(&header.oem_table_id, b"TABLE   ");
    assert_eq!(header.oem_revision, 7);
    assert_eq!(header.creator_id, 0x1234_5678);
    assert_eq!(header.creator_revision, 9);
    assert!(SdtHeader::parse(&bytes, SdtSignature(*b"HPET")).is_none());
    assert!(SdtHeader::parse_from_addr(&bytes).is_some());
    let mut broken = bytes.clone();
    broken[38] ^= 1;
    assert!(SdtHeader::parse(&broken, SdtSignature(*b"APIC")).is_none());
    assert!(SdtHeader::parse_from_addr(&broken).is_none());
    let mut short = bytes.clone();
    short.truncate(39);
    assert!(SdtHeader::parse_from_addr(&short).is_none());
    assert!(SdtHeader::parse_from_addr(&vec![0u8; 35]).is_none());
    assert!(SdtSignature(*b"APIC").same(&SdtSignature(*b"APIC")));
    assert!(!SdtSignature(*b"APIC").same(&SdtSignature(*b"APIX")));
}

fn rsdp(revision: u8, rsdt: u32, xsdt: u32) -> Vec<u8> {
    let mut bytes = vec![0u8; 32];
    bytes[0..8].copy_from_slice(b"RSD PTR ");
    bytes[9..15].copy_from_slice(b"MAKER ");
    bytes[15] = revision;
    bytes[16..20].copy_from_slice(&rsdt.to_le_bytes());
    bytes[20..24].copy_from_slice(&32u32.to_le_bytes());
    bytes[24..28].copy_from_slice(&xsdt.to_le_bytes());
    if revision >= 2 {
        fix_checksum(&mut bytes, 32, 28);
    }
    fix_checksum(&mut bytes, 20, 8);
    if revision >= 2 {
        fix_checksum(&mut bytes, 32, 28);
    }
    bytes
}

#[test]
fn the_root_pointer_names_the_root_table() {
    let v1 = rsdp(0, 0x7FE_1000, 0);
    assert!(RsdpV1::validate_rsdp(&v1));
    assert_eq!(RsdpV1::read(&v1).rsdt_addr, 0x7FE_1000);
    assert_eq!(
        find_rsdt_addr(&v1, HHDM),
        Some(RsdtAddr::Rsdt(VirtAddr::new(0xFFFF_8000_07FE_1000)))
    );
    let v2 = rsdp(2, 0x7FE_1000, 0x7FE_2000);
    assert_eq!(
        find_rsdt_addr(&v2, HHDM),
        Some(RsdtAddr::Xsdt(VirtAddr::new(0xFFFF_8000_07FE_2000)))
    );
    // the second revision without an extended root table
    let plain = rsdp(2, 0x7FE_1000, 0);
    assert_eq!(
        find_rsdt_addr(&plain, HHDM),
        Some(RsdtAddr::Rsdt(VirtAddr::new(0xFFFF_8000_07FE_1000)))
    );
    let mut broken = v2.clone();
    broken[30] ^= 0x40;
    assert_eq!(find_rsdt_addr(&broken, HHDM), None);
    let mut unsigned = v1.clone();
    unsigned[0] = b'X';
    fix_checksum(&mut unsigned, 20, 8);
    assert_eq!(find_rsdt_addr(&unsigned, HHDM), None);
    assert!(!RsdpV1::validate_rsdp(&unsigned));
    assert_eq!(find_rsdt_addr(&vec![0u8; 19], HHDM), None);
}

#[test]
fn the_root_table_names_the_other_tables() {
    let mut body = Vec::new();
    body.extend_from_slice(&0x1000u32.to_le_bytes());
    body.extend_from_slice(&0x2000u32.to_le_bytes());
    body.extend_from_slice(&0xFFFF_F000u32.to_le_bytes());
    let bytes = table(b"RSDT", &body);
    assert_eq!(populate_sub_tables(&bytes, 3, 32), vec![0x1000, 0x2000, 0xFFFF_F000]);
    let names = vec![SdtSignature(*b"APIC"), SdtSignature(*b"HPET"), SdtSignature(*b"APIC")];
    let rsdt = Rsdt::new(RsdtAddr::Rsdt(HHDM), &bytes, &names, HHDM).unwrap();
    let hpet = rsdt.find_table(SdtSignature(*b"HPET")).unwrap();
    assert_eq!(hpet.addr(), VirtAddr::new(0xFFFF_8000_0000_2000));
    let apic = rsdt.find_table(SdtSignature(*b"APIC")).unwrap();
    assert_eq!(apic.addr(), VirtAddr::new(0xFFFF_8000_0000_1000));
    assert!(rsdt.find_table(SdtSignature(*b"MCFG")).is_none());
    // the kind must fit the signature, and there must be a name for each entry
    assert!(Rsdt::new(RsdtAddr::Xsdt(HHDM), &bytes, &names, HHDM).is_none());
    assert!(Rsdt::new(RsdtAddr::Rsdt(HHDM), &bytes, &names[..2].to_vec(), HHDM).is_none());
    let tables = AcpiTables::new(rsdt);
    assert!(tables.rsdt().find_table(SdtSignature(*b"HPET")).is_some());
}

#[test]
fn the_extended_root_table_has_entries_of_64_bits() {
    let mut body = Vec::new();
    body.extend_from_slice(&0x0000_0001_0000_1000u64.to_le_bytes());
    body.extend_from_slice(&0x0000_0000_0000_2000u64.to_le_bytes());
    let bytes = table(b"XSDT", &body);
    assert_eq!(populate_sub_tables(&bytes, 2, 64), vec![0x1_0000_1000, 0x2000]);
    let names = vec![SdtSignature(*b"FACP"), SdtSignature(*b"APIC")];
    let xsdt = Rsdt::new(RsdtAddr::Xsdt(HHDM), &bytes, &names, HHDM).unwrap();
    assert_eq!(
        xsdt.find_table(SdtSignature(*b"FACP")).unwrap().addr(),
        VirtAddr::new(0xFFFF_8001_0000_1000)
    );
    assert!(Xsdt::new(&bytes, &names, HHDM).is_some());
    let old = table(b"RSDT", &[0, 0x10, 0, 0, 0, 0x20, 0, 0]);
    assert!(Xsdt::new(&old, &names, HHDM).is_some());
    assert!(Xsdt::new(&table(b"APIC", &[0; 8]), &names, HHDM).is_none());
}

fn madt_bytes() -> Vec<u8> {
    let mut body = Vec::new();
    body.extend_from_slice(&0xFEE0_0000u32.to_le_bytes());
    body.extend_from_slice(&1u32.to_le_bytes());
    body.extend_from_slice(&[0, 8, 1, 2, 1, 0, 0, 0]);
    body.extend_from_slice(&[0x20, 4, 0xAA, 0xBB]);
    body.extend_from_slice(&[1, 12, 3, 0, 0, 0, 0xC0, 0xFE, 24, 0, 0, 0]);
    body.extend_from_slice(&[2, 10, 0, 9, 30, 0, 0, 0, 0x0D, 0]);
    body.extend_from_slice(&[3, 10, 1, 0, 5, 0, 2, 0, 0, 0]);
    body.extend_from_slice(&[4, 6, 0xFF, 5, 0, 1]);
    body.extend_from_slice(&[5, 12, 0, 0, 0, 0, 0xE0, 0xFE, 1, 0, 0, 0]);
    body.extend_from_slice(&[9, 2]);
    body.extend_from_slice(&[0, 8, 9, 9, 1, 0, 0, 0]);
    table(b"APIC", &body)
}

#[test]
fn the_entries_of_the_madt() {
    let madt = Madt::new(madt_bytes()).unwrap();
    assert_eq!(madt.local_apic_addr(HHDM), VirtAddr::new(0xFFFF_8000_FEE0_0000));
    let mut iter = madt.iter();
    assert_eq!(
        iter.next(),
        Some(MadtEntry::Lapic(Lapic {
            header: EntryHeader { entry_type: 0, length: 8 },
            processor_id: 1,
            apic_id: 2,
            flags: 1,
        }))
    );
    // the entry of kind 0x20 is passed over
    let ioapic = IoApic {
        header: EntryHeader { entry_type: 1, length: 12 },
        ioapic_id: 3,
        reserved: 0,
        ioapic_addr: 0xFEC0_0000,
        interrupt_base: 24,
    };
    assert_eq!(iter.next(), Some(MadtEntry::IoApic(ioapic)));
    assert_eq!(ioapic.addr(HHDM), VirtAddr::new(0xFFFF_8000_FEC0_0000));
    assert_eq!(ioapic.interrupt_base(), 24);
    let redirect = IntSrcOverride {
        header: EntryHeader { entry_type: 2, length: 10 },
        bus: 0,
        irq: 9,
        system_int: 30,
        flags: 0x0D,
    };
    assert_eq!(iter.next(), Some(MadtEntry::IntSrcOverride(redirect)));
    assert_eq!((redirect.irq(), redirect.system_int(), redirect.flags()), (9, 30, 0x0D));
    assert_eq!(
        iter.next(),
        Some(MadtEntry::IoApicNmi(IoApicNmi {
            header: EntryHeader { entry_type: 3, length: 10 },
            nmi: 1,
            reserved: 0,
            flags: 5,
            system_int: 2,
        }))
    );
    assert_eq!(
        iter.next(),
        Some(MadtEntry::LapicNmi(LapicNmi {
            header: EntryHeader { entry_type: 4, length: 6 },
            processor_id: 0xFF,
            flags: 5,
            lint: 1,
        }))
    );
    assert_eq!(
        iter.next(),
        Some(MadtEntry::LapicAddrOverride(LapicAddrOverride {
            header: EntryHeader { entry_type: 5, length: 12 },
            reserved: 0,
            addr: 0x0000_0001_FEE0_0000,
        }))
    );
    // an entry of a kind that is not known ends the walk for this call
    assert_eq!(iter.next(), None);
    assert!(matches!(iter.next(), Some(MadtEntry::Lapic(_))));
    assert_eq!(iter.next(), None);
    assert_eq!(iter.next(), None);
}

#[test]
fn a_madt_that_is_not_sound_is_refused() {
    let mut bytes = madt_bytes();
    bytes[50] ^= 1;
    assert!(Madt::new(bytes).is_none());
    assert!(Madt::new(table(b"HPET", &[0; 8])).is_none());
    assert!(Madt::new(table(b"APIC", &[0; 7])).is_none());
    // an entry that the table does not hold whole ends the walk
    let cut = Madt::new(table(b"APIC", &[0, 0, 0, 0, 0, 0, 0, 0, 1, 12, 3, 0])).unwrap();
    assert_eq!(cut.iter().next(), None);
    let no_length = Madt::new(table(b"APIC", &[0, 0, 0, 0, 0, 0, 0, 0, 0x30, 0, 3, 0])).unwrap();
    assert_eq!(no_length.iter().next(), None);
}

fn hpet_bytes(space: u8, address: u64) -> Vec<u8> {
    let mut body = vec![1, 0xA2, 0x86, 0x80, space, 64, 0];
    body.push(0);
    body.extend_from_slice(&address.to_le_bytes());
    body.extend_from_slice(&[0, 0x37, 0xEE, 0]);
    table(b"HPET", &body)
}

#[test]
fn the_timer_is_set_up_from_its_table() {
    let bytes = hpet_bytes(0, 0xFED0_0000);
    let table = HpetTable::new(&bytes).unwrap();
    assert_eq!(table.hardware_rev_id, 1);
    assert_eq!(table.comparator_desc, 0xA2);
    assert_eq!(table.pci_vendor_id, 0x8086);
    assert_eq!(table.address.address, 0xFED0_0000);
    assert_eq!(table.address.register_bit_width, 64);
    assert_eq!(table.minimum_tick, 0xEE37);
    assert_eq!(table.header.length, 56);
    assert!(HpetTable::new(&bytes[..55].to_vec()).is_none());
    // a period of 10 ns
    let capabilities = (10_000_000u64 << 32) | 0x8086_A201;
    let hpet = Hpet::init(&table, capabilities, HHDM).unwrap();
    assert_eq!(hpet, Hpet { base: VirtAddr::new(0xFFFF_8000_FED0_0000), freq: 10_000_000 });
    assert_eq!(hpet.register_addr(0xF0), VirtAddr::new(0xFFFF_8000_FED0_00F0));
    assert_eq!(hpet.sleep(1000, 10), Some(1000 + 1_000_000));
    assert_eq!(hpet.sleep(0, 0), Some(0));
    assert_eq!(hpet.sleep(u64::MAX, 1), None);
    assert_eq!(hpet.sleep(0, u64::MAX), None);
    assert_eq!(Hpet { base: HHDM, freq: 0 }.sleep(0, 1), None);
    assert_eq!(Hpet::init(&table, 0x05F5_E101u64 << 32, HHDM), None);
    assert!(Hpet::init(&table, 0x05F5_E100u64 << 32, HHDM).is_some());
    let io = HpetTable::new(&hpet_bytes(1, 0x400)).unwrap();
    assert_eq!(Hpet::init(&io, capabilities, HHDM), None);
    let mut slot = None;
    assert_eq!(hpet_sleep(&slot, 0, 1), None);
    init_hpet(&mut slot, &table, capabilities, HHDM);
    assert_eq!(slot, Some(hpet));
    init_hpet(&mut slot, &io, 0, HHDM);
    assert_eq!(slot, Some(hpet));
    assert_eq!(hpet_sleep(&slot, 5, 1), Some(5 + 100_000));
}

#[test]
fn the_serial_port_is_set_up_by_nine_writes() {
    let port = SerialPort::new(0x3F8);
    assert_eq!(
        port.init_writes(),
        vec![
            PortWrite { port: 0x3F9, value: 0x00 },
            PortWrite { port: 0x3FB, value: 0x80 },
            PortWrite { port: 0x3F8, value: 0x03 },
            PortWrite { port: 0x3F9, value: 0x00 },
            PortWrite { port: 0x3FB, value: 0x03 },
            PortWrite { port: 0x3FA, value: 0xC7 },
            PortWrite { port: 0x3FC, value: 0x0B },
            PortWrite { port: 0x3FC, value: 0x1E },
            PortWrite { port: 0x3F8, value: 0xAE },
        ]
    );
    assert_eq!(port.init(0xAE), Ok(PortWrite { port: 0x3FC, value: 0x0F }));
    assert_eq!(port.init(0xAF), Err(SerialError::SelfTestFailed));
    assert_eq!(port.status_port(), 0x3FD);
    let empty = LineStatus::from_bits_truncate(TRANSMITTER_HOLDING_REGISTER_EMPTY);
    assert!(port.wait_for_status(0x60, empty));
    assert!(!port.wait_for_status(0x41, empty));
    assert!(port.wait_for_status(0x41, LineStatus::from_bits_truncate(DATA_READY)));
    assert_eq!(LineStatus::from_bits_truncate(0xFF).bits, 0x3F);
}

#[test]
fn the_logger_tags_by_level() {
    let mut logger = MoleculeLogger::init();
    assert!(!logger.console_debug);
    logger.set_console_debug(true);
    assert!(logger.console_debug);
    logger.set_console_debug(false);
    assert!(!logger.console_debug);
    assert!(logger.enabled(Level::Trace));
    assert_eq!(MoleculeLogger::color_digit(Level::Error), '1');
    assert_eq!(MoleculeLogger::color_digit(Level::Warn), '3');
    assert_eq!(MoleculeLogger::color_digit(Level::Info), '2');
    assert_eq!(MoleculeLogger::color_digit(Level::Debug), '4');
    assert_eq!(MoleculeLogger::color_digit(Level::Trace), '7');
}
