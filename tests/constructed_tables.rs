use acpi::sdt::{SdtHeader, TableKind};
use acpi::{parse_acpi, AcpiError, AcpiHandler, PhysicalMapping};

const OEM_ID: &[u8; 6] = b"RUST  ";

const RSDP_ADDRESS: usize = 0x0;
const RSDT_ADDRESS: u32 = 0x1;

/// Physical memory made of separate regions, each at its own fake address.
struct TestHandler {
    regions: Vec<(u64, Vec<u8>)>,
    /// Hand out exactly the bytes asked for, rather than the whole region.
    exact_windows: bool,
    maps: usize,
    unmaps: usize,
    open: Vec<u64>,
    handled: Vec<(TableKind, [u8; 4])>,
    refuse_tables: bool,
    /// Every request in order: ('m', address, size) for a map, ('u', address, 0) for an
    /// unmap.
    log: Vec<(char, u64, usize)>,
}

impl TestHandler {
    fn new(regions: Vec<(u64, Vec<u8>)>) -> TestHandler {
        TestHandler {
            regions,
            exact_windows: false,
            maps: 0,
            unmaps: 0,
            open: Vec::new(),
            handled: Vec::new(),
            refuse_tables: false,
            log: Vec::new(),
        }
    }
}

impl AcpiHandler for TestHandler {
    fn map_physical_region(&mut self, physical_address: u64, size: usize) -> PhysicalMapping {
        let region = match self.regions.iter().find(|(a, _)| *a == physical_address) {
            Some((_, bytes)) => bytes.clone(),
            None => panic!("ACPI requested invalid physical address: {:#x}", physical_address),
        };
        let mut bytes = if self.exact_windows && region.len() > size {
            region[..size].to_vec()
        } else {
            region
        };
        while bytes.len() < size {
            bytes.push(0);
        }
        self.maps += 1;
        self.open.push(physical_address);
        self.log.push(('m', physical_address, size));
        PhysicalMapping { physical_start: physical_address, bytes }
    }

    fn unmap_physical_region(&mut self, region: PhysicalMapping) {
        match self.open.last() {
            Some(a) if *a == region.physical_start => {
                self.open.pop();
            }
            _ => panic!(
                "ACPI tried to unmap a region not created by test harness: {:#x}",
                region.physical_start
            ),
        }
        self.unmaps += 1;
        self.log.push(('u', region.physical_start, 0));
    }

    fn handle_table(
        &mut self,
        kind: TableKind,
        header: &SdtHeader,
        _mapping: &PhysicalMapping,
    ) -> Result<(), AcpiError> {
        self.handled.push((kind, header.signature));
        if self.refuse_tables {
            Err(AcpiError::SdtInvalidSignature)
        } else {
            Ok(())
        }
    }
}

fn checksum_byte(bytes: &[u8]) -> u8 {
    let sum = bytes.iter().fold(0u8, |acc, b| acc.wrapping_add(*b));
    0u8.wrapping_sub(sum)
}

/// A 36-byte root pointer; the extended fields are filled only for revision 2 and later.
fn make_rsdp(signature: &[u8; 8], oem_id: &[u8; 6], revision: u8, rsdt: u32, xsdt: u64) -> Vec<u8> {
    let mut b = vec![0u8; 36];
    b[0..8].copy_from_slice(signature);
    b[9..15].copy_from_slice(oem_id);
    b[15] = revision;
    b[16..20].copy_from_slice(&rsdt.to_le_bytes());
    b[8] = checksum_byte(&b[0..20]);
    if revision >= 2 {
        b[20..24].copy_from_slice(&36u32.to_le_bytes());
        b[24..32].copy_from_slice(&xsdt.to_le_bytes());
        b[32] = checksum_byte(&b[0..36]);
    }
    b
}

/// A table with a valid header over `payload`.
fn make_sdt(signature: &[u8; 4], payload: &[u8]) -> Vec<u8> {
    let mut b = vec![0u8; 36];
    b[0..4].copy_from_slice(signature);
    b[4..8].copy_from_slice(&((36 + payload.len()) as u32).to_le_bytes());
    b[8] = 1;
    b[10..16].copy_from_slice(b"TEST  ");
    b[16..24].copy_from_slice(b"TESTTABL");
    b[24..28].copy_from_slice(&7u32.to_le_bytes());
    b[28..32].copy_from_slice(b"ACPI");
    b[32..36].copy_from_slice(&9u32.to_le_bytes());
    b.extend_from_slice(payload);
    b[9] = checksum_byte(&b);
    b
}

fn rsdt_listing(children: &[u32]) -> Vec<u8> {
    let mut payload = Vec::new();
    for c in children {
        payload.extend_from_slice(&c.to_le_bytes());
    }
    make_sdt(b"RSDT", &payload)
}

fn xsdt_listing(children: &[u64]) -> Vec<u8> {
    let mut payload = Vec::new();
    for c in children {
        payload.extend_from_slice(&c.to_le_bytes());
    }
    make_sdt(b"XSDT", &payload)
}

#[test]
fn test_constructed_tables() {
    let rsdp = make_rsdp(b"RSD PTR ", OEM_ID, 0, RSDT_ADDRESS, 0x0);
    let mut test_handler = TestHandler::new(vec![
        (RSDP_ADDRESS as u64, rsdp),
        (RSDT_ADDRESS as u64, rsdt_listing(&[])),
    ]);
    match parse_acpi(&mut test_handler, RSDP_ADDRESS) {
        Ok(_) => (),
        Err(err) => {
            panic!("Failed to parse ACPI: {:#?}", err);
        }
    }
    assert_eq!(test_handler.log[0].1, 0x0);
    assert_eq!(test_handler.log[2].1, 0x1);
}

#[test]
fn empty_rsdt_parses() {
    let rsdp = make_rsdp(b"RSD PTR ", b"TEST  ", 0, 0x1000, 0);
    let mut h = TestHandler::new(vec![(0x40, rsdp), (0x1000, rsdt_listing(&[]))]);
    assert_eq!(parse_acpi(&mut h, 0x40), Ok(()));
    assert_eq!(h.maps, h.unmaps);
    assert!(h.open.is_empty());
    assert!(h.handled.is_empty());
    assert_eq!(h.log, vec![('m', 0x40, 20), ('u', 0x40, 0), ('m', 0x1000, 36), ('u', 0x1000, 0)]);
}

#[test]
fn wrong_rsdp_signature_maps_once() {
    let rsdp = make_rsdp(b"XSD PTR ", b"TEST  ", 0, 0x1000, 0);
    let mut h = TestHandler::new(vec![(0x40, rsdp), (0x1000, rsdt_listing(&[]))]);
    assert_eq!(parse_acpi(&mut h, 0x40), Err(AcpiError::RsdpIncorrectSignature));
    assert_eq!(h.maps, 1);
    assert_eq!(h.unmaps, 1);
    assert!(h.open.is_empty());
    assert_eq!(h.log, vec![('m', 0x40, 20), ('u', 0x40, 0)]);
}

#[test]
fn unknown_table_skipped_then_corrupt_table_fails() {
    let rsdp = make_rsdp(b"RSD PTR ", b"TEST  ", 0, 0x1000, 0);
    let unknown = make_sdt(b"OEM1", &[1, 2, 3]);
    let mut corrupt = make_sdt(b"APIC", &[4, 5, 6, 7]);
    corrupt[38] ^= 0x10;
    let mut h = TestHandler::new(vec![
        (0x40, rsdp),
        (0x1000, rsdt_listing(&[0x2000, 0x3000])),
        (0x2000, unknown),
        (0x3000, corrupt),
    ]);
    assert_eq!(parse_acpi(&mut h, 0x40), Err(AcpiError::SdtInvalidChecksum));
    assert_eq!(h.maps, 7);
    assert_eq!(h.unmaps, 7);
    assert!(h.open.is_empty());
    assert!(h.handled.is_empty());
    assert_eq!(
        h.log,
        vec![
            ('m', 0x40, 20),
            ('u', 0x40, 0),
            ('m', 0x1000, 36),
            ('u', 0x1000, 0),
            ('m', 0x1000, 44),
            ('u', 0x1000, 0),
            ('m', 0x2000, 36),
            ('u', 0x2000, 0),
            ('m', 0x2000, 39),
            ('u', 0x2000, 0),
            ('m', 0x3000, 36),
            ('u', 0x3000, 0),
            ('m', 0x3000, 40),
            ('u', 0x3000, 0),
        ]
    );
}

#[test]
fn known_tables_are_handed_over_in_order() {
    let rsdp = make_rsdp(b"RSD PTR ", b"TEST  ", 0, 0x1000, 0);
    let mut h = TestHandler::new(vec![
        (0x40, rsdp),
        (0x1000, rsdt_listing(&[0x2000, 0x3000, 0x4000])),
        (0x2000, make_sdt(b"FACP", &[0; 8])),
        (0x3000, make_sdt(b"SSDT", &[1])),
        (0x4000, make_sdt(b"APIC", &[0; 12])),
    ]);
    assert_eq!(parse_acpi(&mut h, 0x40), Ok(()));
    assert_eq!(h.handled, vec![(TableKind::Fadt, *b"FACP"), (TableKind::Madt, *b"APIC")]);
    assert_eq!(h.maps, 9);
    assert_eq!(h.unmaps, 9);
}

#[test]
fn interpreter_failure_is_returned_and_released() {
    let rsdp = make_rsdp(b"RSD PTR ", b"TEST  ", 0, 0x1000, 0);
    let mut h = TestHandler::new(vec![
        (0x40, rsdp),
        (0x1000, rsdt_listing(&[0x2000, 0x3000])),
        (0x2000, make_sdt(b"HPET", &[0; 20])),
        (0x3000, make_sdt(b"MCFG", &[0; 20])),
    ]);
    h.refuse_tables = true;
    assert_eq!(parse_acpi(&mut h, 0x40), Err(AcpiError::SdtInvalidSignature));
    assert_eq!(h.handled, vec![(TableKind::Hpet, *b"HPET")]);
    assert_eq!(h.maps, h.unmaps);
    assert!(h.open.is_empty());
}

#[test]
fn xsdt_preferred_from_revision_two() {
    let rsdp = make_rsdp(b"RSD PTR ", b"TEST  ", 2, 0x1000, 0x1_0000_0000);
    let mut h = TestHandler::new(vec![
        (0x40, rsdp),
        (0x1000, rsdt_listing(&[])),
        (0x1_0000_0000, xsdt_listing(&[0x2_0000_0000])),
        (0x2_0000_0000, make_sdt(b"APIC", &[])),
    ]);
    assert_eq!(parse_acpi(&mut h, 0x40), Ok(()));
    assert_eq!(h.handled, vec![(TableKind::Madt, *b"APIC")]);
    assert_eq!(h.maps, 5);
    assert_eq!(h.unmaps, 5);
    assert_eq!(h.log[0..4], [('m', 0x40, 20), ('u', 0x40, 0), ('m', 0x40, 36), ('u', 0x40, 0)]);
    assert_eq!(h.log[4], ('m', 0x1_0000_0000, 36));
}

#[test]
fn rsdt_used_when_xsdt_address_is_zero() {
    let rsdp = make_rsdp(b"RSD PTR ", b"TEST  ", 2, 0x1000, 0);
    let mut h = TestHandler::new(vec![
        (0x40, rsdp),
        (0x1000, rsdt_listing(&[0x2000])),
        (0x2000, make_sdt(b"FACP", &[])),
    ]);
    assert_eq!(parse_acpi(&mut h, 0x40), Ok(()));
    assert_eq!(h.handled, vec![(TableKind::Fadt, *b"FACP")]);
}

#[test]
fn root_table_with_wrong_signature_fails() {
    let rsdp = make_rsdp(b"RSD PTR ", b"TEST  ", 0, 0x1000, 0);
    let mut h = TestHandler::new(vec![(0x40, rsdp), (0x1000, xsdt_listing(&[]))]);
    assert_eq!(parse_acpi(&mut h, 0x40), Err(AcpiError::SdtInvalidSignature));
    assert_eq!(h.maps, 2);
    assert_eq!(h.unmaps, 2);
}

#[test]
fn long_table_is_mapped_again_at_full_length() {
    let rsdp = make_rsdp(b"RSD PTR ", b"TEST  ", 0, 0x1000, 0);
    let mut h = TestHandler::new(vec![
        (0x40, rsdp),
        (0x1000, rsdt_listing(&[0x2000])),
        (0x2000, make_sdt(b"APIC", &[0xaa; 64])),
    ]);
    h.exact_windows = true;
    assert_eq!(parse_acpi(&mut h, 0x40), Ok(()));
    // The RSDT and the APIC table are each mapped twice: header, then full length.
    assert_eq!(h.maps, 5);
    assert_eq!(h.unmaps, 5);
    assert_eq!(h.handled, vec![(TableKind::Madt, *b"APIC")]);
}
