//! The header that every system description table starts with, its checks, the root
//! table's list of entries, and the signatures of the tables that have interpreters.

use vstd::prelude::*;

use crate::bytes::{byte_sum, checksum_of, lemma_byte_sum_update, le_u32, le_u64, read_u32, read_u64, sums_to_zero};
use crate::rsdp::EntryWidth;
use crate::AcpiError;

verus! {

/// Bytes of the common table header.
pub const SDT_HEADER_LENGTH: usize = 36;

/// The common header of a system description table, as read from memory.
#[derive(Debug, Clone, Copy, PartialEq, Eq)]
pub struct SdtHeader {
    pub signature: [u8; 4],
    /// The whole table's length in bytes, header included.
    pub length: u32,
    pub revision: u8,
    pub checksum: u8,
    pub oem_id: [u8; 6],
    pub oem_table_id: [u8; 8],
    pub oem_revision: u32,
    pub creator_id: u32,
    pub creator_revision: u32,
}

/// The table length declared by the header held in `s`.
pub open spec fn declared_length(s: Seq<u8>) -> nat {
    le_u32(s, 4)
}

/// `h` holds the fields of the header at the start of `s`.
pub open spec fn header_matches(h: SdtHeader, s: Seq<u8>) -> bool {
    &&& h.signature@ == s.subrange(0, 4)
    &&& h.length == declared_length(s)
    &&& h.revision == s[8]
    &&& h.checksum == s[9]
    &&& h.oem_id@ == s.subrange(10, 16)
    &&& h.oem_table_id@ == s.subrange(16, 24)
    &&& h.oem_revision == le_u32(s, 24)
    &&& h.creator_id == le_u32(s, 28)
    &&& h.creator_revision == le_u32(s, 32)
}

/// Why the table mapped as `s` is refused, or `None` where its header is valid: the
/// mapping must hold a whole header, the declared length must cover the header and
/// stay within the mapping, and the bytes over the declared length must add up to zero.
pub open spec fn sdt_fault(s: Seq<u8>) -> Option<AcpiError> {
    if s.len() < SDT_HEADER_LENGTH || declared_length(s) < SDT_HEADER_LENGTH
        || declared_length(s) > s.len() {
        Some(AcpiError::SdtInvalidLength)
    } else if !sums_to_zero(s, declared_length(s) as int) {
        Some(AcpiError::SdtInvalidChecksum)
    } else {
        None
    }
}

fn take4(b: &[u8], at: usize) -> (r: [u8; 4])
    requires
        at + 4 <= b@.len(),
    ensures
        r@ == b@.subrange(at as int, at + 4),
{
    let r = [b[at], b[at + 1], b[at + 2], b[at + 3]];
    assert(r@ =~= b@.subrange(at as int, at + 4));
    r
}

fn take6(b: &[u8], at: usize) -> (r: [u8; 6])
    requires
        at + 6 <= b@.len(),
    ensures
        r@ == b@.subrange(at as int, at + 6),
{
    let r = [b[at], b[at + 1], b[at + 2], b[at + 3], b[at + 4], b[at + 5]];
    assert(r@ =~= b@.subrange(at as int, at + 6));
    r
}

fn take8(b: &[u8], at: usize) -> (r: [u8; 8])
    requires
        at + 8 <= b@.len(),
    ensures
        r@ == b@.subrange(at as int, at + 8),
{
    let r = [b[at], b[at + 1], b[at + 2], b[at + 3], b[at + 4], b[at + 5], b[at + 6], b[at + 7]];
    assert(r@ =~= b@.subrange(at as int, at + 8));
    r
}

/// Validates the header of the table mapped as `b` and returns it.
pub fn validate_sdt_header(b: &[u8]) -> (r: Result<SdtHeader, AcpiError>)
    ensures
        match r {
            Ok(h) => sdt_fault(b@) is None && header_matches(h, b@),
            Err(e) => sdt_fault(b@) == Some(e),
        },
{
    if b.len() < SDT_HEADER_LENGTH {
        return Err(AcpiError::SdtInvalidLength);
    }
    let length = read_u32(b, 4);
    if (length as usize) < SDT_HEADER_LENGTH || length as usize > b.len() {
        return Err(AcpiError::SdtInvalidLength);
    }
    if checksum_of(b, length as usize) != 0 {
        return Err(AcpiError::SdtInvalidChecksum);
    }
    Ok(
        SdtHeader {
            signature: take4(b, 0),
            length,
            revision: b[8],
            checksum: b[9],
            oem_id: take6(b, 10),
            oem_table_id: take8(b, 16),
            oem_revision: read_u32(b, 24),
            creator_id: read_u32(b, 28),
            creator_revision: read_u32(b, 32),
        },
    )
}

/// The checksum byte that makes the bytes of the table mapped as `s` add up to zero
/// over its declared length.
pub open spec fn corrected_checksum(s: Seq<u8>) -> u8 {
    ((s[9] as int + 256 - byte_sum(s.subrange(0, declared_length(s) as int)) as int % 256)
        % 256) as u8
}

/// A header whose length is sound but whose bytes do not add up to zero over that
/// length is refused for its checksum; the same table with its checksum byte
/// recomputed is accepted.
pub proof fn lemma_checksum_decides(s: Seq<u8>)
    requires
        s.len() >= SDT_HEADER_LENGTH,
        SDT_HEADER_LENGTH <= declared_length(s) <= s.len(),
        !sums_to_zero(s, declared_length(s) as int),
    ensures
        sdt_fault(s) == Some(AcpiError::SdtInvalidChecksum),
        sdt_fault(s.update(9, corrected_checksum(s))) is None,
{
    let len = declared_length(s) as int;
    let c = corrected_checksum(s);
    let t = s.update(9, c);
    assert(declared_length(t) == declared_length(s));
    lemma_byte_sum_update(s, 9, c, len);
    let total = byte_sum(s.subrange(0, len)) as int;
    let fixed = byte_sum(t.subrange(0, len)) as int;
    assert(fixed % 256 == 0) by {
        vstd::arithmetic::div_mod::lemma_fundamental_div_mod(total, 256);
        let q = total / 256;
        let m = total % 256;
        let x = s[9] as int + 256 - m;
        assert(0 < x < 512);
        assert(c as int == x % 256);
        if x >= 256 {
            assert(c as int == x - 256);
            assert(fixed == 256 * q);
        } else {
            assert(c as int == x);
            assert(fixed == 256 * q + 256);
        }
        vstd::arithmetic::div_mod::lemma_mod_multiples_basic(q, 256);
        vstd::arithmetic::div_mod::lemma_mod_multiples_basic(q + 1, 256);
    }
}

/// The tables that have an interpreter, by signature.
#[derive(Debug, Clone, Copy, PartialEq, Eq, Structural)]
pub enum TableKind {
    /// `"APIC"`: the multiple APIC description table.
    Madt,
    /// `"FACP"`: the fixed ACPI description table.
    Fadt,
    /// `"HPET"`: the high precision event timer table.
    Hpet,
    /// `"MCFG"`: the PCI express memory-mapped configuration table.
    Mcfg,
}

/// The interpreter registered for a table signature, if any.
pub open spec fn kind_of(signature: Seq<u8>) -> Option<TableKind> {
    if signature == seq![0x41u8, 0x50, 0x49, 0x43] {
        Some(TableKind::Madt)
    } else if signature == seq![0x46u8, 0x41, 0x43, 0x50] {
        Some(TableKind::Fadt)
    } else if signature == seq![0x48u8, 0x50, 0x45, 0x54] {
        Some(TableKind::Hpet)
    } else if signature == seq![0x4du8, 0x43, 0x46, 0x47] {
        Some(TableKind::Mcfg)
    } else {
        None
    }
}

fn signature_is(signature: &[u8; 4], a: u8, b: u8, c: u8, d: u8) -> (r: bool)
    ensures
        r == (signature@ == seq![a, b, c, d]),
{
    let r = signature[0] == a && signature[1] == b && signature[2] == c && signature[3] == d;
    proof {
        if r {
            assert(signature@ =~= seq![a, b, c, d]);
        } else if signature@ == seq![a, b, c, d] {
            assert(signature@[0] == a && signature@[1] == b && signature@[2] == c);
        }
    }
    r
}

/// Looks a table signature up among the interpreters.
pub fn table_kind(signature: &[u8; 4]) -> (r: Option<TableKind>)
    ensures
        r == kind_of(signature@),
{
    if signature_is(signature, 0x41, 0x50, 0x49, 0x43) {
        Some(TableKind::Madt)
    } else if signature_is(signature, 0x46, 0x41, 0x43, 0x50) {
        Some(TableKind::Fadt)
    } else if signature_is(signature, 0x48, 0x50, 0x45, 0x54) {
        Some(TableKind::Hpet)
    } else if signature_is(signature, 0x4d, 0x43, 0x46, 0x47) {
        Some(TableKind::Mcfg)
    } else {
        None
    }
}

/// The signature a root table must carry: `"RSDT"` for 32-bit entries, `"XSDT"` for
/// 64-bit ones.
pub open spec fn root_signature(width: EntryWidth) -> Seq<u8> {
    match width {
        EntryWidth::Four => seq![0x52u8, 0x53, 0x44, 0x54],
        EntryWidth::Eight => seq![0x58u8, 0x53, 0x44, 0x54],
    }
}

/// Why the root table mapped as `s` is refused, or `None` where it is valid: its header
/// must be valid, its signature must match its entry width, and the bytes after the
/// header must hold a whole number of entries.
pub open spec fn root_table_fault(s: Seq<u8>, width: EntryWidth) -> Option<AcpiError> {
    if sdt_fault(s) is Some {
        sdt_fault(s)
    } else if s.subrange(0, 4) != root_signature(width) {
        Some(AcpiError::SdtInvalidSignature)
    } else if (declared_length(s) - SDT_HEADER_LENGTH) % (width.spec_bytes() as int) != 0 {
        Some(AcpiError::SdtInvalidLength)
    } else {
        None
    }
}

/// The physical address held in entry `i` of the root table mapped as `s`.
pub open spec fn root_entry(s: Seq<u8>, width: EntryWidth, i: int) -> u64 {
    match width {
        EntryWidth::Four => le_u32(s, SDT_HEADER_LENGTH + 4 * i) as u64,
        EntryWidth::Eight => le_u64(s, SDT_HEADER_LENGTH + 8 * i) as u64,
    }
}

/// Validates the root table mapped as `b` and returns the physical addresses it lists,
/// in order.
pub fn read_root_table(b: &[u8], width: EntryWidth) -> (r: Result<Vec<u64>, AcpiError>)
    ensures
        match r {
            Ok(v) => {
                &&& root_table_fault(b@, width) is None
                &&& SDT_HEADER_LENGTH + v@.len() * width.spec_bytes() == declared_length(b@)
                &&& forall|i: int| 0 <= i < v@.len() ==> v@[i] == root_entry(b@, width, i)
            },
            Err(e) => root_table_fault(b@, width) == Some(e),
        },
{
    let header = match validate_sdt_header(b) {
        Ok(h) => h,
        Err(e) => return Err(e),
    };
    let expected = match width {
        EntryWidth::Four => signature_is(&header.signature, 0x52, 0x53, 0x44, 0x54),
        EntryWidth::Eight => signature_is(&header.signature, 0x58, 0x53, 0x44, 0x54),
    };
    if !expected {
        return Err(AcpiError::SdtInvalidSignature);
    }
    let len = header.length as usize;
    let step = width.bytes();
    if (len - SDT_HEADER_LENGTH) % step != 0 {
        return Err(AcpiError::SdtInvalidLength);
    }
    let mut entries: Vec<u64> = Vec::new();
    let mut at: usize = SDT_HEADER_LENGTH;
    while at < len
        invariant
            SDT_HEADER_LENGTH <= at <= len <= b@.len(),
            len == declared_length(b@),
            step == width.spec_bytes(),
            (len - at) % (step as int) == 0,
            at == SDT_HEADER_LENGTH + entries@.len() * step,
            forall|i: int| 0 <= i < entries@.len() ==> entries@[i] == root_entry(b@, width, i),
        decreases len - at,
    {
        let n = entries.len();
        let entry = match width {
            EntryWidth::Four => read_u32(b, at) as u64,
            EntryWidth::Eight => read_u64(b, at),
        };
        entries.push(entry);
        at = at + step;
        assert(at == SDT_HEADER_LENGTH + entries@.len() * step) by (nonlinear_arith)
            requires
                at == SDT_HEADER_LENGTH + n * step + step,
                entries@.len() == n + 1,
        ;
    }
    Ok(entries)
}

/// Whether a table is refused, and what its root entries hold, depends only on the
/// bytes that its header and declared length cover, as long as the window reaches its
/// declared length.
pub proof fn lemma_table_prefix(s: Seq<u8>, t: Seq<u8>, n: int)
    requires
        n >= SDT_HEADER_LENGTH,
        n >= declared_length(s),
        s.len() >= n,
        t.len() >= n,
        forall|i: int| 0 <= i < n ==> s[i] == t[i],
    ensures
        declared_length(s) == declared_length(t),
        sdt_fault(s) == sdt_fault(t),
        root_table_fault(s, EntryWidth::Four) == root_table_fault(t, EntryWidth::Four),
        root_table_fault(s, EntryWidth::Eight) == root_table_fault(t, EntryWidth::Eight),
        forall|w: EntryWidth, i: int|
            0 <= i && SDT_HEADER_LENGTH + (i + 1) * w.spec_bytes() <= declared_length(s)
                ==> root_entry(s, w, i) == root_entry(t, w, i),
{
    let len = declared_length(s) as int;
    assert(s.subrange(0, 4) =~= t.subrange(0, 4));
    if len <= n {
        assert(s.subrange(0, len) =~= t.subrange(0, len));
    }
    assert forall|w: EntryWidth, i: int|
        0 <= i && SDT_HEADER_LENGTH + (i + 1) * w.spec_bytes() <= declared_length(s)
            implies root_entry(s, w, i) == root_entry(t, w, i) by {
        match w {
            EntryWidth::Four => {
                let at = SDT_HEADER_LENGTH + 4 * i;
                assert(s[at] == t[at] && s[at + 1] == t[at + 1]);
                assert(s[at + 2] == t[at + 2] && s[at + 3] == t[at + 3]);
            },
            EntryWidth::Eight => {
                let at = SDT_HEADER_LENGTH + 8 * i;
                assert(s[at] == t[at] && s[at + 1] == t[at + 1]);
                assert(s[at + 2] == t[at + 2] && s[at + 3] == t[at + 3]);
                assert(s[at + 4] == t[at + 4] && s[at + 5] == t[at + 5]);
                assert(s[at + 6] == t[at + 6] && s[at + 7] == t[at + 7]);
            },
        }
    }
}

} // verus!
