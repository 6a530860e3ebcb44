//! The root system description pointer: its layout, its checks, and the root table
//! it selects.

use vstd::prelude::*;

use crate::bytes::{byte_sum, checksum_of, lemma_byte_sum_update, le_u32, le_u64, read_u32, read_u64, sums_to_zero};
use crate::AcpiError;

verus! {

/// Bytes covered by the first checksum: the whole structure of revision 0.
pub const RSDP_V1_LENGTH: usize = 20;

/// Bytes of the extended structure of revision 2 and later, all covered by the
/// extended checksum.
pub const RSDP_V2_LENGTH: usize = 36;

/// The width of the physical addresses that a root table lists.
#[derive(Debug, Clone, Copy, PartialEq, Eq, Structural)]
pub enum EntryWidth {
    /// 32-bit entries, as in the RSDT.
    Four,
    /// 64-bit entries, as in the XSDT.
    Eight,
}

impl EntryWidth {
    pub open spec fn spec_bytes(self) -> nat {
        match self {
            EntryWidth::Four => 4,
            EntryWidth::Eight => 8,
        }
    }

    /// The number of bytes that one entry takes.
    pub fn bytes(self) -> (r: usize)
        ensures
            r == self.spec_bytes(),
    {
        match self {
            EntryWidth::Four => 4,
            EntryWidth::Eight => 8,
        }
    }
}

/// What a valid root pointer tells: its revision, and where the root table is and
/// how wide its entries are.
#[derive(Debug, Clone, Copy, PartialEq, Eq, Structural)]
pub struct RootTableRef {
    pub revision: u8,
    pub address: u64,
    pub width: EntryWidth,
}

/// The first eight bytes of `s` read `"RSD PTR "`.
pub open spec fn has_rsdp_signature(s: Seq<u8>) -> bool {
    s.subrange(0, 8) == seq![0x52u8, 0x53, 0x44, 0x20, 0x50, 0x54, 0x52, 0x20]
}

/// The outcome of validating the root pointer held in `s`. Checked in turn: the
/// signature, the checksum of the first 20 bytes, the revision (0, or at least 2), and
/// for revision 2 and later the checksum of the 36-byte extended structure. Revision 0
/// selects the RSDT; a later one selects the XSDT when its address is non-zero, and
/// the RSDT otherwise.
pub open spec fn rsdp_outcome(s: Seq<u8>) -> Result<RootTableRef, AcpiError> {
    let revision = s[15];
    let rsdt = RootTableRef { revision, address: le_u32(s, 16) as u64, width: EntryWidth::Four };
    if !has_rsdp_signature(s) {
        Err(AcpiError::RsdpIncorrectSignature)
    } else if !sums_to_zero(s, 20) {
        Err(AcpiError::RsdpInvalidChecksum)
    } else if revision == 0 {
        Ok(rsdt)
    } else if revision == 1 {
        Err(AcpiError::UnsupportedRevision)
    } else if !sums_to_zero(s, 36) {
        Err(AcpiError::RsdpInvalidChecksum)
    } else if le_u64(s, 24) != 0 {
        Ok(RootTableRef { revision, address: le_u64(s, 24) as u64, width: EntryWidth::Eight })
    } else {
        Ok(rsdt)
    }
}

fn has_signature(b: &[u8]) -> (r: bool)
    requires
        b@.len() >= 8,
    ensures
        r == has_rsdp_signature(b@),
{
    let r = b[0] == 0x52 && b[1] == 0x53 && b[2] == 0x44 && b[3] == 0x20 && b[4] == 0x50 && b[5]
        == 0x54 && b[6] == 0x52 && b[7] == 0x20;
    assert(r ==> b@.subrange(0, 8) =~= seq![0x52u8, 0x53, 0x44, 0x20, 0x50, 0x54, 0x52, 0x20]);
    assert(has_rsdp_signature(b@) ==> r) by {
        if has_rsdp_signature(b@) {
            let w = b@.subrange(0, 8);
            assert(w[0] == 0x52 && w[1] == 0x53 && w[2] == 0x44 && w[3] == 0x20);
            assert(w[4] == 0x50 && w[5] == 0x54 && w[6] == 0x52 && w[7] == 0x20);
        }
    }
    r
}

/// Validates the root pointer held in `b`, a mapping of its whole structure (20 bytes,
/// or 36 from revision 2 on), and returns the root table it selects. The six OEM id bytes are
/// vendor-defined and any value of them is accepted.
pub fn validate_rsdp(b: &[u8]) -> (r: Result<RootTableRef, AcpiError>)
    requires
        b@.len() >= RSDP_V1_LENGTH,
        b@[15] >= 2 ==> b@.len() >= RSDP_V2_LENGTH,
    ensures
        r == rsdp_outcome(b@),
{
    let revision = b[15];
    let rsdt = RootTableRef { revision, address: read_u32(b, 16) as u64, width: EntryWidth::Four };
    if !has_signature(b) {
        Err(AcpiError::RsdpIncorrectSignature)
    } else if checksum_of(b, RSDP_V1_LENGTH) != 0 {
        Err(AcpiError::RsdpInvalidChecksum)
    } else if revision == 0 {
        Ok(rsdt)
    } else if revision == 1 {
        Err(AcpiError::UnsupportedRevision)
    } else if checksum_of(b, RSDP_V2_LENGTH) != 0 {
        Err(AcpiError::RsdpInvalidChecksum)
    } else {
        let xsdt = read_u64(b, 24);
        if xsdt != 0 {
            Ok(RootTableRef { revision, address: xsdt, width: EntryWidth::Eight })
        } else {
            Ok(rsdt)
        }
    }
}

/// A revision-0 root pointer with the right signature and a first checksum that adds
/// up is accepted, and selects the RSDT at the address it holds, unchanged.
pub proof fn lemma_revision_zero_accepted(s: Seq<u8>)
    requires
        s.len() >= RSDP_V1_LENGTH,
        has_rsdp_signature(s),
        sums_to_zero(s, 20),
        s[15] == 0,
    ensures
        rsdp_outcome(s) == Ok::<RootTableRef, AcpiError>(
            RootTableRef { revision: 0, address: le_u32(s, 16) as u64, width: EntryWidth::Four },
        ),
{
}

/// A root pointer of revision 2 or later with the right signature and both checksums
/// adding up is accepted: it selects the XSDT when the XSDT address is non-zero, and
/// the RSDT otherwise.
pub proof fn lemma_extended_revision_accepted(s: Seq<u8>)
    requires
        s.len() >= RSDP_V2_LENGTH,
        has_rsdp_signature(s),
        sums_to_zero(s, 20),
        sums_to_zero(s, 36),
        s[15] >= 2,
    ensures
        le_u64(s, 24) != 0 ==> rsdp_outcome(s) == Ok::<RootTableRef, AcpiError>(
            RootTableRef { revision: s[15], address: le_u64(s, 24) as u64, width: EntryWidth::Eight },
        ),
        le_u64(s, 24) == 0 ==> rsdp_outcome(s) == Ok::<RootTableRef, AcpiError>(
            RootTableRef { revision: s[15], address: le_u32(s, 16) as u64, width: EntryWidth::Four },
        ),
{
}

/// Changing one byte among the first 20 of a valid revision-0 root pointer, other than
/// the checksum byte, breaks the first checksum. The pointer is then refused for its
/// checksum; where the changed byte lies in the signature, for its signature, which is
/// checked first.
pub proof fn lemma_single_byte_change_refused(s: Seq<u8>, i: int, v: u8)
    requires
        s.len() >= RSDP_V1_LENGTH,
        has_rsdp_signature(s),
        sums_to_zero(s, 20),
        s[15] == 0,
        0 <= i < 20,
        i != 8,
        v != s[i],
    ensures
        !sums_to_zero(s.update(i, v), 20),
        i > 8 ==> rsdp_outcome(s.update(i, v)) == Err::<RootTableRef, AcpiError>(
            AcpiError::RsdpInvalidChecksum,
        ),
        i < 8 ==> rsdp_outcome(s.update(i, v)) == Err::<RootTableRef, AcpiError>(
            AcpiError::RsdpIncorrectSignature,
        ),
{
    let t = s.update(i, v);
    lemma_byte_sum_update(s, i, v, 20);
    let a = byte_sum(s.subrange(0, 20)) as int;
    let b = byte_sum(t.subrange(0, 20)) as int;
    assert(b % 256 != 0) by {
        assert(a % 256 == 0);
        assert(b == a - s[i] + v);
        assert(-256 < v - s[i] < 256);
    }
    if i > 8 {
        assert(t.subrange(0, 8) =~= s.subrange(0, 8));
    }
    if i < 8 {
        assert(t.subrange(0, 8)[i] != s.subrange(0, 8)[i]);
    }
}

/// The bytes a root pointer's structure spans: 20, or 36 where its revision byte
/// reads 2 or more.
pub open spec fn rsdp_span(s: Seq<u8>) -> nat {
    if s[15] >= 2 {
        RSDP_V2_LENGTH as nat
    } else {
        RSDP_V1_LENGTH as nat
    }
}

/// The outcome depends on the bytes of the structure alone: a longer window gives the
/// same.
pub proof fn lemma_rsdp_outcome_prefix(s: Seq<u8>, t: Seq<u8>)
    requires
        s.len() >= RSDP_V1_LENGTH,
        s.len() >= rsdp_span(s),
        t.len() >= rsdp_span(s),
        forall|i: int| 0 <= i < rsdp_span(s) ==> s[i] == t[i],
    ensures
        rsdp_outcome(s) == rsdp_outcome(t),
{
    assert(s.subrange(0, 8) =~= t.subrange(0, 8));
    assert(s.subrange(0, 20) =~= t.subrange(0, 20));
    if s[15] >= 2 {
        assert(s.subrange(0, 36) =~= t.subrange(0, 36));
    }
}

} // verus!
