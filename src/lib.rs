//! Discovery and validation of ACPI firmware tables: the root system description
//! pointer, the root table it selects, and every system description table that the
//! root table lists.

use vstd::prelude::*;

pub mod bytes;
pub mod handler;
pub mod rsdp;
pub mod sdt;
pub mod walk;

pub use handler::{AcpiHandler, PhysicalMapping};
pub use walk::parse_acpi;

verus! {

/// The check that failed while parsing the firmware's tables.
#[derive(Debug, Clone, Copy, PartialEq, Eq, Structural)]
pub enum AcpiError {
    /// The root pointer does not start with `"RSD PTR "`.
    RsdpIncorrectSignature,
    /// The root pointer's OEM id is refused. The OEM id is six vendor-defined bytes, and
    /// every value of them is accepted, so this is never returned.
    RsdpInvalidOemId,
    /// A checksum of the root pointer does not add up to zero.
    RsdpInvalidChecksum,
    /// A root table carries a signature other than the one its pointer calls for.
    SdtInvalidSignature,
    /// A table's declared length is shorter than its header, longer than its mapping,
    /// or does not hold a whole number of entries.
    SdtInvalidLength,
    /// A table's bytes do not add up to zero over its declared length.
    SdtInvalidChecksum,
    /// The root pointer's revision is neither 0 nor at least 2.
    UnsupportedRevision,
}

} // verus!
