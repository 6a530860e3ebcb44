//! What this library needs from the host kernel: mapping and releasing physical memory,
//! and the interpreters that the tables it finds are handed to.

use vstd::prelude::*;

use crate::rsdp::{
    lemma_rsdp_outcome_prefix, rsdp_outcome, EntryWidth, RSDP_V1_LENGTH, RSDP_V2_LENGTH,
};
use crate::sdt::{
    declared_length, header_matches, kind_of, lemma_table_prefix, root_entry, root_table_fault,
    sdt_fault, SdtHeader, TableKind, SDT_HEADER_LENGTH,
};
use crate::AcpiError;

verus! {

/// A window of physical memory mapped by `AcpiHandler::map_physical_region` and
/// released by `AcpiHandler::unmap_physical_region`, which takes it by value, so it
/// cannot be read once released. The window holds at least the bytes asked for, and may
/// hold more where the mapping was padded to page boundaries.
pub struct PhysicalMapping {
    pub physical_start: u64,
    /// The bytes readable through the mapping, starting at `physical_start`.
    pub bytes: Vec<u8>,
}

impl PhysicalMapping {
    /// The number of bytes that the mapping covers.
    pub fn mapped_length(&self) -> (r: usize)
        ensures
            r == self.bytes@.len(),
    {
        self.bytes.len()
    }
}

/// A request that the parser made of its handler, as the handler's log records it.
pub enum Event {
    /// `map_physical_region(address, size)`.
    Mapped { address: u64, size: usize },
    /// `unmap_physical_region` of a mapping that starts at `address`.
    Unmapped { address: u64 },
    /// `handle_table` on the table at `address`, and what the interpreter answered.
    Handled { kind: TableKind, address: u64, result: Result<(), AcpiError> },
}

/// What a mapping is to the handler: where it starts and the bytes it shows.
pub open spec fn mapping_view(m: PhysicalMapping) -> (u64, Seq<u8>) {
    (m.physical_start, m.bytes@)
}

/// The kernel's side of the parse. It maps and releases physical memory for the parser,
/// and it receives every table whose signature has an interpreter.
///
/// Its model is a log of the requests made of it, the stack of mappings it has handed
/// out and not yet taken back, and the physical memory it shows. A mapping is released
/// only while it is the most recent one still open, so mappings close in the reverse
/// order of their opening. An implementation checked by Verus defines the three from
/// the state it keeps; the defaults, which are constant, cannot meet the contracts
/// below, and serve only implementations that Verus does not check.
pub trait AcpiHandler {
    /// The requests made of this handler, oldest first.
    closed spec fn events(&self) -> Seq<Event> {
        Seq::empty()
    }

    /// The mappings handed out and not yet released, oldest first.
    closed spec fn open_mappings(&self) -> Seq<(u64, Seq<u8>)> {
        Seq::empty()
    }

    /// Physical memory as this handler shows it: the byte at each address. Firmware
    /// tables do not change while the system runs, so no call of this trait changes it.
    closed spec fn memory(&self) -> spec_fn(int) -> u8 {
        |_address: int| 0u8
    }

    /// Maps at least `size` bytes of physical memory starting at `physical_address`,
    /// which need not be page-aligned.
    fn map_physical_region(&mut self, physical_address: u64, size: usize) -> (r:
        PhysicalMapping)
        ensures
            final(self).events() == old(self).events().push(
                Event::Mapped { address: physical_address, size },
            ),
            final(self).open_mappings() == old(self).open_mappings().push(mapping_view(r)),
            final(self).memory() == old(self).memory(),
            r.physical_start == physical_address,
            r.bytes@.len() >= size,
            shows(r.bytes@, old(self).memory(), physical_address as int),
    ;

    /// Releases the most recent mapping still open.
    fn unmap_physical_region(&mut self, region: PhysicalMapping)
        requires
            old(self).open_mappings().len() > 0,
            old(self).open_mappings().last() == mapping_view(region),
        ensures
            final(self).events() == old(self).events().push(
                Event::Unmapped { address: region.physical_start },
            ),
            final(self).open_mappings() == old(self).open_mappings().drop_last(),
            final(self).memory() == old(self).memory(),
    ;

    /// Interprets a table whose header has been validated. Whatever it maps on its own
    /// account it releases before returning.
    fn handle_table(&mut self, kind: TableKind, header: &SdtHeader, mapping: &PhysicalMapping) -> (r:
        Result<(), AcpiError>)
        requires
            sdt_fault(mapping.bytes@) is None,
            header_matches(*header, mapping.bytes@),
            kind_of(header.signature@) == Some(kind),
        ensures
            final(self).events() == old(self).events().push(
                Event::Handled { kind, address: mapping.physical_start, result: r },
            ),
            final(self).open_mappings() == old(self).open_mappings(),
            final(self).memory() == old(self).memory(),
    ;
}

/// `bytes` hold what `memory` holds from `start` on.
pub open spec fn shows(bytes: Seq<u8>, memory: spec_fn(int) -> u8, start: int) -> bool {
    forall|i: int| 0 <= i < bytes.len() ==> #[trigger] bytes[i] == memory(start + i)
}

/// The `n` bytes of `memory` from `start` on.
pub open spec fn window(memory: spec_fn(int) -> u8, start: int, n: nat) -> Seq<u8> {
    Seq::new(n, |i: int| memory(start + i))
}

/// The bytes of the table at `start`: its header, and as much more as its declared
/// length covers.
pub open spec fn table_bytes(memory: spec_fn(int) -> u8, start: int) -> Seq<u8> {
    let length = declared_length(window(memory, start, SDT_HEADER_LENGTH as nat));
    window(memory, start, if length > SDT_HEADER_LENGTH { length } else { SDT_HEADER_LENGTH as nat })
}

/// The bytes of the root pointer at `start`: 20, or 36 where its revision byte reads
/// 2 or more.
pub open spec fn rsdp_bytes(memory: spec_fn(int) -> u8, start: int) -> Seq<u8> {
    window(
        memory,
        start,
        if memory(start + 15) >= 2 {
            RSDP_V2_LENGTH as nat
        } else {
            RSDP_V1_LENGTH as nat
        },
    )
}

/// A mapping that covers a root pointer's structure reads as the pointer in memory does.
pub proof fn lemma_shown_rsdp(b: Seq<u8>, memory: spec_fn(int) -> u8, start: int)
    requires
        shows(b, memory, start),
        b.len() >= rsdp_bytes(memory, start).len(),
    ensures
        rsdp_outcome(b) == rsdp_outcome(rsdp_bytes(memory, start)),
{
    let w = rsdp_bytes(memory, start);
    assert(w[15] == memory(start + 15));
    assert forall|i: int| 0 <= i < w.len() implies w[i] == b[i] by {}
    lemma_rsdp_outcome_prefix(w, b);
}

/// A mapping that reaches a table's declared length reads as the table in memory does.
pub proof fn lemma_shown_table(b: Seq<u8>, memory: spec_fn(int) -> u8, start: int)
    requires
        shows(b, memory, start),
        b.len() >= table_bytes(memory, start).len(),
    ensures
        declared_length(b) == declared_length(table_bytes(memory, start)),
        sdt_fault(b) == sdt_fault(table_bytes(memory, start)),
        b.subrange(0, 4) == table_bytes(memory, start).subrange(0, 4),
        root_table_fault(b, EntryWidth::Four) == root_table_fault(
            table_bytes(memory, start),
            EntryWidth::Four,
        ),
        root_table_fault(b, EntryWidth::Eight) == root_table_fault(
            table_bytes(memory, start),
            EntryWidth::Eight,
        ),
        forall|w: EntryWidth, i: int|
            0 <= i && SDT_HEADER_LENGTH + (i + 1) * w.spec_bytes() <= declared_length(b)
                ==> root_entry(b, w, i) == root_entry(table_bytes(memory, start), w, i),
{
    let t = table_bytes(memory, start);
    let head = window(memory, start, SDT_HEADER_LENGTH as nat);
    assert(declared_length(t) == declared_length(head)) by {
        assert(t[4] == head[4] && t[5] == head[5] && t[6] == head[6] && t[7] == head[7]);
    }
    assert forall|i: int| 0 <= i < t.len() implies t[i] == b[i] by {}
    lemma_table_prefix(t, b, t.len() as int);
    assert(b.subrange(0, 4) =~= t.subrange(0, 4));
}

} // verus!
