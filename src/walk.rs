//! The whole parse: the root pointer, the root table, then every table it lists, with
//! each mapping released on every path, in the reverse order of its opening.

use vstd::prelude::*;

use crate::bytes::read_u32;
use crate::sdt::TableKind;
use crate::handler::{
    lemma_shown_rsdp, lemma_shown_table, mapping_view, rsdp_bytes, shows, table_bytes, window,
    AcpiHandler, Event, PhysicalMapping,
};
use crate::rsdp::{rsdp_outcome, validate_rsdp, RootTableRef, RSDP_V1_LENGTH, RSDP_V2_LENGTH};
use crate::sdt::{
    declared_length, kind_of, read_root_table, root_entry, root_table_fault, sdt_fault,
    table_kind, validate_sdt_header, SDT_HEADER_LENGTH,
};
use crate::AcpiError;

verus! {

/// The root table that the root pointer at `rsdp_address` selects, or why the pointer
/// is refused.
pub open spec fn root_pointer_outcome(memory: spec_fn(int) -> u8, rsdp_address: int) -> Result<
    RootTableRef,
    AcpiError,
> {
    rsdp_outcome(rsdp_bytes(memory, rsdp_address))
}

/// Why the root table that `root` points to is refused, or `None` where it is valid.
pub open spec fn root_fault(memory: spec_fn(int) -> u8, root: RootTableRef) -> Option<AcpiError> {
    root_table_fault(table_bytes(memory, root.address as int), root.width)
}

/// The physical addresses that the root table `root` points to lists, in order.
pub open spec fn listed_tables(memory: spec_fn(int) -> u8, root: RootTableRef) -> Seq<u64> {
    let t = table_bytes(memory, root.address as int);
    Seq::new(
        ((declared_length(t) - SDT_HEADER_LENGTH) / (root.width.spec_bytes() as int)) as nat,
        |i: int| root_entry(t, root.width, i),
    )
}

/// Why the table at `address` is refused, or `None` where its header is valid.
pub open spec fn table_fault(memory: spec_fn(int) -> u8, address: u64) -> Option<AcpiError> {
    sdt_fault(table_bytes(memory, address as int))
}

/// The interpreter for the table at `address`, if its signature has one.
pub open spec fn table_interpreter(memory: spec_fn(int) -> u8, address: u64) -> Option<TableKind> {
    kind_of(table_bytes(memory, address as int).subrange(0, 4))
}

/// The requests that map and release the root pointer at `address`: 20 bytes, then the
/// 36 bytes of the extended structure where the revision byte reads 2 or more.
pub open spec fn rsdp_events(memory: spec_fn(int) -> u8, address: u64) -> Seq<Event> {
    if memory(address as int + 15) >= 2 {
        seq![
            Event::Mapped { address, size: RSDP_V1_LENGTH },
            Event::Unmapped { address },
            Event::Mapped { address, size: RSDP_V2_LENGTH },
            Event::Unmapped { address },
        ]
    } else {
        seq![Event::Mapped { address, size: RSDP_V1_LENGTH }, Event::Unmapped { address }]
    }
}

/// The length that the header at `address` declares.
pub open spec fn header_length(memory: spec_fn(int) -> u8, address: u64) -> nat {
    declared_length(window(memory, address as int, SDT_HEADER_LENGTH as nat))
}

/// The requests that open the table at `address`: its header, then, where the table is
/// longer than its header, the whole table in place of the header.
pub open spec fn table_open_events(memory: spec_fn(int) -> u8, address: u64) -> Seq<Event> {
    let length = header_length(memory, address);
    if length > SDT_HEADER_LENGTH {
        seq![
            Event::Mapped { address, size: SDT_HEADER_LENGTH },
            Event::Unmapped { address },
            Event::Mapped { address, size: length as usize },
        ]
    } else {
        seq![Event::Mapped { address, size: SDT_HEADER_LENGTH }]
    }
}

/// The requests made for the listed table at `address`, where its interpreter, if it
/// has one, answers `answer`: open it, hand it over when it is valid and has an
/// interpreter, release it.
pub open spec fn child_events(
    memory: spec_fn(int) -> u8,
    address: u64,
    answer: Result<(), AcpiError>,
) -> Seq<Event> {
    let handed = match (table_fault(memory, address), table_interpreter(memory, address)) {
        (None, Some(kind)) => seq![Event::Handled { kind, address, result: answer }],
        _ => Seq::empty(),
    };
    table_open_events(memory, address) + handed + seq![Event::Unmapped { address }]
}

/// The outcome for the listed table at `address`: its header's fault, else its
/// interpreter's answer, else (no interpreter) success.
pub open spec fn child_result(
    memory: spec_fn(int) -> u8,
    address: u64,
    answer: Result<(), AcpiError>,
) -> Result<(), AcpiError> {
    match table_fault(memory, address) {
        Some(e) => Err(e),
        None => match table_interpreter(memory, address) {
            Some(_) => answer,
            None => Ok(()),
        },
    }
}

/// The requests and the outcome of walking `listed` from entry `i` on, where the
/// interpreter of entry `k` answers `answers[k]`: the entries in order, stopping at the
/// first that fails.
pub open spec fn walk_from(
    memory: spec_fn(int) -> u8,
    listed: Seq<u64>,
    answers: Seq<Result<(), AcpiError>>,
    i: int,
) -> (Seq<Event>, Result<(), AcpiError>)
    decreases listed.len() - i,
{
    if i < 0 || i >= listed.len() {
        (Seq::empty(), Ok(()))
    } else {
        let events = child_events(memory, listed[i], answers[i]);
        let result = child_result(memory, listed[i], answers[i]);
        if result is Err {
            (events, result)
        } else {
            let rest = walk_from(memory, listed, answers, i + 1);
            (events + rest.0, rest.1)
        }
    }
}

/// The requests and the outcome of a whole parse from the root pointer at
/// `rsdp_address`, where the interpreters answer `answers` in turn.
pub open spec fn parse_run(
    memory: spec_fn(int) -> u8,
    rsdp_address: u64,
    answers: Seq<Result<(), AcpiError>>,
) -> (Seq<Event>, Result<(), AcpiError>) {
    let pointer = rsdp_events(memory, rsdp_address);
    match root_pointer_outcome(memory, rsdp_address as int) {
        Err(e) => (pointer, Err(e)),
        Ok(root) => {
            let opened = pointer + table_open_events(memory, root.address) + seq![
                Event::Unmapped { address: root.address },
            ];
            match root_fault(memory, root) {
                Some(e) => (opened, Err(e)),
                None => {
                    let walk = walk_from(memory, listed_tables(memory, root), answers, 0);
                    (opened + walk.0, walk.1)
                },
            }
        },
    }
}

/// Maps the table at `address` over its declared length. The header is mapped first to
/// learn that length; where the table is longer, the header's mapping is released and
/// the table mapped again at its full length. The one mapping returned is left open.
fn map_table<H: AcpiHandler>(handler: &mut H, address: u64) -> (r: PhysicalMapping)
    ensures
        r.physical_start == address,
        shows(r.bytes@, old(handler).memory(), address as int),
        r.bytes@.len() >= table_bytes(old(handler).memory(), address as int).len(),
        final(handler).memory() == old(handler).memory(),
        final(handler).events() == old(handler).events() + table_open_events(
            old(handler).memory(),
            address,
        ),
        final(handler).open_mappings() == old(handler).open_mappings().push(mapping_view(r)),
{
    let ghost memory = handler.memory();
    let ghost events = handler.events();
    let header = handler.map_physical_region(address, SDT_HEADER_LENGTH);
    let length = read_u32(header.bytes.as_slice(), 4) as usize;
    proof {
        let head = window(memory, address as int, SDT_HEADER_LENGTH as nat);
        let b = header.bytes@;
        assert(b[4] == head[4] && b[5] == head[5] && b[6] == head[6] && b[7] == head[7]);
        assert(length == header_length(memory, address));
    }
    if length > SDT_HEADER_LENGTH {
        handler.unmap_physical_region(header);
        let table = handler.map_physical_region(address, length);
        assert(handler.events() =~= events + table_open_events(memory, address));
        table
    } else {
        assert(handler.events() =~= events + table_open_events(memory, address));
        header
    }
}

/// Maps the table at `address`, validates its header, hands it to its interpreter when
/// its signature has one, and releases the mapping whatever the outcome. The result
/// stands as the interpreter's answer where one was asked.
fn offer_table<H: AcpiHandler>(handler: &mut H, address: u64) -> (r: Result<(), AcpiError>)
    ensures
        final(handler).memory() == old(handler).memory(),
        final(handler).open_mappings() == old(handler).open_mappings(),
        final(handler).events() == old(handler).events() + child_events(
            old(handler).memory(),
            address,
            r,
        ),
        r == child_result(old(handler).memory(), address, r),
{
    let ghost memory = handler.memory();
    let ghost events = handler.events();
    let mapping = map_table(handler, address);
    proof {
        lemma_shown_table(mapping.bytes@, memory, address as int);
    }
    let outcome = match validate_sdt_header(mapping.bytes.as_slice()) {
        Ok(header) => match table_kind(&header.signature) {
            Some(kind) => handler.handle_table(kind, &header, &mapping),
            None => Ok(()),
        },
        Err(e) => Err(e),
    };
    handler.unmap_physical_region(mapping);
    assert(handler.events() =~= events + child_events(memory, address, outcome));
    outcome
}

/// Maps the root pointer at `address` (20 bytes, then 36 where its revision byte reads
/// 2 or more), validates it, and releases it.
fn locate_root_table<H: AcpiHandler>(handler: &mut H, address: u64) -> (r: Result<
    RootTableRef,
    AcpiError,
>)
    ensures
        final(handler).memory() == old(handler).memory(),
        final(handler).open_mappings() == old(handler).open_mappings(),
        final(handler).events() == old(handler).events() + rsdp_events(old(handler).memory(), address),
        r == root_pointer_outcome(old(handler).memory(), address as int),
{
    let ghost memory = handler.memory();
    let ghost start = handler.events();
    let first = handler.map_physical_region(address, RSDP_V1_LENGTH);
    let rsdp_mapping = if first.bytes[15] >= 2 {
        handler.unmap_physical_region(first);
        handler.map_physical_region(address, RSDP_V2_LENGTH)
    } else {
        first
    };
    proof {
        assert(first.bytes@[15] == memory(address as int + 15));
        lemma_shown_rsdp(rsdp_mapping.bytes@, memory, address as int);
    }
    let root = validate_rsdp(rsdp_mapping.bytes.as_slice());
    handler.unmap_physical_region(rsdp_mapping);
    assert(handler.events() =~= start + rsdp_events(memory, address));
    root
}

/// Maps the root table that `root` points to, validates it, reads the addresses it
/// lists, and releases it.
fn read_listing<H: AcpiHandler>(handler: &mut H, root: RootTableRef) -> (r: Result<
    Vec<u64>,
    AcpiError,
>)
    ensures
        final(handler).memory() == old(handler).memory(),
        final(handler).open_mappings() == old(handler).open_mappings(),
        final(handler).events() == old(handler).events() + table_open_events(
            old(handler).memory(),
            root.address,
        ) + seq![Event::Unmapped { address: root.address }],
        match r {
            Ok(v) => root_fault(old(handler).memory(), root) is None && v@ == listed_tables(
                old(handler).memory(),
                root,
            ),
            Err(e) => root_fault(old(handler).memory(), root) == Some(e),
        },
{
    let ghost memory = handler.memory();
    let ghost start = handler.events();
    let table = map_table(handler, root.address);
    proof {
        lemma_shown_table(table.bytes@, memory, root.address as int);
    }
    let entries = read_root_table(table.bytes.as_slice(), root.width);
    handler.unmap_physical_region(table);
    assert(handler.events() =~= start + table_open_events(memory, root.address) + seq![
        Event::Unmapped { address: root.address },
    ]);
    if let Ok(v) = &entries {
        let ghost listed = listed_tables(memory, root);
        proof {
            let w = root.width.spec_bytes() as int;
            let n = v@.len() as int;
            vstd::arithmetic::div_mod::lemma_div_multiples_vanish(n, w);
            assert(n * w == w * n);
            assert forall|i: int| 0 <= i < n implies v@[i] == listed[i] by {
                assert(SDT_HEADER_LENGTH + (i + 1) * w <= SDT_HEADER_LENGTH + n * w) by (nonlinear_arith)
                    requires
                        0 <= i < n,
                        w > 0,
                ;
            }
            assert(v@ =~= listed);
        }
    }
    entries
}

/// The entry point. Given the physical address of the root system description pointer,
/// validates it, maps and validates the root table it selects, and offers every table
/// that the root table lists to its interpreter, in order; tables whose signature has
/// no interpreter are skipped. The first failure ends the walk and is returned. Every
/// mapping is released before the next one is opened or this returns, on every path.
///
/// What this asks of the handler, and the result, are those of `parse_run` over the
/// handler's memory and the answers its interpreters gave.
pub fn parse_acpi<H: AcpiHandler>(handler: &mut H, rsdp_address: usize) -> (r: Result<
    (),
    AcpiError,
>)
    ensures
        final(handler).memory() == old(handler).memory(),
        final(handler).open_mappings() == old(handler).open_mappings(),
        exists|answers: Seq<Result<(), AcpiError>>|
            {
                let run = #[trigger] parse_run(old(handler).memory(), rsdp_address as u64, answers);
                &&& final(handler).events() == old(handler).events() + run.0
                &&& r == run.1
            },
{
    let ghost memory = handler.memory();
    let ghost start = handler.events();
    let address = rsdp_address as u64;
    let root = locate_root_table(handler, address);
    let root = match root {
        Ok(root) => root,
        Err(e) => {
            assert(parse_run(memory, address, Seq::empty()).0 == rsdp_events(memory, address));
            return Err(e);
        },
    };
    let entries = read_listing(handler, root);
    let ghost opened = rsdp_events(memory, address) + table_open_events(memory, root.address)
        + seq![Event::Unmapped { address: root.address }];
    let ghost base = handler.events();
    assert(base =~= start + opened);
    let entries = match entries {
        Ok(entries) => entries,
        Err(e) => {
            assert(parse_run(memory, address, Seq::empty()).0 == opened);
            return Err(e);
        },
    };
    let ghost listed = listed_tables(memory, root);
    let outcome = offer_tables(handler, &entries);
    proof {
        let ans = choose|ans: Seq<Result<(), AcpiError>>|
            {
                let walk = #[trigger] walk_from(memory, listed, ans, 0);
                &&& handler.events() == base + walk.0
                &&& outcome == walk.1
            };
        assert(handler.events() =~= start + (opened + walk_from(memory, listed, ans, 0).0));
        assert(parse_run(memory, address, ans).0 == opened + walk_from(memory, listed, ans, 0).0);
    }
    outcome
}

/// Offers the tables at `listed` in order, stopping at the first that fails.
fn offer_tables<H: AcpiHandler>(handler: &mut H, listed: &Vec<u64>) -> (r: Result<(), AcpiError>)
    ensures
        final(handler).memory() == old(handler).memory(),
        final(handler).open_mappings() == old(handler).open_mappings(),
        exists|answers: Seq<Result<(), AcpiError>>|
            {
                let walk = #[trigger] walk_from(old(handler).memory(), listed@, answers, 0);
                &&& final(handler).events() == old(handler).events() + walk.0
                &&& r == walk.1
            },
{
    let ghost memory = handler.memory();
    let ghost base = handler.events();
    let ghost mut answers: Seq<Result<(), AcpiError>> = Seq::empty();
    let ghost mut done: Seq<Event> = Seq::empty();
    proof {
        assert forall|ans: Seq<Result<(), AcpiError>>|
            ans.len() >= 0 && ans.subrange(0, 0) == answers implies #[trigger] walk_from(
                memory,
                listed@,
                ans,
                0,
            ) == (done + walk_from(memory, listed@, ans, 0).0, walk_from(memory, listed@, ans, 0).1) by {
            assert(done + walk_from(memory, listed@, ans, 0).0 =~= walk_from(memory, listed@, ans, 0).0);
        }
    }
    let mut i: usize = 0;
    while i < listed.len()
        invariant
            i <= listed@.len(),
            handler.memory() == memory,
            memory == old(handler).memory(),
            base == old(handler).events(),
            handler.open_mappings() == old(handler).open_mappings(),
            handler.events() == base + done,
            answers.len() == i,
            forall|ans: Seq<Result<(), AcpiError>>|
                ans.len() >= i && ans.subrange(0, i as int) == answers ==> #[trigger] walk_from(
                    memory,
                    listed@,
                    ans,
                    0,
                ) == (done + walk_from(memory, listed@, ans, i as int).0, walk_from(
                    memory,
                    listed@,
                    ans,
                    i as int,
                ).1),
        decreases listed@.len() - i,
    {
        let outcome = offer_table(handler, listed[i]);
        let ghost events = child_events(memory, listed@[i as int], outcome);
        let ghost next = answers.push(outcome);
        proof {
            assert forall|ans: Seq<Result<(), AcpiError>>|
                ans.len() >= i + 1 && ans.subrange(0, i + 1) == next implies ans.subrange(0, i as int)
                == answers && ans[i as int] == outcome by {
                assert(ans.subrange(0, i as int) =~= next.subrange(0, i as int));
                assert(ans[i as int] == ans.subrange(0, i + 1)[i as int]);
            }
        }
        match outcome {
            Ok(()) => {},
            Err(e) => {
                proof {
                    let ans = next;
                    assert(ans.subrange(0, i + 1) =~= next);
                    assert(walk_from(memory, listed@, ans, i as int) == (events, outcome));
                    assert(handler.events() =~= base + walk_from(memory, listed@, ans, 0).0);
                }
                return Err(e);
            },
        }
        proof {
            assert forall|ans: Seq<Result<(), AcpiError>>|
                ans.len() >= i + 1 && ans.subrange(0, i + 1) == next implies #[trigger] walk_from(
                    memory,
                    listed@,
                    ans,
                    0,
                ) == (done + events + walk_from(memory, listed@, ans, i + 1).0, walk_from(
                    memory,
                    listed@,
                    ans,
                    i + 1,
                ).1) by {
                assert(ans.len() >= i && ans.subrange(0, i as int) == answers);
                assert(ans[i as int] == outcome);
                let rest = walk_from(memory, listed@, ans, i + 1);
                assert(walk_from(memory, listed@, ans, i as int) == (events + rest.0, rest.1));
                assert(done + (events + rest.0) =~= done + events + rest.0);
            }
            assert(handler.events() =~= base + (done + events));
            answers = next;
            done = done + events;
        }
        i = i + 1;
    }
    proof {
        let ans = answers;
        assert(ans.subrange(0, i as int) =~= answers);
        assert(walk_from(memory, listed@, ans, i as int) == (Seq::<Event>::empty(), Ok::<(), AcpiError>(())));
        assert(walk_from(memory, listed@, ans, 0) == (done + walk_from(memory, listed@, ans, i as int).0, walk_from(memory, listed@, ans, i as int).1));
        assert(done + Seq::<Event>::empty() =~= done);
        assert(handler.events() == base + walk_from(memory, listed@, ans, 0).0);
    }
    Ok(())
}

/// The map requests among `events`, less the unmap requests.
pub open spec fn net_mappings(events: Seq<Event>) -> int
    decreases events.len(),
{
    if events.len() == 0 {
        0
    } else {
        net_mappings(events.drop_last()) + match events.last() {
            Event::Mapped { .. } => 1int,
            Event::Unmapped { .. } => -1int,
            Event::Handled { .. } => 0int,
        }
    }
}

proof fn lemma_net_concat(a: Seq<Event>, b: Seq<Event>)
    ensures
        net_mappings(a + b) == net_mappings(a) + net_mappings(b),
    decreases b.len(),
{
    if b.len() == 0 {
        assert(a + b =~= a);
    } else {
        lemma_net_concat(a, b.drop_last());
        assert((a + b).drop_last() =~= a + b.drop_last());
    }
}

proof fn lemma_table_open_net(memory: spec_fn(int) -> u8, address: u64)
    ensures
        net_mappings(table_open_events(memory, address)) == 1,
{
    reveal_with_fuel(net_mappings, 4);
}

proof fn lemma_walk_net(
    memory: spec_fn(int) -> u8,
    listed: Seq<u64>,
    answers: Seq<Result<(), AcpiError>>,
    i: int,
)
    ensures
        net_mappings(walk_from(memory, listed, answers, i).0) == 0,
    decreases listed.len() - i,
{
    if 0 <= i < listed.len() {
        let address = listed[i];
        let handed = match (table_fault(memory, address), table_interpreter(memory, address)) {
            (None, Some(kind)) => seq![Event::Handled { kind, address, result: answers[i] }],
            _ => Seq::empty(),
        };
        let open = table_open_events(memory, address);
        reveal_with_fuel(net_mappings, 2);
        lemma_table_open_net(memory, address);
        lemma_net_concat(open, handed);
        lemma_net_concat(open + handed, seq![Event::Unmapped { address }]);
        lemma_walk_net(memory, listed, answers, i + 1);
        let events = child_events(memory, address, answers[i]);
        lemma_net_concat(events, walk_from(memory, listed, answers, i + 1).0);
    } else {
        reveal_with_fuel(net_mappings, 1);
    }
}

/// Every parse makes as many unmap requests as map requests, whatever the memory and
/// whatever the interpreters answer: no mapping outlives it.
pub proof fn lemma_parse_balanced(
    memory: spec_fn(int) -> u8,
    rsdp_address: u64,
    answers: Seq<Result<(), AcpiError>>,
)
    ensures
        net_mappings(parse_run(memory, rsdp_address, answers).0) == 0,
{
    reveal_with_fuel(net_mappings, 5);
    let pointer = rsdp_events(memory, rsdp_address);
    assert(net_mappings(pointer) == 0);
    if let Ok(root) = root_pointer_outcome(memory, rsdp_address as int) {
        let table = table_open_events(memory, root.address);
        let closing = seq![Event::Unmapped { address: root.address }];
        lemma_table_open_net(memory, root.address);
        lemma_net_concat(pointer, table);
        lemma_net_concat(pointer + table, closing);
        let listed = listed_tables(memory, root);
        lemma_walk_net(memory, listed, answers, 0);
        lemma_net_concat(pointer + table + closing, walk_from(memory, listed, answers, 0).0);
    }
}

} // verus!
