//! From the operands of an instruction that faulted to the accesses it made.
use std::ops::Range;

use vstd::prelude::*;

use crate::arch::Arch;
use crate::disasm::{instr_operands, AccessType, Arm64Vas, DisasmError, Disassembler, Operand};
use crate::trace::AccessEvent;

verus! {

/// How many pieces of at most `cutoff` bytes an access of `size` bytes falls into. An
/// empty access is one empty piece.
pub open spec fn piece_count(size: usize, cutoff: usize) -> int {
    if size == 0 {
        1
    } else {
        (size + cutoff - 1) / (cutoff as int)
    }
}

/// Whether the addresses of all the pieces, the last taken at full length, exist.
pub open spec fn pieces_fit(addr: usize, size: usize, cutoff: usize) -> bool {
    addr + piece_count(size, cutoff) * cutoff <= usize::MAX
}

/// Piece `i` of the access: `cutoff` bytes, or what is left.
pub open spec fn piece(addr: usize, size: usize, cutoff: usize, i: int) -> Range<usize> {
    Range {
        start: (addr + i * cutoff) as usize,
        end: (if (i + 1) * cutoff >= size {
            addr + size
        } else {
            addr + (i + 1) * cutoff
        }) as usize,
    }
}

/// The pieces of the access, in order.
pub open spec fn pieces(addr: usize, size: usize, cutoff: usize) -> Seq<Range<usize>> {
    Seq::new(piece_count(size, cutoff) as nat, |i: int| piece(addr, size, cutoff, i))
}

proof fn lemma_piece_count(size: usize, cutoff: usize)
    requires
        cutoff > 0,
    ensures
        piece_count(size, cutoff) >= 1,
        piece_count(size, cutoff) * cutoff >= size,
        (piece_count(size, cutoff) - 1) * cutoff <= size,
        size > 0 ==> (piece_count(size, cutoff) - 1) * cutoff < size,
{
    if size > 0 {
        let s = size as int;
        let c = cutoff as int;
        let n = (s + c - 1) / c;
        assert(n >= 1 && n * c >= s && (n - 1) * c < s) by (nonlinear_arith)
            requires
                n == (s + c - 1) / c,
                s > 0,
                c > 0,
        ;
    }
}

proof fn lemma_piece_bounds(addr: usize, size: usize, cutoff: usize, i: int)
    requires
        cutoff > 0,
        pieces_fit(addr, size, cutoff),
        0 <= i < piece_count(size, cutoff),
    ensures
        0 <= i * cutoff <= size,
        (i + 1) * cutoff == i * cutoff + cutoff,
        0 <= (i + 1) * cutoff <= piece_count(size, cutoff) * cutoff,
        (i + 1) * cutoff >= size <==> i == piece_count(size, cutoff) - 1,
{
    lemma_piece_count(size, cutoff);
    let c = cutoff as int;
    let n = piece_count(size, cutoff);
    assert(0 <= i * c <= (n - 1) * c && (i + 1) * c == i * c + c && (i + 1) * c <= n * c)
        by (nonlinear_arith)
        requires
            0 <= i <= n - 1,
            c > 0,
    ;
    if i < n - 1 {
        assert((i + 1) * c <= (n - 1) * c) by (nonlinear_arith)
            requires
                i + 1 <= n - 1,
                c > 0,
        ;
        assert(n >= 2);
        assert(size > 0);
    }
}

/// Splits an access of `size` bytes at `addr` into pieces of at most `cutoff` bytes.
pub fn get_ranges(addr: usize, size: usize, cutoff: usize) -> (ranges: Vec<Range<usize>>)
    requires
        cutoff > 0,
        pieces_fit(addr, size, cutoff),
    ensures
        ranges@ == pieces(addr, size, cutoff),
{
    proof {
        lemma_piece_count(size, cutoff);
    }
    let end: usize = addr + size;
    let mut ranges: Vec<Range<usize>> = Vec::new();
    let mut curr: usize = addr;
    let ghost n = piece_count(size, cutoff);
    loop
        invariant
            cutoff > 0,
            pieces_fit(addr, size, cutoff),
            n == piece_count(size, cutoff),
            end == addr + size,
            ranges@.len() < n,
            ranges@ == pieces(addr, size, cutoff).take(ranges@.len() as int),
            curr == addr + ranges@.len() * cutoff,
        decreases n - ranges@.len(),
    {
        let ghost i = ranges@.len() as int;
        proof {
            lemma_piece_bounds(addr, size, cutoff, i);
        }
        let next: usize = curr + cutoff;
        if next >= end {
            ranges.push(curr..end);
            assert(ranges@ =~= pieces(addr, size, cutoff));
            return ranges;
        }
        ranges.push(curr..next);
        assert(ranges@ =~= pieces(addr, size, cutoff).take(i + 1));
        curr = next;
    }
}

/// Whether the addresses of all the pieces, the last taken at full length, exist.
pub fn check_pieces(addr: usize, size: usize, cutoff: usize) -> (fit: bool)
    requires
        cutoff > 0,
    ensures
        fit == pieces_fit(addr, size, cutoff),
{
    proof {
        lemma_piece_count(size, cutoff);
    }
    if size == 0 {
        return addr.checked_add(cutoff).is_some();
    }
    let whole: usize = (size - 1) / cutoff;
    proof {
        let s = size as int;
        let c = cutoff as int;
        assert((s + c - 1) / c == (s - 1) / c + 1) by (nonlinear_arith)
            requires
                s > 0,
                c > 0,
        ;
        let w = whole as int;
        assert((w + 1) * c == w * c + c && 0 <= w * c <= s - 1) by (nonlinear_arith)
            requires
                w == (s - 1) / c,
                s > 0,
                c > 0,
        ;
    }
    match (whole * cutoff).checked_add(cutoff) {
        Some(total) => addr.checked_add(total).is_some(),
        None => false,
    }
}

/// The pieces of an access lie end to end, cover it from its first byte to its last
/// and nothing else, and none is longer than the cutoff: all but the last have
/// exactly that length.
pub proof fn law_pieces_cover(addr: usize, size: usize, cutoff: usize)
    requires
        cutoff > 0,
        pieces_fit(addr, size, cutoff),
    ensures
        pieces(addr, size, cutoff).len() > 0,
        pieces(addr, size, cutoff)[0].start == addr,
        pieces(addr, size, cutoff).last().end == addr + size,
        forall|i: int|
            0 <= i < pieces(addr, size, cutoff).len() - 1 ==> (
            #[trigger] pieces(addr, size, cutoff)[i]).end == pieces(addr, size, cutoff)[i
                + 1].start,
        forall|i: int|
            0 <= i < pieces(addr, size, cutoff).len() - 1 ==> (
            #[trigger] pieces(addr, size, cutoff)[i]).end - pieces(addr, size, cutoff)[i].start
                == cutoff,
        0 <= pieces(addr, size, cutoff).last().end - pieces(addr, size, cutoff).last().start
            <= cutoff,
{
    lemma_piece_count(size, cutoff);
    let p = pieces(addr, size, cutoff);
    let n = piece_count(size, cutoff);
    assert(p.len() == n);
    assert forall|i: int| 0 <= i < n implies p[i] == piece(addr, size, cutoff, i) && 0 <= i * cutoff
        <= size && (i + 1) * cutoff == i * cutoff + cutoff && (i + 1) * cutoff <= n * cutoff && (
    (i + 1) * cutoff >= size <==> i == n - 1) by {
        lemma_piece_bounds(addr, size, cutoff, i);
    }
    assert(p[0] == piece(addr, size, cutoff, 0));
    assert(0 * cutoff == 0) by (nonlinear_arith);
    assert(p[n - 1] == piece(addr, size, cutoff, n - 1));
    assert(((n - 1) + 1) * cutoff == n * cutoff);
    assert forall|i: int| 0 <= i < n - 1 implies (#[trigger] p[i]).end == p[i + 1].start && p[i].end
        - p[i].start == cutoff by {
        assert(p[i + 1] == piece(addr, size, cutoff, i + 1));
    }
}

/// How many bytes a memory operand accesses at most, where that is known.
pub open spec fn operand_size(op: Operand) -> usize {
    match op {
        Operand::X86Mem(mem) => mem.size as usize,
        Operand::Arm64Mem(number) => match Arm64Vas::numbered(number) {
            Some(vas) => vas_size(vas),
            None => 0,
        },
        Operand::ArmMem { vector, .. } => if vector {
            16
        } else {
            4
        },
        Operand::RiscVMem => 16,
        Operand::NonMem | Operand::Unsupported => 0,
    }
}

/// The number of lanes of an arrangement times their width in bytes. An instruction
/// without one accesses a word.
pub open spec fn vas_size(vas: Arm64Vas) -> usize {
    match vas {
        Arm64Vas::Invalid => 8,
        Arm64Vas::B1 => 1,
        Arm64Vas::H1 => 2,
        Arm64Vas::B4 | Arm64Vas::H2 | Arm64Vas::S1 => 4,
        Arm64Vas::B8 | Arm64Vas::H4 | Arm64Vas::S2 | Arm64Vas::D1 => 8,
        Arm64Vas::B16 | Arm64Vas::H8 | Arm64Vas::S4 | Arm64Vas::D2 | Arm64Vas::Q1 => 16,
    }
}

/// How a memory operand is accessed. Where the processor's disassembler does not
/// tell, both a read and a write are assumed.
pub open spec fn operand_access(op: Operand) -> Option<AccessType> {
    match op {
        Operand::X86Mem(mem) => mem.access,
        Operand::ArmMem { access, .. } => access,
        Operand::Arm64Mem(number) => if Arm64Vas::numbered(number) is Some {
            Some(AccessType { readable: true, writable: true })
        } else {
            None
        },
        Operand::RiscVMem => Some(AccessType { readable: true, writable: true }),
        Operand::NonMem | Operand::Unsupported => None,
    }
}

/// Whether the accesses of the operand, if it makes any, can be told.
pub open spec fn tellable(op: Operand, addr: usize, page_size: usize) -> bool {
    match op {
        Operand::NonMem => true,
        Operand::Unsupported => false,
        _ => operand_access(op) is Some && pieces_fit(addr, operand_size(op), page_size),
    }
}

/// The accesses to `addr` that the operand makes, cut at the page size, reads first.
pub open spec fn operand_events(op: Operand, addr: usize, page_size: usize) -> Seq<AccessEvent> {
    match operand_access(op) {
        Some(access) => {
            let ranges = pieces(addr, operand_size(op), page_size);
            (if access.readable {
                ranges.map_values(|r: Range<usize>| AccessEvent::Read(r))
            } else {
                Seq::empty()
            }) + (if access.writable {
                ranges.map_values(|r: Range<usize>| AccessEvent::Write(r))
            } else {
                Seq::empty()
            })
        },
        None => Seq::empty(),
    }
}

/// The accesses of all the operands, one operand after the other.
pub open spec fn operands_events(ops: Seq<Operand>, addr: usize, page_size: usize) -> Seq<
    AccessEvent,
>
    decreases ops.len(),
{
    if ops.len() == 0 {
        Seq::empty()
    } else {
        operands_events(ops.drop_last(), addr, page_size) + operand_events(
            ops.last(),
            addr,
            page_size,
        )
    }
}

/// What is put on record of an instruction that accessed `addr`, given what came of
/// decoding it. Where decoding failed the worst is assumed that the architecture allows.
/// `None` means that this is more than can be put on record.
pub open spec fn record_of(
    found: Result<Option<Seq<Operand>>, DisasmError>,
    addr: usize,
    page_size: usize,
) -> Option<Seq<AccessEvent>> {
    match found {
        Ok(Some(ops)) => if forall|i: int|
            0 <= i < ops.len() ==> tellable(ops[i], addr, page_size) {
            Some(operands_events(ops, addr, page_size))
        } else {
            None
        },
        Ok(None) => None,
        Err(e) => if addr + e.arch.access_limit() <= usize::MAX {
            let range = Range { start: addr, end: (addr + e.arch.access_limit()) as usize };
            Some(seq![AccessEvent::Read(range), AccessEvent::Write(range)])
        } else {
            None
        },
    }
}

/// The size that an AArch64 vector arrangement amounts to, in bytes.
pub fn arm64_access_size(vas: Arm64Vas) -> (size: usize)
    ensures
        size == vas_size(vas),
{
    match vas {
        Arm64Vas::Invalid => Arch::Aarch64.word_size(),
        Arm64Vas::B1 => 1,
        Arm64Vas::H1 => 2,
        Arm64Vas::B4 | Arm64Vas::H2 | Arm64Vas::S1 => 4,
        Arm64Vas::B8 | Arm64Vas::H4 | Arm64Vas::S2 | Arm64Vas::D1 => 8,
        Arm64Vas::B16 | Arm64Vas::H8 | Arm64Vas::S4 | Arm64Vas::D2 | Arm64Vas::Q1 => 16,
    }
}

/// How many bytes a memory operand accesses at most, and how. `None` for an operand
/// that is no memory, or one that is not known.
pub fn operand_shape(op: &Operand) -> (shape: (usize, Option<AccessType>))
    ensures
        shape == (operand_size(*op), operand_access(*op)),
{
    match *op {
        Operand::X86Mem(mem) => (mem.size as usize, mem.access),
        Operand::Arm64Mem(number) => match Arm64Vas::from_number(number) {
            Some(vas) => (
                arm64_access_size(vas),
                Some(AccessType { readable: true, writable: true }),
            ),
            None => (0, None),
        },
        Operand::ArmMem { vector, access } => (
            if vector {
                Arch::Arm.max_access_size()
            } else {
                Arch::Arm.word_size()
            },
            access,
        ),
        Operand::RiscVMem => (
            Arch::RiscV64.max_access_size(),
            Some(AccessType { readable: true, writable: true }),
        ),
        Operand::NonMem | Operand::Unsupported => (0, None),
    }
}

/// Whether the accesses of the operand, if it makes any, can be told.
pub fn check_operand(op: &Operand, addr: usize, page_size: usize) -> (ok: bool)
    requires
        page_size > 0,
    ensures
        ok == tellable(*op, addr, page_size),
{
    match op {
        Operand::NonMem => true,
        Operand::Unsupported => false,
        _ => {
            let (size, access) = operand_shape(op);
            access.is_some() && check_pieces(addr, size, page_size)
        },
    }
}

/// Whether the accesses of every one of the operands can be told.
pub fn check_operands(ops: &Vec<Operand>, addr: usize, page_size: usize) -> (ok: bool)
    requires
        page_size > 0,
    ensures
        ok == (forall|i: int| 0 <= i < ops@.len() ==> tellable(ops@[i], addr, page_size)),
{
    let mut i: usize = 0;
    while i < ops.len()
        invariant
            page_size > 0,
            i <= ops@.len(),
            forall|j: int| 0 <= j < i ==> tellable(ops@[j], addr, page_size),
        decreases ops@.len() - i,
    {
        if !check_operand(&ops[i], addr, page_size) {
            return false;
        }
        i = i + 1;
    }
    true
}

/// Puts the accesses of one operand on record.
pub fn log_operand(
    op: &Operand,
    addr: usize,
    page_size: usize,
    acc_events: &mut Vec<AccessEvent>,
)
    requires
        page_size > 0,
        tellable(*op, addr, page_size),
    ensures
        final(acc_events)@ == old(acc_events)@ + operand_events(*op, addr, page_size),
{
    let (size, access) = operand_shape(op);
    let access = match access {
        Some(a) => a,
        None => {
            assert(old(acc_events)@ + operand_events(*op, addr, page_size) =~= old(acc_events)@);
            return;
        },
    };
    let ranges: Vec<Range<usize>> = get_ranges(addr, size, page_size);
    let ghost reads = ranges@.map_values(|r: Range<usize>| AccessEvent::Read(r));
    let ghost writes = ranges@.map_values(|r: Range<usize>| AccessEvent::Write(r));
    if access.readable {
        let mut i: usize = 0;
        while i < ranges.len()
            invariant
                i <= ranges@.len(),
                reads == ranges@.map_values(|r: Range<usize>| AccessEvent::Read(r)),
                acc_events@ == old(acc_events)@ + reads.take(i as int),
            decreases ranges@.len() - i,
        {
            acc_events.push(AccessEvent::Read(ranges[i].start..ranges[i].end));
            assert(reads.take(i + 1) =~= reads.take(i as int).push(reads[i as int]));
            i = i + 1;
        }
        assert(reads.take(reads.len() as int) =~= reads);
    }
    let ghost middle = acc_events@;
    if access.writable {
        let mut i: usize = 0;
        while i < ranges.len()
            invariant
                i <= ranges@.len(),
                writes == ranges@.map_values(|r: Range<usize>| AccessEvent::Write(r)),
                acc_events@ == middle + writes.take(i as int),
            decreases ranges@.len() - i,
        {
            acc_events.push(AccessEvent::Write(ranges[i].start..ranges[i].end));
            assert(writes.take(i + 1) =~= writes.take(i as int).push(writes[i as int]));
            i = i + 1;
        }
        assert(writes.take(writes.len() as int) =~= writes);
    }
    assert(acc_events@ =~= old(acc_events)@ + operand_events(*op, addr, page_size));
}

/// Puts on record what an instruction that accessed `addr` did, given what came of
/// decoding it. `false` means that this is more than can be put on record, and
/// nothing was.
pub fn log_decoded(
    found: Result<Option<Vec<Operand>>, DisasmError>,
    addr: usize,
    page_size: usize,
    acc_events: &mut Vec<AccessEvent>,
) -> (ok: bool)
    requires
        page_size > 0,
    ensures
        match record_of(crate::disasm::outcome(found), addr, page_size) {
            Some(events) => ok && final(acc_events)@ == old(acc_events)@ + events,
            None => !ok && final(acc_events)@ == old(acc_events)@,
        },
{
    match found {
        Ok(Some(ops)) => {
            if !check_operands(&ops, addr, page_size) {
                return false;
            }
            let mut i: usize = 0;
            assert(operands_events(ops@.take(0), addr, page_size) =~= Seq::empty());
            while i < ops.len()
                invariant
                    page_size > 0,
                    i <= ops@.len(),
                    forall|j: int| 0 <= j < ops@.len() ==> tellable(ops@[j], addr, page_size),
                    acc_events@ == old(acc_events)@ + operands_events(
                        ops@.take(i as int),
                        addr,
                        page_size,
                    ),
                decreases ops@.len() - i,
            {
                log_operand(&ops[i], addr, page_size, acc_events);
                assert(ops@.take(i + 1).drop_last() =~= ops@.take(i as int));
                i = i + 1;
            }
            assert(ops@.take(ops@.len() as int) =~= ops@);
            true
        },
        Ok(None) => false,
        Err(e) => match addr.checked_add(e.arch.max_access_size()) {
            Some(end) => {
                // Read goes first because we need to be pessimistic.
                acc_events.push(AccessEvent::Read(addr..end));
                acc_events.push(AccessEvent::Write(addr..end));
                true
            },
            None => false,
        },
    }
}

/// Whether `events` is what is put on record of the instruction of this architecture at
/// the start of `code`, which accessed `addr`.
pub open spec fn disassembly(
    arch: Arch,
    code: Seq<u8>,
    addr: usize,
    page_size: usize,
    events: Option<Seq<AccessEvent>>,
) -> bool {
    ||| events == record_of(
        Ok(crate::disasm::decoded(arch, code, crate::disasm::DISASM_ADDR, 1)),
        addr,
        page_size,
    )
    ||| events == record_of(Err(DisasmError { arch }), addr, page_size)
}

/// Decodes the instruction at the start of `code`, which accessed `addr`, and puts
/// its accesses on record. `false` means that this is more than can be put on
/// record, and nothing was.
pub fn capstone_disassemble(
    instr: &Vec<u8>,
    addr: usize,
    page_size: usize,
    disasm: &Disassembler,
    acc_events: &mut Vec<AccessEvent>,
) -> (ok: bool)
    requires
        page_size > 0,
    ensures
        ok ==> exists|events: Seq<AccessEvent>|
            disassembly(disasm.arch(), instr@, addr, page_size, Some(events))
                && final(acc_events)@ == old(acc_events)@ + events,
        !ok ==> disassembly(disasm.arch(), instr@, addr, page_size, None) && final(acc_events)@
            == old(acc_events)@,
{
    let found = instr_operands(disasm, instr);
    let ghost events = record_of(crate::disasm::outcome(found), addr, page_size);
    assert(disassembly(disasm.arch(), instr@, addr, page_size, events));
    log_decoded(found, addr, page_size, acc_events)
}

/// An access fits if each of its pieces could have its full length. The pieces are just as
/// many as it takes to cover it, and one if it is empty.
pub proof fn law_pieces_fit(addr: usize, size: usize, cutoff: usize, n: int)
    requires
        cutoff > 0,
        n >= 1,
    ensures
        pieces_fit(addr, size, cutoff) && (n == 1 || (n - 1) * cutoff < size) ==> addr + n * cutoff
            <= usize::MAX,
        n * cutoff >= size && addr + n * cutoff <= usize::MAX ==> pieces_fit(addr, size, cutoff),
{
    lemma_piece_count(size, cutoff);
    let count = piece_count(size, cutoff);
    let c = cutoff as int;
    if n == 1 || (n - 1) * cutoff < size {
        assert(n <= count && n * c <= count * c) by (nonlinear_arith)
            requires
                n == 1 || (n - 1) * c < size,
                count * c >= size,
                count >= 1,
                c > 0,
        ;
    }
    if n * cutoff >= size {
        assert(count <= n && count * c <= n * c) by (nonlinear_arith)
            requires
                n >= 1,
                n * c >= size,
                size > 0 ==> (count - 1) * c < size,
                size == 0 ==> count == 1,
                c > 0,
        ;
    }
}

/// How many lanes an arrangement has.
pub open spec fn lanes(vas: Arm64Vas) -> int {
    match vas {
        Arm64Vas::B16 => 16,
        Arm64Vas::B8 | Arm64Vas::H8 => 8,
        Arm64Vas::B4 | Arm64Vas::H4 | Arm64Vas::S4 => 4,
        Arm64Vas::H2 | Arm64Vas::S2 | Arm64Vas::D2 => 2,
        _ => 1,
    }
}

/// How wide the lanes of an arrangement are, in bytes. Without one there is a word.
pub open spec fn lane_width(vas: Arm64Vas) -> int {
    match vas {
        Arm64Vas::B16 | Arm64Vas::B8 | Arm64Vas::B4 | Arm64Vas::B1 => 1,
        Arm64Vas::H8 | Arm64Vas::H4 | Arm64Vas::H2 | Arm64Vas::H1 => 2,
        Arm64Vas::S4 | Arm64Vas::S2 | Arm64Vas::S1 => 4,
        Arm64Vas::D2 | Arm64Vas::D1 | Arm64Vas::Invalid => 8,
        Arm64Vas::Q1 => 16,
    }
}

/// An arrangement amounts to as many bytes as all of its lanes have.
pub proof fn law_vas_size(vas: Arm64Vas)
    ensures
        vas_size(vas) == lanes(vas) * lane_width(vas),
{
}

/// The bytes that an operand may access and how: those that the disassembler tells of, or
/// the most there can be.
pub open spec fn extent(op: Operand) -> Option<(int, bool, bool)> {
    match op {
        Operand::X86Mem(m) => match m.access {
            Some(access) => Some((m.size as int, access.readable, access.writable)),
            None => None,
        },
        Operand::Arm64Mem(number) => match Arm64Vas::numbered(number) {
            Some(vas) => Some((lanes(vas) * lane_width(vas), true, true)),
            None => None,
        },
        Operand::ArmMem { vector, access } => match access {
            Some(access) => Some(
                (
                    if vector {
                        16
                    } else {
                        4
                    },
                    access.readable,
                    access.writable,
                ),
            ),
            None => None,
        },
        Operand::RiscVMem => Some((16, true, true)),
        Operand::NonMem => Some((0, false, false)),
        Operand::Unsupported => None,
    }
}

/// The range of an event, and whether it is a read.
pub open spec fn shape_of(event: AccessEvent) -> (Range<usize>, bool) {
    match event {
        AccessEvent::Read(range) => (range, true),
        AccessEvent::Write(range) => (range, false),
    }
}

/// Whether one of the events is a read, or else a write, of this byte.
pub open spec fn touches(events: Seq<AccessEvent>, read: bool, byte: int) -> bool {
    exists|i: int|
        0 <= i < events.len() && (#[trigger] shape_of(events[i])).1 == read && shape_of(
            events[i],
        ).0.start <= byte < shape_of(events[i]).0.end
}

proof fn lemma_piece_with(addr: usize, size: usize, cutoff: usize, byte: int) -> (i: int)
    requires
        cutoff > 0,
        pieces_fit(addr, size, cutoff),
        addr <= byte < addr + size,
    ensures
        0 <= i < pieces(addr, size, cutoff).len(),
        pieces(addr, size, cutoff)[i].start <= byte < pieces(addr, size, cutoff)[i].end,
{
    let c = cutoff as int;
    let d = byte - addr;
    let i = d / c;
    lemma_piece_count(size, cutoff);
    let n = piece_count(size, cutoff);
    assert(0 <= i < n && i * c <= d < (i + 1) * c) by (nonlinear_arith)
        requires
            i == d / c,
            0 <= d < size,
            n * c >= size,
            c > 0,
    ;
    lemma_piece_bounds(addr, size, cutoff, i);
    assert(pieces(addr, size, cutoff)[i] == piece(addr, size, cutoff, i));
    i
}

/// Whatever the operand, the reads on record, if it is readable, and the writes on record, if
/// it is writable, cover exactly the bytes that it accesses from `addr` on, and no byte
/// twice. Reads come before writes, and both are in the order of their addresses. Each event
/// but the last of its kind is as long as a page.
pub proof fn law_operand_bytes(op: Operand, addr: usize, page_size: usize, byte: int)
    requires
        page_size > 0,
        tellable(op, addr, page_size),
    ensures
        extent(op) matches Some((size, readable, writable)) && {
            let events = operand_events(op, addr, page_size);
            &&& touches(events, true, byte) <==> readable && addr <= byte < addr + size
            &&& touches(events, false, byte) <==> writable && addr <= byte < addr + size
            &&& forall|i: int, j: int|
                0 <= i < j < events.len() ==> {
                    let (first, first_read) = #[trigger] shape_of(events[i]);
                    let (then, then_read) = #[trigger] shape_of(events[j]);
                    &&& then_read ==> first_read
                    &&& first_read == then_read ==> first.end <= then.start && first.end
                        - first.start == page_size
                }
            &&& forall|i: int|
                0 <= i < events.len() ==> (#[trigger] shape_of(events[i])).0.end - shape_of(
                    events[i],
                ).0.start <= page_size
            &&& (readable || writable) <==> events.len() > 0
        },
{
    if let Some((size, readable, writable)) = extent(op) {
        let events = operand_events(op, addr, page_size);
        if op is NonMem {
            assert(events =~= seq![]);
        } else {
            let s = operand_size(op);
            assert(s == size);
            law_pieces_cover(addr, s, page_size);
            let p = pieces(addr, s, page_size);
            let n = p.len() as int;
            let r = if readable {
                n
            } else {
                0
            };
            let w = if writable {
                n
            } else {
                0
            };
            assert(events.len() == r + w);
            assert forall|i: int| 0 <= i < n implies {
                &&& addr <= (#[trigger] p[i]).start <= p[i].end <= addr + s
                &&& p[i].end - p[i].start <= page_size
                &&& i < n - 1 ==> p[i].end - p[i].start == page_size
                &&& p[i].start == addr + i * page_size
            } by {
                lemma_piece_bounds(addr, s, page_size, i);
                assert(p[i] == piece(addr, s, page_size, i));
            }
            assert forall|i: int| 0 <= i < events.len() implies #[trigger] shape_of(events[i]) == (
            if i < r {
                (p[i], true)
            } else {
                (p[i - r], false)
            }) by {}
            assert forall|i: int, j: int| 0 <= i < j < n implies (#[trigger] p[i]).end
                <= (#[trigger] p[j]).start by {
                assert((i + 1) * page_size <= j * page_size) by (nonlinear_arith)
                    requires
                        i + 1 <= j,
                ;
                lemma_piece_bounds(addr, s, page_size, i);
            }
            if addr <= byte < addr + s {
                let i = lemma_piece_with(addr, s, page_size, byte);
                if readable {
                    assert(shape_of(events[i]) == (p[i], true));
                }
                if writable {
                    assert(shape_of(events[r + i]) == (p[i], false));
                }
            }
        }
    }
}

/// An operand can be told exactly if it is known how many bytes it accesses and how, and the
/// pieces of the access fit. Operands that are no memory always can.
pub proof fn law_when_operands_tell(op: Operand, addr: usize, page_size: usize)
    ensures
        tellable(op, addr, page_size) <==> (extent(op) matches Some((size, _, _)) && (op is NonMem
            || pieces_fit(addr, size as usize, page_size))),
{
}

/// The accesses of an instruction are those of its operands, one after the other, and none is
/// left out.
pub proof fn law_every_operand_counts(
    a: Seq<Operand>,
    b: Seq<Operand>,
    addr: usize,
    page_size: usize,
)
    ensures
        operands_events(a + b, addr, page_size) == operands_events(a, addr, page_size)
            + operands_events(b, addr, page_size),
    decreases b.len(),
{
    let first = operands_events(a, addr, page_size);
    if b.len() == 0 {
        assert(a + b =~= a);
        assert(first + operands_events(b, addr, page_size) =~= first);
    } else {
        assert((a + b).drop_last() =~= a + b.drop_last());
        assert((a + b).last() == b.last());
        law_every_operand_counts(a, b.drop_last(), addr, page_size);
        assert(operands_events(a + b, addr, page_size) =~= first + operands_events(
            b,
            addr,
            page_size,
        ));
    }
}

/// The accesses of an instruction with a single operand are those of that operand.
pub proof fn law_single_operand(op: Operand, addr: usize, page_size: usize)
    ensures
        operands_events(seq![op], addr, page_size) == operand_events(op, addr, page_size),
        operands_events(seq![], addr, page_size) == Seq::<AccessEvent>::empty(),
{
    assert(seq![op].drop_last() =~= seq![]);
    reveal_with_fuel(operands_events, 2);
    assert(Seq::<AccessEvent>::empty() + operand_events(op, addr, page_size) =~= operand_events(
        op,
        addr,
        page_size,
    ));
}

/// What is put on record of an instruction with a single operand covers exactly the bytes
/// of that operand, as reads and as writes.
pub proof fn law_record_of_one_operand(op: Operand, addr: usize, page_size: usize, byte: int)
    requires
        page_size > 0,
        extent(op) matches Some((size, _, _)) && addr + size + page_size <= usize::MAX,
    ensures
        record_of(Ok(Some(seq![op])), addr, page_size) matches Some(events) && (extent(
            op,
        ) matches Some((size, readable, writable)) && {
            &&& touches(events, true, byte) <==> readable && addr <= byte < addr + size
            &&& touches(events, false, byte) <==> writable && addr <= byte < addr + size
        }),
{
    let (size, _, _) = extent(op)->0;
    lemma_piece_count(size as usize, page_size);
    let n = piece_count(size as usize, page_size);
    assert(n * page_size <= size + page_size) by (nonlinear_arith)
        requires
            (n - 1) * page_size <= size,
    ;
    law_when_operands_tell(op, addr, page_size);
    law_single_operand(op, addr, page_size);
    law_operand_bytes(op, addr, page_size, byte);
    assert(seq![op][0] == op);
    assert forall|i: int| 0 <= i < seq![op].len() implies tellable(
        #[trigger] seq![op][i],
        addr,
        page_size,
    ) by {}
}

/// Where decoding failed, reading and writing of as many bytes is put on record as one access
/// can touch at most on that processor, the read first. Where there is no instruction, or one
/// with an operand that cannot be told, nothing is.
pub proof fn law_record_of_failure(
    e: DisasmError,
    ops: Seq<Operand>,
    i: int,
    addr: usize,
    page_size: usize,
)
    ensures
        ({
            let most: int = if e.arch is X86 || e.arch is X86_64 {
                64
            } else {
                16
            };
            match record_of(Err(e), addr, page_size) {
                Some(events) => {
                    &&& events.len() == 2
                    &&& events[0] matches AccessEvent::Read(range) && range.start == addr
                        && range.end == addr + most
                    &&& events[1] matches AccessEvent::Write(range) && range.start == addr
                        && range.end == addr + most
                },
                None => addr + most > usize::MAX,
            }
        }),
        record_of(Ok(None), addr, page_size) is None,
        0 <= i < ops.len() && !tellable(ops[i], addr, page_size) ==> record_of(
            Ok(Some(ops)),
            addr,
            page_size,
        ) is None,
        (forall|j: int| 0 <= j < ops.len() ==> tellable(#[trigger] ops[j], addr, page_size))
            ==> record_of(Ok(Some(ops)), addr, page_size) == Some(
            operands_events(ops, addr, page_size),
        ),
{
}

/// A memory operand of x86 that is known to be read or written puts exactly those bytes on
/// record that the disassembler says it has, whatever their number, and in that way.
pub proof fn law_x86_access_bytes(
    mem: crate::disasm::X86MemOperand,
    access: AccessType,
    addr: usize,
    page_size: usize,
    byte: int,
)
    requires
        page_size > 0,
        mem.access == Some(access),
        addr + mem.size + page_size <= usize::MAX,
    ensures
        record_of(Ok(Some(seq![Operand::X86Mem(mem)])), addr, page_size) matches Some(events) && {
            &&& touches(events, true, byte) <==> access.readable && addr <= byte < addr + mem.size
            &&& touches(events, false, byte) <==> access.writable && addr <= byte < addr + mem.size
        },
{
    law_record_of_one_operand(Operand::X86Mem(mem), addr, page_size, byte);
}

/// The arrangements are numbered by the width of their lanes, and those of one width by how
/// many lanes they have, the most first. Zero stands for none, and there are no others.
pub proof fn law_vas_numbers(number: u32)
    ensures
        number == 0 ==> Arm64Vas::numbered(number) == Some(Arm64Vas::Invalid),
        1 <= number <= 14 ==> (Arm64Vas::numbered(number) matches Some(vas) && {
            let (count, width) = (lanes(vas), lane_width(vas));
            &&& !(vas is Invalid)
            &&& width == (if number <= 4 {
                1int
            } else if number <= 8 {
                2
            } else if number <= 11 {
                4
            } else if number <= 13 {
                8
            } else {
                16
            })
            &&& count == (if number == 1 {
                16int
            } else if number == 2 || number == 5 {
                8
            } else if number == 3 || number == 6 || number == 9 {
                4
            } else if number == 7 || number == 10 || number == 12 {
                2
            } else {
                1
            })
        }),
        number > 14 ==> Arm64Vas::numbered(number) is None,
{
}

/// What is put on record of the bytes of an instruction is made of the operands that Capstone
/// finds in just these bytes, or is what a failure comes to.
pub proof fn law_instruction_tells(
    arch: Arch,
    code: Seq<u8>,
    addr: usize,
    page_size: usize,
    events: Option<Seq<AccessEvent>>,
)
    ensures
        disassembly(arch, code, addr, page_size, events) ==> events == record_of(
            Ok(crate::disasm::decoded(arch, code, 0x1000, 1)),
            addr,
            page_size,
        ) || events == record_of(Err(DisasmError { arch }), addr, page_size),
{
}

} // verus!
