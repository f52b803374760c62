//! The accesses that an instruction makes.
use vstd::prelude::*;

use crate::arch::Arch;
use crate::disasm::{
    instr_operands, reg_name, AccessType, DisasmError, Disassembler, Operand, X86MemOperand,
};
use crate::native_lib::{AccessEvent, AccessRange};
use crate::regs::NamedRegs;

verus! {

/// What the accesses of an instruction are: `Ok(None)` where there is no instruction or
/// one of its operands cannot be told.
pub type Found = Result<Option<Vec<AccessEvent>>, DisasmError>;

/// The address `base + index * scale + disp`, as the processor computes it.
pub open spec fn effective_addr(base: usize, index: usize, scale: int, disp: int) -> usize {
    ((base + index * scale + disp) % (usize::MAX + 1)) as usize
}

/// The accesses to `range` by an operand of this access type. Reads go first: to write
/// and then read makes little sense. A write is certain unless the operand is read as
/// well, since then it may be that a condition for the write was not met.
pub open spec fn typed_events(range: AccessRange, access: AccessType) -> Seq<AccessEvent> {
    let reads = if access.readable {
        seq![AccessEvent::Read(range)]
    } else {
        seq![]
    };
    if access.writable {
        reads.push(AccessEvent::Write(range, !access.readable))
    } else {
        reads
    }
}

/// Whether the accesses by a memory operand can be told, with this value in its base
/// register.
pub open spec fn tellable(op: X86MemOperand, base: Option<usize>) -> bool {
    &&& base is Some
    &&& op.scale >= 0
    &&& isize::MIN <= op.disp <= isize::MAX
    &&& op.access is Some
}

/// The accesses that an operand stands for, if the values of its base and index register
/// are these. An instruction need not have an index register.
pub open spec fn operand_events(op: Operand, base: Option<usize>, index: Option<usize>) -> Option<
    Seq<AccessEvent>,
> {
    match op {
        Operand::X86Mem(m) => if !tellable(m, base) {
            None
        } else {
            let index = match index {
                Some(val) => val,
                None => 0,
            };
            let addr = effective_addr(base->0, index, m.scale as int, m.disp as int);
            Some(typed_events(AccessRange { addr, size: m.size as usize }, m.access->0))
        },
        Operand::NonMem => Some(seq![]),
        _ => None,
    }
}

/// The value of a register that an operand refers to by number.
pub open spec fn reg_value<R: NamedRegs>(arch: Arch, regs: R, reg: u16) -> Option<usize> {
    match crate::disasm::register_name(arch, reg) {
        Some(name) => regs.value_named(name),
        None => None,
    }
}

/// The accesses that an operand stands for when the registers hold these values.
pub open spec fn find_events<R: NamedRegs>(arch: Arch, op: Operand, regs: R) -> Option<
    Seq<AccessEvent>,
> {
    match op {
        Operand::X86Mem(m) => operand_events(
            op,
            reg_value(arch, regs, m.base),
            reg_value(arch, regs, m.index),
        ),
        _ => operand_events(op, None, None),
    }
}

/// The accesses of all of the operands, in order, if each can be told.
pub open spec fn all_events<R: NamedRegs>(arch: Arch, ops: Seq<Operand>, regs: R) -> Option<
    Seq<AccessEvent>,
>
    decreases ops.len(),
{
    if ops.len() == 0 {
        Some(seq![])
    } else {
        match (all_events(arch, ops.drop_last(), regs), find_events(arch, ops.last(), regs)) {
            (Some(before), Some(events)) => Some(before + events),
            _ => None,
        }
    }
}

/// Whether the events are those given, where there are any.
pub open spec fn same_events(
    found: Option<Vec<AccessEvent>>,
    events: Option<Seq<AccessEvent>>,
) -> bool {
    match found {
        Some(found) => events == Some(found@),
        None => events is None,
    }
}

/// The accesses of the instruction of this architecture at the start of `code`, if
/// Capstone finds one there and each of its operands can be told.
pub open spec fn disassembly<R: NamedRegs>(arch: Arch, code: Seq<u8>, regs: R) -> Option<
    Seq<AccessEvent>,
> {
    match crate::disasm::decoded(arch, code, crate::disasm::DISASM_ADDR, 1) {
        Some(ops) => all_events(arch, ops, regs),
        None => None,
    }
}

/// A number that is less than one turn off its range wraps by one turn.
proof fn lemma_wrap(x: int, m: int)
    requires
        m > 0,
        -m <= x < 2 * m,
    ensures
        x % m == (if x < 0 {
            x + m
        } else if x < m {
            x
        } else {
            x - m
        }),
{
    let q: int = if x < 0 {
        -1
    } else if x < m {
        0
    } else {
        1
    };
    assert(q * m == (if x < 0 {
        -m
    } else if x < m {
        0
    } else {
        m
    })) by (nonlinear_arith)
        requires
            q == (if x < 0 {
                -1int
            } else if x < m {
                0
            } else {
                1
            }),
    ;
    vstd::arithmetic::div_mod::lemma_fundamental_div_mod_converse(x, m, q, x - q * m);
}

proof fn lemma_effective_addr(base: usize, index: usize, scale: usize, disp: isize)
    ensures
        base.wrapping_add(index.wrapping_mul(scale)).wrapping_add_signed(disp) == effective_addr(
            base,
            index,
            scale as int,
            disp as int,
        ),
{
    let m = usize::MAX + 1;
    let product = index * scale;
    assert(product >= 0) by (nonlinear_arith)
        requires
            product == index * scale,
    ;
    let p = index.wrapping_mul(scale);
    let s = base.wrapping_add(p);
    assert(p as int == product % m);
    lemma_wrap(base + p, m);
    lemma_wrap(s + disp, m);
    vstd::arithmetic::div_mod::lemma_add_mod_noop_right(base as int, product, m);
    assert(s as int == (base + product) % m);
    vstd::arithmetic::div_mod::lemma_add_mod_noop_right(disp as int, base + product, m);
    assert((s + disp) % m == (base + product + disp) % m);
}

/// Makes the accesses of a memory operand out of the values of its registers.
pub fn mem_events(op: &X86MemOperand, base: Option<usize>, index: Option<usize>) -> (events: Option<
    Vec<AccessEvent>,
>)
    ensures
        same_events(events, operand_events(Operand::X86Mem(*op), base, index)),
{
    let base_addr: usize = match base {
        Some(addr) => addr,
        None => return None,
    };
    // This isn't present on all instructions.
    let idx_val: usize = match index {
        Some(val) => val,
        None => 0,
    };
    if op.scale < 0 || op.disp < isize::MIN as i64 || op.disp > isize::MAX as i64 {
        return None;
    }
    let access: AccessType = match op.access {
        Some(access) => access,
        None => return None,
    };
    let scale: usize = op.scale as usize;
    let disp: isize = op.disp as isize;
    let addr: usize = base_addr.wrapping_add(idx_val.wrapping_mul(scale)).wrapping_add_signed(disp);
    proof {
        lemma_effective_addr(base_addr, idx_val, scale, disp);
    }
    let range = AccessRange { addr, size: op.size as usize };
    let mut events: Vec<AccessEvent> = Vec::new();
    if access.readable {
        events.push(AccessEvent::Read(range));
    }
    if access.writable {
        events.push(AccessEvent::Write(range, !access.readable));
    }
    assert(events@ =~= typed_events(range, access));
    Some(events)
}

/// The accesses that an operand stands for when the registers hold these values; `None`
/// if they cannot be told.
pub fn capstone_find_events<R: NamedRegs>(disasm: &Disassembler, op: &Operand, regs: &R) -> (events:
    Option<Vec<AccessEvent>>)
    ensures
        same_events(events, find_events(disasm.arch(), *op, *regs)),
{
    match op {
        Operand::X86Mem(m) => {
            let base_name = reg_name(disasm, m.base);
            let index_name = reg_name(disasm, m.index);
            let base: Option<usize> = regs.val_of(base_name.as_ref());
            let index: Option<usize> = regs.val_of(index_name.as_ref());
            mem_events(m, base, index)
        },
        Operand::NonMem => Some(Vec::new()),
        _ => None,
    }
}

/// Extracts the accesses from the instruction at the start of `instr`. It is an error
/// for the disassembler to fail, and `Ok(None)` means that there is no instruction, or
/// one of which the accesses cannot be told.
pub fn capstone_disassemble<R: NamedRegs>(
    instr: &Vec<u8>,
    disasm: &Disassembler,
    regs: &R,
) -> (found: Found)
    ensures
        match found {
            Ok(events) => same_events(events, disassembly(disasm.arch(), instr@, *regs)),
            Err(e) => e == (DisasmError { arch: disasm.arch() }),
        },
{
    decoded_events(instr_operands(disasm, instr), disasm, regs)
}

/// The accesses of an instruction, given what came of decoding it.
pub fn decoded_events<R: NamedRegs>(
    found: Result<Option<Vec<Operand>>, DisasmError>,
    disasm: &Disassembler,
    regs: &R,
) -> (r: Found)
    ensures
        match found {
            Ok(Some(ops)) => r matches Ok(events) && same_events(
                events,
                all_events(disasm.arch(), ops@, *regs),
            ),
            Ok(None) => r == Ok::<Option<Vec<AccessEvent>>, DisasmError>(None),
            Err(e) => r == Err::<Option<Vec<AccessEvent>>, DisasmError>(e),
        },
{
    match found {
        Ok(Some(ops)) => Ok(operands_events(disasm, &ops, regs)),
        Ok(None) => Ok(None),
        Err(e) => Err(e),
    }
}

/// The accesses of all of the operands, in order, if each can be told.
pub fn operands_events<R: NamedRegs>(
    disasm: &Disassembler,
    ops: &Vec<Operand>,
    regs: &R,
) -> (events: Option<Vec<AccessEvent>>)
    ensures
        same_events(events, all_events(disasm.arch(), ops@, *regs)),
{
    let mut events: Vec<AccessEvent> = Vec::new();
    let mut i: usize = 0;
    while i < ops.len()
        invariant
            i <= ops@.len(),
            all_events(disasm.arch(), ops@.take(i as int), *regs) == Some(events@),
        decreases ops@.len() - i,
    {
        assert(ops@.take(i + 1).drop_last() =~= ops@.take(i as int));
        match capstone_find_events(disasm, &ops[i], regs) {
            Some(mut more) => {
                events.append(&mut more);
            },
            None => {
                proof {
                    lemma_untellable(disasm.arch(), ops@, i + 1, *regs);
                }
                return None;
            },
        }
        i = i + 1;
    }
    assert(ops@.take(i as int) =~= ops@);
    Some(events)
}

proof fn lemma_untellable<R: NamedRegs>(arch: Arch, ops: Seq<Operand>, n: int, regs: R)
    requires
        0 <= n <= ops.len(),
        all_events(arch, ops.take(n), regs) is None,
    ensures
        all_events(arch, ops, regs) is None,
    decreases ops.len() - n,
{
    if n == ops.len() {
        assert(ops.take(n) =~= ops);
    } else {
        assert(ops.take(n + 1).drop_last() =~= ops.take(n));
        lemma_untellable(arch, ops, n + 1, regs);
    }
}

/// An operand that is only written to is certain to have been written, one that is also
/// read is not. Every access is at the same place, and each read stands before each
/// write.
pub proof fn law_reads_go_first(op: Operand, base: Option<usize>, index: Option<usize>)
    requires
        operand_events(op, base, index) is Some,
    ensures
        ({
            let events = operand_events(op, base, index)->0;
            &&& events.len() <= 2
            &&& forall|i: int, j: int|
                0 <= i < j < events.len() ==> #[trigger] events[i] is Read && #[trigger] events[j]
                    is Write && events[i].range() == events[j].range()
            &&& forall|i: int|
                0 <= i < events.len() ==> (#[trigger] events[i] matches AccessEvent::Write(_, certain)
                    ==> (certain <==> events.len() == 1))
        }),
{
}

/// The accesses of an instruction are those of its operands, one operand after the other,
/// and none is left out: those of two runs of operands are those of the first, followed by
/// those of the second. They cannot be told if those of either run cannot.
pub proof fn law_every_operand_counts<R: NamedRegs>(
    arch: Arch,
    a: Seq<Operand>,
    b: Seq<Operand>,
    regs: R,
)
    ensures
        all_events(arch, a + b, regs) == (match (
            all_events(arch, a, regs),
            all_events(arch, b, regs),
        ) {
            (Some(first), Some(then)) => Some(first + then),
            _ => None,
        }),
    decreases b.len(),
{
    if b.len() == 0 {
        assert(a + b =~= a);
        if let Some(first) = all_events(arch, a, regs) {
            assert(first + Seq::<AccessEvent>::empty() =~= first);
        }
    } else {
        assert((a + b).drop_last() =~= a + b.drop_last());
        assert((a + b).last() == b.last());
        law_every_operand_counts(arch, a, b.drop_last(), regs);
        if let (Some(first), Some(most), Some(last)) = (
            all_events(arch, a, regs),
            all_events(arch, b.drop_last(), regs),
            find_events(arch, b.last(), regs),
        ) {
            assert((first + most) + last =~= first + (most + last));
        }
    }
}

/// The accesses of an instruction with a single operand are those of that operand. One with
/// none has none.
pub proof fn law_single_operand<R: NamedRegs>(arch: Arch, op: Operand, regs: R)
    ensures
        all_events(arch, seq![op], regs) == find_events(arch, op, regs),
        all_events(arch, seq![], regs) == Some(Seq::<AccessEvent>::empty()),
{
    assert(seq![op].drop_last() =~= seq![]);
    reveal_with_fuel(all_events, 2);
    if let Some(events) = find_events(arch, op, regs) {
        assert(Seq::<AccessEvent>::empty() + events =~= events);
    }
}

/// How many accesses some operands make on their own.
pub open spec fn count_alone<R: NamedRegs>(arch: Arch, ops: Seq<Operand>, regs: R) -> int
    decreases ops.len(),
{
    if ops.len() == 0 {
        0
    } else {
        count_alone(arch, ops.drop_last(), regs) + find_events(arch, ops.last(), regs)->0.len()
    }
}

/// An instruction makes as many accesses as its operands do on their own, and each access of
/// each operand is among them.
pub proof fn law_no_operand_is_dropped<R: NamedRegs>(
    arch: Arch,
    ops: Seq<Operand>,
    regs: R,
    i: int,
    k: int,
)
    requires
        all_events(arch, ops, regs) is Some,
        0 <= i < ops.len(),
    ensures
        all_events(arch, ops, regs)->0.len() == count_alone(arch, ops, regs),
        find_events(arch, ops[i], regs) is Some,
        0 <= k < find_events(arch, ops[i], regs)->0.len() ==> all_events(
            arch,
            ops,
            regs,
        )->0.contains(find_events(arch, ops[i], regs)->0[k]),
    decreases ops.len(),
{
    let most = ops.drop_last();
    let before = all_events(arch, most, regs)->0;
    let last = find_events(arch, ops.last(), regs)->0;
    if most.len() > 0 {
        let j = if i < most.len() {
            i
        } else {
            0
        };
        law_no_operand_is_dropped(arch, most, regs, j, k);
    }
    reveal_with_fuel(all_events, 2);
    reveal_with_fuel(count_alone, 2);
    let here = find_events(arch, ops[i], regs)->0;
    if 0 <= k < here.len() {
        if i < most.len() {
            assert(most[i] == ops[i]);
            let n = choose|n: int| 0 <= n < before.len() && before[n] == here[k];
            assert((before + last)[n] == here[k]);
        } else {
            assert((before + last)[before.len() + k] == here[k]);
        }
    }
}

/// A memory operand of x86 stands for the address that its registers, its scale and its
/// displacement add up to, as far as that fits a word, and for as many bytes as the
/// disassembler gives for it. It is a read if it is readable, a write if it is writable,
/// and nothing else.
pub proof fn law_memory_operand<R: NamedRegs>(
    arch: Arch,
    m: X86MemOperand,
    regs: R,
    base_name: Seq<char>,
    base: usize,
    index: Option<usize>,
    access: AccessType,
    event: AccessEvent,
)
    requires
        crate::disasm::register_name(arch, m.base) == Some(base_name),
        regs.value_named(base_name) == Some(base),
        index == (match crate::disasm::register_name(arch, m.index) {
            Some(name) => regs.value_named(name),
            None => None,
        }),
        m.scale >= 0,
        isize::MIN <= m.disp <= isize::MAX,
        m.access == Some(access),
    ensures
        find_events(arch, Operand::X86Mem(m), regs) matches Some(events) && {
            &&& events.len() == (if access.readable {
                1int
            } else {
                0
            }) + (if access.writable {
                1int
            } else {
                0
            })
            &&& events.contains(event) ==> {
                let (range, may) = match event {
                    AccessEvent::Read(range) => (range, access.readable),
                    AccessEvent::Write(range, certain) => (
                        range,
                        access.writable && certain == !access.readable,
                    ),
                };
                &&& may
                &&& range.size == m.size
                &&& exists|turns: int|
                    range.addr + #[trigger] (turns * (usize::MAX + 1)) == base + (match index {
                        Some(val) => val * m.scale,
                        None => 0,
                    }) + m.disp
            }
            &&& access.readable ==> events[0] is Read
            &&& access.writable ==> events.last() is Write
        },
{
    let events = find_events(arch, Operand::X86Mem(m), regs)->0;
    let val: usize = match index {
        Some(val) => val,
        None => 0,
    };
    let total = base + val * m.scale + m.disp;
    let modulus = usize::MAX + 1;
    let turns = total / modulus;
    vstd::arithmetic::div_mod::lemma_fundamental_div_mod(total, modulus);
    vstd::arithmetic::mul::lemma_mul_is_commutative(turns, modulus);
    assert(0 * m.scale == 0);
    if events.contains(event) {
        let range = event.range();
        assert(range.addr == total % modulus);
        assert(range.addr + turns * modulus == total);
    }
}

/// The accesses of an operand cannot be told exactly if it is one of another processor, or
/// one of memory whose base register is not known, whose scale is negative, whose
/// displacement does not fit a word, or of which it is not known how it is accessed. Other
/// operands than memory make none.
pub proof fn law_when_operands_tell<R: NamedRegs>(arch: Arch, op: Operand, regs: R)
    ensures
        find_events(arch, op, regs) is Some <==> match op {
            Operand::X86Mem(m) => {
                &&& crate::disasm::register_name(arch, m.base) matches Some(name)
                    && regs.value_named(name) is Some
                &&& m.scale >= 0
                &&& isize::MIN <= m.disp <= isize::MAX
                &&& m.access is Some
            },
            Operand::NonMem => true,
            _ => false,
        },
        op is NonMem ==> find_events(arch, op, regs)->0.len() == 0,
{
}

/// What is found in the bytes of an instruction is what all of the operands that Capstone
/// finds there come to.
pub proof fn law_instruction_tells<R: NamedRegs>(
    arch: Arch,
    code: Seq<u8>,
    regs: R,
    ops: Seq<Operand>,
)
    ensures
        crate::disasm::decoded(arch, code, 0x1000, 1) == Some(ops) ==> disassembly(arch, code, regs)
            == all_events(arch, ops, regs),
        crate::disasm::decoded(arch, code, 0x1000, 1) is None ==> disassembly(
            arch,
            code,
            regs,
        ) is None,
{
}

/// Events that were found are the ones there are to find, and if none were found there are none
/// to tell.
pub proof fn law_events_are_those(found: Option<Vec<AccessEvent>>, events: Option<Seq<AccessEvent>>)
    ensures
        same_events(found, events) ==> match events {
            Some(seen) => found matches Some(list) && list@ == seen,
            None => found is None,
        },
{
}

} // verus!
