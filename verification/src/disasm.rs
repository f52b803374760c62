//! Machine instructions, as far as their memory accesses go.
//!
//! Decoding itself is left to Capstone.
use capstone::arch::arm::ArmOperandType;
use capstone::arch::arm64::Arm64OperandType;
use capstone::arch::riscv::RiscVOperand;
use capstone::arch::x86::X86OperandType;
use capstone::arch::{ArchOperand, BuildsCapstone};
use vstd::prelude::*;

use crate::arch::Arch;

verus! {

/// How an operand is accessed.
#[derive(Debug, Clone, Copy, PartialEq, Eq, Structural)]
pub struct AccessType {
    pub readable: bool,
    pub writable: bool,
}

/// A memory operand of an x86 instruction. The address that it stands for is
/// `base + index * scale + disp`.
#[derive(Debug, Clone, Copy, PartialEq, Eq, Structural)]
pub struct X86MemOperand {
    /// The number of the base register.
    pub base: u16,
    /// The number of the index register.
    pub index: u16,
    pub scale: i32,
    pub disp: i64,
    /// How many bytes are accessed.
    pub size: u8,
    /// How they are accessed, if that is known.
    pub access: Option<AccessType>,
}

/// The vector arrangement of an AArch64 operand: how many lanes of which width,
/// where `B`, `H`, `S`, `D` and `Q` stand for 1, 2, 4, 8 and 16 bytes.
#[derive(Debug, Clone, Copy, PartialEq, Eq, Structural)]
pub enum Arm64Vas {
    /// Not a floating-point or vector instruction.
    Invalid,
    B16,
    B8,
    B4,
    B1,
    H8,
    H4,
    H2,
    H1,
    S4,
    S2,
    S1,
    D2,
    D1,
    Q1,
}

impl Arm64Vas {
    /// The arrangement that Capstone has this number for.
    pub open spec fn numbered(number: u32) -> Option<Arm64Vas> {
        match number {
            0 => Some(Arm64Vas::Invalid),
            1 => Some(Arm64Vas::B16),
            2 => Some(Arm64Vas::B8),
            3 => Some(Arm64Vas::B4),
            4 => Some(Arm64Vas::B1),
            5 => Some(Arm64Vas::H8),
            6 => Some(Arm64Vas::H4),
            7 => Some(Arm64Vas::H2),
            8 => Some(Arm64Vas::H1),
            9 => Some(Arm64Vas::S4),
            10 => Some(Arm64Vas::S2),
            11 => Some(Arm64Vas::S1),
            12 => Some(Arm64Vas::D2),
            13 => Some(Arm64Vas::D1),
            14 => Some(Arm64Vas::Q1),
            _ => None,
        }
    }

    /// The arrangement that Capstone has this number for, if it has one.
    pub fn from_number(number: u32) -> (vas: Option<Arm64Vas>)
        ensures
            vas == Arm64Vas::numbered(number),
    {
        match number {
            0 => Some(Arm64Vas::Invalid),
            1 => Some(Arm64Vas::B16),
            2 => Some(Arm64Vas::B8),
            3 => Some(Arm64Vas::B4),
            4 => Some(Arm64Vas::B1),
            5 => Some(Arm64Vas::H8),
            6 => Some(Arm64Vas::H4),
            7 => Some(Arm64Vas::H2),
            8 => Some(Arm64Vas::H1),
            9 => Some(Arm64Vas::S4),
            10 => Some(Arm64Vas::S2),
            11 => Some(Arm64Vas::S1),
            12 => Some(Arm64Vas::D2),
            13 => Some(Arm64Vas::D1),
            14 => Some(Arm64Vas::Q1),
            _ => None,
        }
    }
}

/// An operand of an instruction.
#[derive(Debug, Clone, Copy, PartialEq, Eq, Structural)]
pub enum Operand {
    /// A memory operand on x86.
    X86Mem(X86MemOperand),
    /// A memory operand on AArch64, with the number of its vector arrangement.
    Arm64Mem(u32),
    /// A memory operand on 32-bit Arm, of a vector instruction or not.
    ArmMem { vector: bool, access: Option<AccessType> },
    /// A memory operand on RISC-V.
    RiscVMem,
    /// A register or an immediate.
    NonMem,
    /// An operand of another processor than the instruction is for.
    Unsupported,
}

/// The disassembler for this architecture could not do its work.
#[derive(Debug, Clone, Copy, PartialEq, Eq, Structural)]
pub struct DisasmError {
    pub arch: Arch,
}

#[verifier::external_type_specification]
#[verifier::external_body]
pub struct ExCapstone(capstone::Capstone);

#[verifier::external_type_specification]
#[verifier::external_body]
pub struct ExCapstoneError(capstone::Error);

/// A disassembler for the instructions of one architecture. Each is made by
/// `get_disasm`, and set up once and for all by it.
pub struct Disassembler {
    cs: capstone::Capstone,
    arch: Arch,
}

impl Disassembler {
    /// The architecture whose instructions it decodes.
    pub closed spec fn arch(self) -> Arch {
        self.arch
    }

    /// The architecture whose instructions it decodes.
    pub fn architecture(&self) -> (arch: Arch)
        ensures
            arch == self.arch(),
    {
        self.arch
    }
}

/// Builds a Capstone engine for 32-bit x86 that also reports the operands of instructions,
/// with `capstone::Capstone::new()` and the builder that its `x86` returns. That the
/// disassembler is one for 32-bit x86 is all that is claimed of it. An error comes back
/// where the engine has no memory, so no claim is made of when there is a disassembler.
#[verifier::external_body]
fn build_x86() -> (disasm: Result<Disassembler, capstone::Error>)
    ensures
        disasm matches Ok(d) ==> d.arch() == Arch::X86,
{
    let mode = capstone::arch::x86::ArchMode::Mode32;
    let cs = capstone::Capstone::new().x86().mode(mode).detail(true).build()?;
    Ok(Disassembler { cs, arch: Arch::X86 })
}

/// Builds a Capstone engine for 64-bit x86 that also reports the operands of instructions,
/// with `capstone::Capstone::new()` and the builder that its `x86` returns. That the
/// disassembler is one for 64-bit x86 is all that is claimed of it. An error comes back
/// where the engine has no memory, so no claim is made of when there is a disassembler.
#[verifier::external_body]
fn build_x86_64() -> (disasm: Result<Disassembler, capstone::Error>)
    ensures
        disasm matches Ok(d) ==> d.arch() == Arch::X86_64,
{
    let mode = capstone::arch::x86::ArchMode::Mode64;
    let cs = capstone::Capstone::new().x86().mode(mode).detail(true).build()?;
    Ok(Disassembler { cs, arch: Arch::X86_64 })
}

/// Builds a Capstone engine for 32-bit Arm that also reports the operands of instructions,
/// with `capstone::Capstone::new()` and the builder that its `arm` returns. That the
/// disassembler is one for 32-bit Arm is all that is claimed of it. An error comes back
/// where the engine has no memory, so no claim is made of when there is a disassembler.
#[verifier::external_body]
fn build_arm() -> (disasm: Result<Disassembler, capstone::Error>)
    ensures
        disasm matches Ok(d) ==> d.arch() == Arch::Arm,
{
    let mode = capstone::arch::arm::ArchMode::Arm;
    let cs = capstone::Capstone::new().arm().mode(mode).detail(true).build()?;
    Ok(Disassembler { cs, arch: Arch::Arm })
}

/// Builds a Capstone engine for AArch64 that also reports the operands of instructions,
/// with `capstone::Capstone::new()` and the builder that its `arm64` returns. That the
/// disassembler is one for AArch64 is all that is claimed of it. An error comes back
/// where the engine has no memory, so no claim is made of when there is a disassembler.
#[verifier::external_body]
fn build_arm64() -> (disasm: Result<Disassembler, capstone::Error>)
    ensures
        disasm matches Ok(d) ==> d.arch() == Arch::Aarch64,
{
    let mode = capstone::arch::arm64::ArchMode::Arm;
    let cs = capstone::Capstone::new().arm64().mode(mode).detail(true).build()?;
    Ok(Disassembler { cs, arch: Arch::Aarch64 })
}

/// Builds a Capstone engine for 32-bit RISC-V that also reports the operands of
/// instructions, with `capstone::Capstone::new()` and the builder that its `riscv` returns.
/// That the disassembler is one for 32-bit RISC-V is all that is claimed of it. An error
/// comes back where the engine has no memory, so no claim is made of when there is a
/// disassembler.
#[verifier::external_body]
fn build_riscv32() -> (disasm: Result<Disassembler, capstone::Error>)
    ensures
        disasm matches Ok(d) ==> d.arch() == Arch::RiscV32,
{
    let mode = capstone::arch::riscv::ArchMode::RiscV32;
    let cs = capstone::Capstone::new().riscv().mode(mode).detail(true).build()?;
    Ok(Disassembler { cs, arch: Arch::RiscV32 })
}

/// Builds a Capstone engine for 64-bit RISC-V that also reports the operands of
/// instructions, with `capstone::Capstone::new()` and the builder that its `riscv` returns.
/// That the disassembler is one for 64-bit RISC-V is all that is claimed of it. An error
/// comes back where the engine has no memory, so no claim is made of when there is a
/// disassembler.
#[verifier::external_body]
fn build_riscv64() -> (disasm: Result<Disassembler, capstone::Error>)
    ensures
        disasm matches Ok(d) ==> d.arch() == Arch::RiscV64,
{
    let mode = capstone::arch::riscv::ArchMode::RiscV64;
    let cs = capstone::Capstone::new().riscv().mode(mode).detail(true).build()?;
    Ok(Disassembler { cs, arch: Arch::RiscV64 })
}

/// Spawns a disassembler for this architecture. It fails only where the engine does.
pub fn get_disasm(arch: Arch) -> (disasm: Result<Disassembler, DisasmError>)
    ensures
        match disasm {
            Ok(d) => d.arch() == arch,
            Err(e) => e == (DisasmError { arch }),
        },
{
    let engine = match arch {
        Arch::X86 => build_x86(),
        Arch::X86_64 => build_x86_64(),
        Arch::Arm => build_arm(),
        Arch::Aarch64 => build_arm64(),
        Arch::RiscV32 => build_riscv32(),
        Arch::RiscV64 => build_riscv64(),
    };
    settle_engine(arch, engine)
}

/// What an attempt to build an engine for this architecture comes to: the disassembler if
/// there is one, and else an error.
pub fn settle_engine(arch: Arch, engine: Result<Disassembler, capstone::Error>) -> (disasm: Result<
    Disassembler,
    DisasmError,
>)
    ensures
        disasm == (match engine {
            Ok(d) => Ok(d),
            Err(_) => Err(DisasmError { arch }),
        }),
{
    match engine {
        Ok(d) => Ok(d),
        Err(_) => Err(DisasmError { arch }),
    }
}

/// The operands of the first instruction that Capstone finds when it decodes up to
/// `count` instructions of this architecture at the start of `code`, as if they stood at
/// `addr`; `None` where it finds no instruction.
pub uninterp spec fn decoded(arch: Arch, code: Seq<u8>, addr: u64, count: usize) -> Option<
    Seq<Operand>,
>;

/// The name that Capstone has for a register of this architecture.
pub uninterp spec fn register_name(arch: Arch, reg: u16) -> Option<Seq<char>>;

/// Whether the operands that came back without an error are those given.
pub open spec fn same_operands(
    ops: Result<Option<Vec<Operand>>, capstone::Error>,
    expected: Option<Seq<Operand>>,
) -> bool {
    ops matches Ok(found) ==> expected == (match found {
        Some(v) => Some(v@),
        None => None,
    })
}

/// Calls `Capstone::disasm_count`, `Capstone::insn_detail` on the first instruction
/// found, and `ArchDetail::operands` on its detail, and hands each operand out as a
/// plain value, on x86. What comes back without an error is claimed to be determined by
/// the architecture and the arguments. No claim is made of when an error comes back: the
/// engine reports one when it has no memory left, and `insn_detail` reports one for an
/// instruction to which the engine gave no number.
#[verifier::external_body]
fn x86_operands(disasm: &Disassembler, code: &[u8], addr: u64, count: usize) -> (ops: Result<
    Option<Vec<Operand>>,
    capstone::Error,
>)
    requires
        disasm.arch() is X86 || disasm.arch() is X86_64,
    ensures
        same_operands(ops, decoded(disasm.arch(), code@, addr, count)),
{
    let insns = disasm.cs.disasm_count(code, addr, count)?;
    let details = insns.first().map(|insn| disasm.cs.insn_detail(insn)).transpose()?;
    Ok(details.map(|d| d.arch_detail().operands().iter().map(|op| match op {
        ArchOperand::X86Operand(x) => match x.op_type {
            X86OperandType::Mem(m) => Operand::X86Mem(X86MemOperand {
                base: m.base().0, index: m.index().0, scale: m.scale(), disp: m.disp(), size: x.size,
                access: x.access.map(|a| AccessType { readable: a.is_readable(), writable: a.is_writable() }),
            }),
            _ => Operand::NonMem,
        },
        _ => Operand::Unsupported,
    }).collect()))
}

/// Makes the same calls as `x86_operands`, with the same claims, on AArch64. The vector
/// arrangement of an operand is handed out by its number.
#[verifier::external_body]
fn arm64_operands(disasm: &Disassembler, code: &[u8], addr: u64, count: usize) -> (ops: Result<
    Option<Vec<Operand>>,
    capstone::Error,
>)
    requires
        disasm.arch() is Aarch64,
    ensures
        same_operands(ops, decoded(disasm.arch(), code@, addr, count)),
{
    let insns = disasm.cs.disasm_count(code, addr, count)?;
    let details = insns.first().map(|insn| disasm.cs.insn_detail(insn)).transpose()?;
    Ok(details.map(|d| d.arch_detail().operands().iter().map(|op| match op {
        ArchOperand::Arm64Operand(a) => match a.op_type {
            Arm64OperandType::Mem(_) => Operand::Arm64Mem(a.vas as u32),
            _ => Operand::NonMem,
        },
        _ => Operand::Unsupported,
    }).collect()))
}

/// Makes the same calls as `x86_operands`, with the same claims, on 32-bit Arm. An operand
/// counts as one of a vector instruction if it has a vector index.
#[verifier::external_body]
fn arm_operands(disasm: &Disassembler, code: &[u8], addr: u64, count: usize) -> (ops: Result<
    Option<Vec<Operand>>,
    capstone::Error,
>)
    requires
        disasm.arch() is Arm,
    ensures
        same_operands(ops, decoded(disasm.arch(), code@, addr, count)),
{
    let insns = disasm.cs.disasm_count(code, addr, count)?;
    let details = insns.first().map(|insn| disasm.cs.insn_detail(insn)).transpose()?;
    Ok(details.map(|d| d.arch_detail().operands().iter().map(|op| match op {
        ArchOperand::ArmOperand(a) => match a.op_type {
            ArmOperandType::Mem(_) => Operand::ArmMem {
                vector: a.vector_index.is_some(),
                access: a.access.map(|t| AccessType { readable: t.is_readable(), writable: t.is_writable() }),
            },
            _ => Operand::NonMem,
        },
        _ => Operand::Unsupported,
    }).collect()))
}

/// Makes the same calls as `x86_operands`, with the same claims, on RISC-V.
#[verifier::external_body]
fn riscv_operands(disasm: &Disassembler, code: &[u8], addr: u64, count: usize) -> (ops: Result<
    Option<Vec<Operand>>,
    capstone::Error,
>)
    requires
        disasm.arch() is RiscV32 || disasm.arch() is RiscV64,
    ensures
        same_operands(ops, decoded(disasm.arch(), code@, addr, count)),
{
    let insns = disasm.cs.disasm_count(code, addr, count)?;
    let details = insns.first().map(|insn| disasm.cs.insn_detail(insn)).transpose()?;
    Ok(details.map(|d| d.arch_detail().operands().iter().map(|op| match op {
        ArchOperand::RiscVOperand(r) => match r {
            RiscVOperand::Mem(_) => Operand::RiscVMem,
            _ => Operand::NonMem,
        },
        _ => Operand::Unsupported,
    }).collect()))
}

/// Calls `Capstone::reg_name`. The name is claimed to be determined by the architecture and
/// the number of the register.
#[verifier::external_body]
pub(crate) fn reg_name(disasm: &Disassembler, reg: u16) -> (name: Option<String>)
    ensures
        register_name(disasm.arch(), reg) == (match name {
            Some(s) => Some(s@),
            None => None,
        }),
{
    disasm.cs.reg_name(capstone::RegId(reg))
}

/// The outcome of decoding an instruction, with its operands as a sequence.
pub open spec fn outcome(found: Result<Option<Vec<Operand>>, DisasmError>) -> Result<
    Option<Seq<Operand>>,
    DisasmError,
> {
    match found {
        Ok(Some(ops)) => Ok(Some(ops@)),
        Ok(None) => Ok(None),
        Err(e) => Err(e),
    }
}

/// The base address that code is disassembled at. The operands looked at here do
/// not depend on it.
pub const DISASM_ADDR: u64 = 0x1000;

/// Decodes the instruction at the start of `code`: `Ok(None)` means that no
/// instruction starts there.
pub fn instr_operands(disasm: &Disassembler, code: &Vec<u8>) -> (ops: Result<
    Option<Vec<Operand>>,
    DisasmError,
>)
    ensures
        match ops {
            Ok(_) => outcome(ops) == Ok::<_, DisasmError>(
                decoded(disasm.arch(), code@, DISASM_ADDR, 1),
            ),
            Err(e) => e == (DisasmError { arch: disasm.arch() }),
        },
{
    let code = code.as_slice();
    let found = match disasm.architecture() {
        Arch::X86 | Arch::X86_64 => x86_operands(disasm, code, DISASM_ADDR, 1),
        Arch::Aarch64 => arm64_operands(disasm, code, DISASM_ADDR, 1),
        Arch::Arm => arm_operands(disasm, code, DISASM_ADDR, 1),
        Arch::RiscV32 | Arch::RiscV64 => riscv_operands(disasm, code, DISASM_ADDR, 1),
    };
    settle_operands(disasm.architecture(), found)
}

/// What an attempt to decode an instruction of this architecture comes to: operands that
/// were found, or that there is no instruction, stay as they are, and every error of the
/// engine is the same error here.
pub fn settle_operands(
    arch: Arch,
    found: Result<Option<Vec<Operand>>, capstone::Error>,
) -> (ops: Result<Option<Vec<Operand>>, DisasmError>)
    ensures
        ops == (match found {
            Ok(found) => Ok(found),
            Err(_) => Err(DisasmError { arch }),
        }),
{
    match found {
        Ok(found) => Ok(found),
        Err(_) => Err(DisasmError { arch }),
    }
}

/// The outcome of decoding an instruction keeps what came of it, and every operand in its place.
pub proof fn law_outcome(ops: Vec<Operand>, e: DisasmError)
    ensures
        outcome(Ok(Some(ops))) == Ok::<_, DisasmError>(Some(ops@)),
        outcome(Ok(None)) == Ok::<Option<Seq<Operand>>, DisasmError>(None),
        outcome(Err(e)) == Err::<Option<Seq<Operand>>, DisasmError>(e),
{
}

} // verus!
