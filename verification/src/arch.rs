//! Facts about the processors that a supervisor can run on.
use vstd::prelude::*;

verus! {

/// Opcode of the instruction that raises a breakpoint trap on x86.
pub const BREAKPT_INSTR: usize = 0xCC;

/// The size of the breakpoint instruction on x86, in bytes.
pub const BREAKPT_INSTR_SIZE: usize = 1;

/// The most bytes that one x86 access can touch, if nothing bigger than AVX-512
/// is available.
pub const ARCH_MAX_ACCESS_SIZE: usize = 64;

/// The word size of x86-64, in bytes. The memory of the child is read and
/// written in chunks of this size.
pub const ARCH_WORD_SIZE: usize = 8;

/// The longest x86 instruction, in bytes.
pub const ARCH_MAX_INSTR_SIZE: usize = 15;

/// The architectures whose instructions can be judged.
#[derive(Debug, Clone, Copy, PartialEq, Eq, Structural)]
pub enum Arch {
    X86,
    X86_64,
    Arm,
    Aarch64,
    RiscV32,
    RiscV64,
}

impl Arch {
    /// Whether a word of this architecture has 64 bits.
    pub open spec fn is_64_bit(self) -> bool {
        self is X86_64 || self is Aarch64 || self is RiscV64
    }

    /// The default word size, in bytes.
    pub fn word_size(self) -> (size: usize)
        ensures
            size == (if self.is_64_bit() { 8int } else { 4 }),
    {
        match self {
            Arch::X86 | Arch::Arm | Arch::RiscV32 => 4,
            Arch::X86_64 | Arch::Aarch64 | Arch::RiscV64 => 8,
        }
    }

    /// The most bytes that a single access can touch.
    pub open spec fn access_limit(self) -> usize {
        if self is X86 || self is X86_64 {
            64
        } else {
            16
        }
    }

    /// The most bytes that a single access can touch.
    pub fn max_access_size(self) -> (size: usize)
        ensures
            size == self.access_limit(),
    {
        match self {
            Arch::X86 | Arch::X86_64 => ARCH_MAX_ACCESS_SIZE,
            Arch::Arm | Arch::Aarch64 | Arch::RiscV32 | Arch::RiscV64 => 16,
        }
    }

    /// The opcode of the breakpoint instruction and its size in bytes, where one
    /// is known.
    pub fn breakpt_instr(self) -> (instr: Option<(usize, usize)>)
        ensures
            instr == (match self {
                Arch::X86 | Arch::X86_64 => Some((BREAKPT_INSTR, BREAKPT_INSTR_SIZE)),
                Arch::Arm | Arch::Aarch64 => Some((0xD420usize, 4usize)),
                Arch::RiscV32 | Arch::RiscV64 => None,
            }),
    {
        match self {
            Arch::X86 | Arch::X86_64 => Some((BREAKPT_INSTR, BREAKPT_INSTR_SIZE)),
            Arch::Arm | Arch::Aarch64 => Some((0xD420, 4)),
            Arch::RiscV32 | Arch::RiscV64 => None,
        }
    }
}

/// What the architectures differ in: three have words of eight bytes, the others of four. An
/// access touches 64 bytes at most on x86, and 16 elsewhere.
pub proof fn law_sizes(arch: Arch)
    ensures
        arch.is_64_bit() <==> arch == Arch::X86_64 || arch == Arch::Aarch64 || arch
            == Arch::RiscV64,
        arch.access_limit() == (if arch == Arch::X86 || arch == Arch::X86_64 {
            64int
        } else {
            16
        }),
        BREAKPT_INSTR == 0xCC,
        BREAKPT_INSTR_SIZE == 1,
        ARCH_MAX_ACCESS_SIZE == 64,
        ARCH_WORD_SIZE == 8,
        ARCH_MAX_INSTR_SIZE == 15,
{
}

} // verus!
