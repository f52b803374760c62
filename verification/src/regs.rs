//! The general-purpose registers of a stopped thread.
use vstd::prelude::*;

use crate::arch::BREAKPT_INSTR_SIZE;

verus! {

/// Whether the two strings hold the same characters.
pub fn str_eq(a: &str, b: &str) -> (equal: bool)
    ensures
        equal == (a@ == b@),
{
    let len: usize = a.unicode_len();
    if len != b.unicode_len() {
        return false;
    }
    let mut i: usize = 0;
    while i < len
        invariant
            i <= len,
            len == a@.len(),
            len == b@.len(),
            forall|j: int| 0 <= j < i ==> a@[j] == b@[j],
        decreases len - i,
    {
        if a.get_char(i) != b.get_char(i) {
            return false;
        }
        i = i + 1;
    }
    assert(a@ =~= b@);
    true
}

/// The two's complement reading of a register.
pub open spec fn signed(bits: usize) -> int {
    if bits <= isize::MAX {
        bits as int
    } else {
        bits - usize::MAX - 1
    }
}

proof fn lemma_signed_64(x: u64)
    by (bit_vector)
    ensures
        x as i64 == (if x < 0x8000_0000_0000_0000u64 {
            x as int
        } else {
            x - 0x1_0000_0000_0000_0000int
        }),
{
}

proof fn lemma_signed_32(x: u32)
    by (bit_vector)
    ensures
        x as i32 == (if x < 0x8000_0000u32 {
            x as int
        } else {
            x - 0x1_0000_0000int
        }),
{
}

/// Casts a register to a signed word, keeping its bit pattern.
pub fn as_signed(bits: usize) -> (val: isize)
    ensures
        val == signed(bits),
{
    proof {
        lemma_signed_64(bits as u64);
        lemma_signed_32(bits as u32);
        if usize::BITS == 64 {
            assert(bits as isize == (bits as u64) as i64);
        } else {
            assert(bits as isize == (bits as u32) as i32);
        }
    }
    #[verifier::truncate]
    (bits as isize)
}

/// The registers of an x86-64 thread, each as a bit pattern.
#[derive(Debug, Clone, Copy, PartialEq, Eq, Structural)]
pub struct UserRegs {
    pub r15: usize,
    pub r14: usize,
    pub r13: usize,
    pub r12: usize,
    pub rbp: usize,
    pub rbx: usize,
    pub r11: usize,
    pub r10: usize,
    pub r9: usize,
    pub r8: usize,
    pub rax: usize,
    pub rcx: usize,
    pub rdx: usize,
    pub rsi: usize,
    pub rdi: usize,
    pub orig_rax: usize,
    pub rip: usize,
    pub cs: usize,
    pub eflags: usize,
    pub rsp: usize,
    pub ss: usize,
    pub fs_base: usize,
    pub gs_base: usize,
    pub ds: usize,
    pub es: usize,
    pub fs: usize,
    pub gs: usize,
}

/// Registers that can be looked up by name.
pub trait NamedRegs: Sized {
    /// The value of the register with this name, if any.
    spec fn value_named(self, name: Seq<char>) -> Option<usize>;

    /// Gets the value of the register with this name, if any.
    fn val_of(&self, name: Option<&String>) -> (val: Option<usize>)
        ensures
            val == (match name {
                Some(n) => self.value_named(n@),
                None => None,
            }),
    ;
}

impl NamedRegs for UserRegs {
    open spec fn value_named(self, name: Seq<char>) -> Option<usize> {
        self.named(name)
    }

    fn val_of(&self, name: Option<&String>) -> (val: Option<usize>) {
        self.val_of_name(name)
    }
}

impl UserRegs {
    /// The return value of a function call, if one just happened.
    pub fn retval(&self) -> (val: isize)
        ensures
            val == signed(self.rax),
    {
        as_signed(self.rax)
    }

    /// The first argument of the function or system call being entered.
    pub fn arg1(&self) -> (val: usize)
        ensures
            val == self.rdi,
    {
        self.rdi
    }

    /// The second argument of the function or system call being entered.
    pub fn arg2(&self) -> (val: usize)
        ensures
            val == self.rsi,
    {
        self.rsi
    }

    /// The number of the system call being entered or left.
    pub fn syscall_nr(&self) -> (val: isize)
        ensures
            val == signed(self.orig_rax),
    {
        as_signed(self.orig_rax)
    }

    /// The instruction pointer.
    pub fn ip(&self) -> (val: usize)
        ensures
            val == self.rip,
    {
        self.rip
    }

    /// The stack pointer.
    pub fn sp(&self) -> (val: usize)
        ensures
            val == self.rsp,
    {
        self.rsp
    }

    /// Sets the instruction pointer. Code that is jumped into needs a stack of its
    /// own too: see `set_sp`.
    pub fn set_ip(&mut self, ip: usize)
        ensures
            *final(self) == (UserRegs { rip: ip, ..*old(self) }),
    {
        self.rip = ip;
    }

    /// Sets the stack pointer, ideally to a zeroed-out area.
    pub fn set_sp(&mut self, sp: usize)
        ensures
            *final(self) == (UserRegs { rsp: sp, ..*old(self) }),
    {
        self.rsp = sp;
    }

    /// The value of the register that the disassembler calls `name`.
    pub open spec fn named(self, name: Seq<char>) -> Option<usize> {
        if name == "rax"@ {
            Some(self.rax)
        } else if name == "rbp"@ {
            Some(self.rbp)
        } else if name == "rbx"@ {
            Some(self.rbx)
        } else if name == "rcx"@ {
            Some(self.rcx)
        } else if name == "rdi"@ {
            Some(self.rdi)
        } else if name == "rdx"@ {
            Some(self.rdx)
        } else if name == "rip"@ {
            Some(self.rip)
        } else if name == "rsi"@ {
            Some(self.rsi)
        } else if name == "rsp"@ {
            Some(self.rsp)
        } else if name == "r8"@ {
            Some(self.r8)
        } else if name == "r9"@ {
            Some(self.r9)
        } else if name == "r10"@ {
            Some(self.r10)
        } else if name == "r11"@ {
            Some(self.r11)
        } else if name == "r12"@ {
            Some(self.r12)
        } else if name == "r13"@ {
            Some(self.r13)
        } else if name == "r14"@ {
            Some(self.r14)
        } else if name == "r15"@ {
            Some(self.r15)
        } else if name == "ss"@ {
            Some(self.ss)
        } else {
            None
        }
    }

    /// Gets the value of the register with this name, if any.
    pub fn val_of_name(&self, name: Option<&String>) -> (val: Option<usize>)
        ensures
            val == (match name {
                Some(n) => self.named(n@),
                None => None,
            }),
    {
        let name = match name {
            Some(n) => n.as_str(),
            None => return None,
        };
        if str_eq(name, "rax") {
            Some(self.rax)
        } else if str_eq(name, "rbp") {
            Some(self.rbp)
        } else if str_eq(name, "rbx") {
            Some(self.rbx)
        } else if str_eq(name, "rcx") {
            Some(self.rcx)
        } else if str_eq(name, "rdi") {
            Some(self.rdi)
        } else if str_eq(name, "rdx") {
            Some(self.rdx)
        } else if str_eq(name, "rip") {
            Some(self.rip)
        } else if str_eq(name, "rsi") {
            Some(self.rsi)
        } else if str_eq(name, "rsp") {
            Some(self.rsp)
        } else if str_eq(name, "r8") {
            Some(self.r8)
        } else if str_eq(name, "r9") {
            Some(self.r9)
        } else if str_eq(name, "r10") {
            Some(self.r10)
        } else if str_eq(name, "r11") {
            Some(self.r11)
        } else if str_eq(name, "r12") {
            Some(self.r12)
        } else if str_eq(name, "r13") {
            Some(self.r13)
        } else if str_eq(name, "r14") {
            Some(self.r14)
        } else if str_eq(name, "r15") {
            Some(self.r15)
        } else if str_eq(name, "ss") {
            Some(self.ss)
        } else {
            None
        }
    }
}

/// The registers with the instruction pointer moved back before the breakpoint that
/// was just executed.
pub open spec fn before_breakpoint(regs: UserRegs) -> UserRegs {
    UserRegs { rip: (regs.rip - BREAKPT_INSTR_SIZE) as usize, ..regs }
}

/// A register read as a signed word differs from its bits by a whole turn or not at all, and
/// fits a signed word.
pub proof fn law_signed(bits: usize)
    ensures
        isize::MIN <= signed(bits) <= isize::MAX,
        signed(bits) == bits || signed(bits) == bits - (usize::MAX + 1),
        signed(bits) < 0 <==> bits > isize::MAX,
{
}

/// Moving back before a breakpoint changes the instruction pointer by the one byte that the
/// breakpoint has, and no other register.
pub proof fn law_before_breakpoint(regs: UserRegs)
    requires
        regs.rip >= 1,
    ensures
        before_breakpoint(regs).rip == regs.rip - 1,
        before_breakpoint(regs) == (UserRegs { rip: before_breakpoint(regs).rip, ..regs }),
{
}

/// Each register is found under its own name.
pub proof fn law_registers_by_name(r: UserRegs)
    ensures
        r.named("rax"@) == Some(r.rax),
        r.named("rbp"@) == Some(r.rbp),
        r.named("rbx"@) == Some(r.rbx),
        r.named("rcx"@) == Some(r.rcx),
        r.named("rdi"@) == Some(r.rdi),
        r.named("rdx"@) == Some(r.rdx),
        r.named("rip"@) == Some(r.rip),
        r.named("rsi"@) == Some(r.rsi),
        r.named("rsp"@) == Some(r.rsp),
        r.named("r8"@) == Some(r.r8),
        r.named("r9"@) == Some(r.r9),
        r.named("r10"@) == Some(r.r10),
        r.named("r11"@) == Some(r.r11),
        r.named("r12"@) == Some(r.r12),
        r.named("r13"@) == Some(r.r13),
        r.named("r14"@) == Some(r.r14),
        r.named("r15"@) == Some(r.r15),
        r.named("ss"@) == Some(r.ss),
{
    reveal_strlit("rax");
    reveal_strlit("rbp");
    reveal_strlit("rbx");
    reveal_strlit("rcx");
    reveal_strlit("rdi");
    reveal_strlit("rdx");
    reveal_strlit("rip");
    reveal_strlit("rsi");
    reveal_strlit("rsp");
    reveal_strlit("r8");
    reveal_strlit("r9");
    reveal_strlit("r10");
    reveal_strlit("r11");
    reveal_strlit("r12");
    reveal_strlit("r13");
    reveal_strlit("r14");
    reveal_strlit("r15");
    reveal_strlit("ss");
    assert("rax"@.len() == 3 && "rax"@[0] == 'r' && "rax"@[1] == 'a' && "rax"@[2] == 'x');
    assert("rbp"@.len() == 3 && "rbp"@[0] == 'r' && "rbp"@[1] == 'b' && "rbp"@[2] == 'p');
    assert("rbx"@.len() == 3 && "rbx"@[0] == 'r' && "rbx"@[1] == 'b' && "rbx"@[2] == 'x');
    assert("rcx"@.len() == 3 && "rcx"@[0] == 'r' && "rcx"@[1] == 'c' && "rcx"@[2] == 'x');
    assert("rdi"@.len() == 3 && "rdi"@[0] == 'r' && "rdi"@[1] == 'd' && "rdi"@[2] == 'i');
    assert("rdx"@.len() == 3 && "rdx"@[0] == 'r' && "rdx"@[1] == 'd' && "rdx"@[2] == 'x');
    assert("rip"@.len() == 3 && "rip"@[0] == 'r' && "rip"@[1] == 'i' && "rip"@[2] == 'p');
    assert("rsi"@.len() == 3 && "rsi"@[0] == 'r' && "rsi"@[1] == 's' && "rsi"@[2] == 'i');
    assert("rsp"@.len() == 3 && "rsp"@[0] == 'r' && "rsp"@[1] == 's' && "rsp"@[2] == 'p');
    assert("r8"@.len() == 2 && "r8"@[0] == 'r' && "r8"@[1] == '8');
    assert("r9"@.len() == 2 && "r9"@[0] == 'r' && "r9"@[1] == '9');
    assert("r10"@.len() == 3 && "r10"@[0] == 'r' && "r10"@[1] == '1' && "r10"@[2] == '0');
    assert("r11"@.len() == 3 && "r11"@[0] == 'r' && "r11"@[1] == '1' && "r11"@[2] == '1');
    assert("r12"@.len() == 3 && "r12"@[0] == 'r' && "r12"@[1] == '1' && "r12"@[2] == '2');
    assert("r13"@.len() == 3 && "r13"@[0] == 'r' && "r13"@[1] == '1' && "r13"@[2] == '3');
    assert("r14"@.len() == 3 && "r14"@[0] == 'r' && "r14"@[1] == '1' && "r14"@[2] == '4');
    assert("r15"@.len() == 3 && "r15"@[0] == 'r' && "r15"@[1] == '1' && "r15"@[2] == '5');
    assert("ss"@.len() == 2 && "ss"@[0] == 's' && "ss"@[1] == 's');
}

/// Nothing is found under a name that none of the registers has.
pub proof fn law_unknown_names(r: UserRegs, name: Seq<char>)
    requires
        name != "rax"@,
        name != "rbp"@,
        name != "rbx"@,
        name != "rcx"@,
        name != "rdi"@,
        name != "rdx"@,
        name != "rip"@,
        name != "rsi"@,
        name != "rsp"@,
        name != "r8"@,
        name != "r9"@,
        name != "r10"@,
        name != "r11"@,
        name != "r12"@,
        name != "r13"@,
        name != "r14"@,
        name != "r15"@,
        name != "ss"@,
    ensures
        r.named(name) is None,
{
}

/// What is looked up under a name is what the register with that name holds.
pub proof fn law_lookup_by_name(r: UserRegs, name: Seq<char>)
    ensures
        r.value_named(name) == r.named(name),
{
}

} // verus!
