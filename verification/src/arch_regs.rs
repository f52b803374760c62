//! The registers of stopped threads on architectures other than x86-64, as far as a
//! supervisor looks at them.
use vstd::prelude::*;

use crate::regs::{as_signed, str_eq, NamedRegs};

verus! {

/// The registers of a 32-bit x86 thread, each as a bit pattern.
#[derive(Debug, Clone, Copy, PartialEq, Eq, Structural)]
pub struct X86Regs {
    pub ebx: usize,
    pub ecx: usize,
    pub edx: usize,
    pub esi: usize,
    pub edi: usize,
    pub ebp: usize,
    pub eax: usize,
    pub orig_eax: usize,
    pub eip: usize,
    pub esp: usize,
    pub xss: usize,
}

impl NamedRegs for X86Regs {
    open spec fn value_named(self, name: Seq<char>) -> Option<usize> {
        self.named(name)
    }

    fn val_of(&self, name: Option<&String>) -> (val: Option<usize>) {
        self.val_of_name(name)
    }
}

impl X86Regs {
    /// The return value of a function call, if one just happened.
    pub fn retval(&self) -> (val: isize)
        ensures
            val == crate::regs::signed(self.eax),
    {
        as_signed(self.eax)
    }

    /// The first pointer-sized argument.
    pub fn arg1(&self) -> (val: usize)
        ensures
            val == self.edi,
    {
        self.edi
    }

    /// The second pointer-sized argument.
    pub fn arg2(&self) -> (val: usize)
        ensures
            val == self.esi,
    {
        self.esi
    }

    /// If entering a system call, its number.
    pub fn syscall_nr(&self) -> (val: isize)
        ensures
            val == crate::regs::signed(self.orig_eax),
    {
        as_signed(self.orig_eax)
    }

    /// The instruction pointer.
    pub fn ip(&self) -> (val: usize)
        ensures
            val == self.eip,
    {
        self.eip
    }

    /// The stack pointer.
    pub fn sp(&self) -> (val: usize)
        ensures
            val == self.esp,
    {
        self.esp
    }

    /// Sets the instruction pointer.
    pub fn set_ip(&mut self, ip: usize)
        ensures
            *final(self) == (X86Regs { eip: ip, ..*old(self) }),
    {
        self.eip = ip;
    }

    /// Sets the stack pointer.
    pub fn set_sp(&mut self, sp: usize)
        ensures
            *final(self) == (X86Regs { esp: sp, ..*old(self) }),
    {
        self.esp = sp;
    }

    /// The value of the register with this name, if any.
    pub open spec fn named(self, name: Seq<char>) -> Option<usize> {
        if name == "eax"@ {
            Some(self.eax)
        } else if name == "ebp"@ {
            Some(self.ebp)
        } else if name == "ebx"@ {
            Some(self.ebx)
        } else if name == "ecx"@ {
            Some(self.ecx)
        } else if name == "edi"@ {
            Some(self.edi)
        } else if name == "edx"@ {
            Some(self.edx)
        } else if name == "eip"@ {
            Some(self.eip)
        } else if name == "esi"@ {
            Some(self.esi)
        } else if name == "esp"@ {
            Some(self.esp)
        } else if name == "xss"@ {
            Some(self.xss)
        } else {
            None
        }
    }

    /// Gets the value of the register with this name, if any.
    pub fn val_of_name(&self, name: Option<&String>) -> (val: Option<usize>)
        ensures
            val == (match name {
                Some(n) => self.named(n@),
                None => None,
            }),
    {
        let name = match name {
            Some(n) => n.as_str(),
            None => return None,
        };
        if str_eq(name, "eax") {
            Some(self.eax)
        } else if str_eq(name, "ebp") {
            Some(self.ebp)
        } else if str_eq(name, "ebx") {
            Some(self.ebx)
        } else if str_eq(name, "ecx") {
            Some(self.ecx)
        } else if str_eq(name, "edi") {
            Some(self.edi)
        } else if str_eq(name, "edx") {
            Some(self.edx)
        } else if str_eq(name, "eip") {
            Some(self.eip)
        } else if str_eq(name, "esi") {
            Some(self.esi)
        } else if str_eq(name, "esp") {
            Some(self.esp)
        } else if str_eq(name, "xss") {
            Some(self.xss)
        } else {
            None
        }
    }
}

/// The registers of an AArch64 thread, each as a bit pattern.
#[derive(Debug, Clone, Copy, PartialEq, Eq, Structural)]
pub struct Aarch64Regs {
    /// The registers `x0`, `x1` and `x8`.
    pub x0: usize,
    pub x1: usize,
    pub x8: usize,
    pub sp: usize,
    pub pc: usize,
}

impl Aarch64Regs {
    /// The return value of a function call, if one just happened.
    pub fn retval(&self) -> (val: isize)
        ensures
            val == crate::regs::signed(self.x0),
    {
        as_signed(self.x0)
    }

    /// The first pointer-sized argument.
    pub fn arg1(&self) -> (val: usize)
        ensures
            val == self.x0,
    {
        self.x0
    }

    /// The second pointer-sized argument.
    pub fn arg2(&self) -> (val: usize)
        ensures
            val == self.x1,
    {
        self.x1
    }

    /// If entering a system call, its number.
    pub fn syscall_nr(&self) -> (val: isize)
        ensures
            val == crate::regs::signed(self.x8),
    {
        as_signed(self.x8)
    }

    /// The instruction pointer.
    pub fn ip(&self) -> (val: usize)
        ensures
            val == self.pc,
    {
        self.pc
    }

    /// The stack pointer.
    pub fn sp(&self) -> (val: usize)
        ensures
            val == self.sp,
    {
        self.sp
    }

    /// Sets the instruction pointer.
    pub fn set_ip(&mut self, ip: usize)
        ensures
            *final(self) == (Aarch64Regs { pc: ip, ..*old(self) }),
    {
        self.pc = ip;
    }

    /// Sets the stack pointer.
    pub fn set_sp(&mut self, sp: usize)
        ensures
            *final(self) == (Aarch64Regs { sp, ..*old(self) }),
    {
        self.sp = sp;
    }
}

/// The registers of a RISC-V thread, each as a bit pattern. Calls and system calls are
/// not looked at there yet.
#[derive(Debug, Clone, Copy, PartialEq, Eq, Structural)]
pub struct RiscVRegs {
    pub pc: usize,
    pub sp: usize,
}

impl RiscVRegs {
    /// The instruction pointer.
    pub fn ip(&self) -> (val: usize)
        ensures
            val == self.pc,
    {
        self.pc
    }

    /// Sets the instruction pointer.
    pub fn set_ip(&mut self, ip: usize)
        ensures
            *final(self) == (RiscVRegs { pc: ip, ..*old(self) }),
    {
        self.pc = ip;
    }

    /// Sets the stack pointer.
    pub fn set_sp(&mut self, sp: usize)
        ensures
            *final(self) == (RiscVRegs { sp, ..*old(self) }),
    {
        self.sp = sp;
    }
}

/// Each register of 32-bit x86 is found under its own name.
pub proof fn law_x86_registers_by_name(r: X86Regs)
    ensures
        r.named("eax"@) == Some(r.eax),
        r.named("ebp"@) == Some(r.ebp),
        r.named("ebx"@) == Some(r.ebx),
        r.named("ecx"@) == Some(r.ecx),
        r.named("edi"@) == Some(r.edi),
        r.named("edx"@) == Some(r.edx),
        r.named("eip"@) == Some(r.eip),
        r.named("esi"@) == Some(r.esi),
        r.named("esp"@) == Some(r.esp),
        r.named("xss"@) == Some(r.xss),
{
    reveal_strlit("eax");
    reveal_strlit("ebp");
    reveal_strlit("ebx");
    reveal_strlit("ecx");
    reveal_strlit("edi");
    reveal_strlit("edx");
    reveal_strlit("eip");
    reveal_strlit("esi");
    reveal_strlit("esp");
    reveal_strlit("xss");
    assert("eax"@.len() == 3 && "eax"@[0] == 'e' && "eax"@[1] == 'a' && "eax"@[2] == 'x');
    assert("ebp"@.len() == 3 && "ebp"@[0] == 'e' && "ebp"@[1] == 'b' && "ebp"@[2] == 'p');
    assert("ebx"@.len() == 3 && "ebx"@[0] == 'e' && "ebx"@[1] == 'b' && "ebx"@[2] == 'x');
    assert("ecx"@.len() == 3 && "ecx"@[0] == 'e' && "ecx"@[1] == 'c' && "ecx"@[2] == 'x');
    assert("edi"@.len() == 3 && "edi"@[0] == 'e' && "edi"@[1] == 'd' && "edi"@[2] == 'i');
    assert("edx"@.len() == 3 && "edx"@[0] == 'e' && "edx"@[1] == 'd' && "edx"@[2] == 'x');
    assert("eip"@.len() == 3 && "eip"@[0] == 'e' && "eip"@[1] == 'i' && "eip"@[2] == 'p');
    assert("esi"@.len() == 3 && "esi"@[0] == 'e' && "esi"@[1] == 's' && "esi"@[2] == 'i');
    assert("esp"@.len() == 3 && "esp"@[0] == 'e' && "esp"@[1] == 's' && "esp"@[2] == 'p');
    assert("xss"@.len() == 3 && "xss"@[0] == 'x' && "xss"@[1] == 's' && "xss"@[2] == 's');
}

/// What is looked up under a name is what the register with that name holds, and nothing is
/// found under a name that none of them has.
pub proof fn law_x86_lookup_by_name(r: X86Regs, name: Seq<char>)
    ensures
        r.value_named(name) == r.named(name),
        name != "eax"@ && name != "ebp"@ && name != "ebx"@ && name != "ecx"@ && name != "edi"@
            && name != "edx"@ && name != "eip"@ && name != "esi"@ && name != "esp"@ && name != "xss"@ ==> r.named(name) is None,
{
}

} // verus!
