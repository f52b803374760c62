use ffi_trace::arch::Arch;
use ffi_trace::arch_regs::{Aarch64Regs, RiscVRegs, X86Regs};
use ffi_trace::regs::{as_signed, str_eq, UserRegs};

fn numbered() -> UserRegs {
    UserRegs {
        r15: 15,
        r14: 14,
        r13: 13,
        r12: 12,
        rbp: 101,
        rbx: 102,
        r11: 11,
        r10: 10,
        r9: 9,
        r8: 8,
        rax: 103,
        rcx: 104,
        rdx: 105,
        rsi: 106,
        rdi: 107,
        orig_rax: 108,
        rip: 109,
        cs: 110,
        eflags: 111,
        rsp: 112,
        ss: 113,
        fs_base: 114,
        gs_base: 115,
        ds: 116,
        es: 117,
        fs: 118,
        gs: 119,
    }
}

fn val(name: &str) -> Option<usize> {
    numbered().val_of_name(Some(&name.to_string()))
}

#[test]
fn signed_words() {
    assert_eq!(as_signed(usize::MAX), -1);
    assert_eq!(as_signed(0), 0);
    assert_eq!(as_signed(isize::MAX as usize), isize::MAX);
    assert_eq!(as_signed(isize::MAX as usize + 1), isize::MIN);
}

#[test]
fn strings_compare() {
    assert!(str_eq("rax", "rax"));
    assert!(!str_eq("rax", "rbx"));
    assert!(!str_eq("r1", "r10"));
    assert!(str_eq("", ""));
}

#[test]
fn x86_64_accessors() {
    let mut regs = numbered();
    assert_eq!(regs.retval(), 103);
    assert_eq!(regs.arg1(), 107);
    assert_eq!(regs.arg2(), 106);
    assert_eq!(regs.syscall_nr(), 108);
    assert_eq!(regs.ip(), 109);
    assert_eq!(regs.sp(), 112);
    regs.set_ip(7);
    regs.set_sp(8);
    assert_eq!((regs.rip, regs.rsp, regs.rax), (7, 8, 103));
    regs.rax = usize::MAX;
    assert_eq!(regs.retval(), -1);
}

#[test]
fn x86_64_names() {
    assert_eq!(val("rax"), Some(103));
    assert_eq!(val("rbp"), Some(101));
    assert_eq!(val("rbx"), Some(102));
    assert_eq!(val("rcx"), Some(104));
    assert_eq!(val("rdi"), Some(107));
    assert_eq!(val("rdx"), Some(105));
    assert_eq!(val("rip"), Some(109));
    assert_eq!(val("rsi"), Some(106));
    assert_eq!(val("rsp"), Some(112));
    for n in 8..16 {
        assert_eq!(val(&format!("r{n}")), Some(n));
    }
    assert_eq!(val("ss"), Some(113));
    assert_eq!(val("eax"), None);
    assert_eq!(val("cs"), None);
    assert_eq!(numbered().val_of_name(None), None);
}

#[test]
fn other_architectures() {
    let mut x86 = X86Regs {
        ebx: 1,
        ecx: 2,
        edx: 3,
        esi: 4,
        edi: 5,
        ebp: 6,
        eax: 7,
        orig_eax: 8,
        eip: 9,
        esp: 10,
        xss: 11,
    };
    assert_eq!((x86.retval(), x86.arg1(), x86.arg2(), x86.syscall_nr()), (7, 5, 4, 8));
    assert_eq!((x86.ip(), x86.sp()), (9, 10));
    let names = ["ebx", "ecx", "edx", "esi", "edi", "ebp", "eax"];
    for (i, name) in names.iter().enumerate() {
        assert_eq!(x86.val_of_name(Some(&name.to_string())), Some(i + 1));
    }
    assert_eq!(x86.val_of_name(Some(&"eip".to_string())), Some(9));
    assert_eq!(x86.val_of_name(Some(&"esp".to_string())), Some(10));
    assert_eq!(x86.val_of_name(Some(&"xss".to_string())), Some(11));
    assert_eq!(x86.val_of_name(Some(&"rax".to_string())), None);
    assert_eq!(x86.val_of_name(None), None);
    x86.set_ip(20);
    x86.set_sp(21);
    assert_eq!((x86.eip, x86.esp), (20, 21));

    let mut arm = Aarch64Regs { x0: 1, x1: 2, x8: 3, sp: 4, pc: 5 };
    assert_eq!((arm.retval(), arm.arg1(), arm.arg2(), arm.syscall_nr()), (1, 1, 2, 3));
    assert_eq!((arm.ip(), arm.sp()), (5, 4));
    arm.set_ip(6);
    arm.set_sp(7);
    assert_eq!((arm.pc, arm.sp), (6, 7));

    let mut riscv = RiscVRegs { pc: 1, sp: 2 };
    assert_eq!(riscv.ip(), 1);
    riscv.set_ip(3);
    riscv.set_sp(4);
    assert_eq!((riscv.pc, riscv.sp), (3, 4));
}

#[test]
fn facts_about_processors() {
    assert_eq!(Arch::X86_64.word_size(), 8);
    assert_eq!(Arch::Aarch64.word_size(), 8);
    assert_eq!(Arch::RiscV64.word_size(), 8);
    assert_eq!(Arch::X86.word_size(), 4);
    assert_eq!(Arch::Arm.word_size(), 4);
    assert_eq!(Arch::RiscV32.word_size(), 4);
    assert_eq!(Arch::X86.max_access_size(), 64);
    assert_eq!(Arch::X86_64.max_access_size(), 64);
    assert_eq!(Arch::Arm.max_access_size(), 16);
    assert_eq!(Arch::RiscV64.max_access_size(), 16);
    assert_eq!(Arch::X86_64.breakpt_instr(), Some((0xCC, 1)));
    assert_eq!(Arch::Aarch64.breakpt_instr(), Some((0xD420, 4)));
    assert_eq!(Arch::RiscV32.breakpt_instr(), None);
}
