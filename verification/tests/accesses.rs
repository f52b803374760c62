use capstone::arch::arm64::Arm64Vas as Vas;
use ffi_trace::arch::Arch;
use ffi_trace::arch_regs::X86Regs;
use ffi_trace::disasm::{
    get_disasm, instr_operands, settle_engine, settle_operands, AccessType, Arm64Vas, DisasmError,
    Operand, X86MemOperand,
};
use ffi_trace::native_lib;
use ffi_trace::native_lib::access::{capstone_find_events, decoded_events, mem_events};
use ffi_trace::regs::UserRegs;
use ffi_trace::trace;
use ffi_trace::trace::access::{
    arm64_access_size, check_pieces, get_ranges, log_decoded, operand_shape,
};

const FAILED: DisasmError = DisasmError { arch: Arch::X86_64 };
const READ: AccessType = AccessType { readable: true, writable: false };
const WRITE: AccessType = AccessType { readable: false, writable: true };
const BOTH: AccessType = AccessType { readable: true, writable: true };

fn regs() -> UserRegs {
    UserRegs {
        r15: 0,
        r14: 0,
        r13: 0,
        r12: 0,
        rbp: 0,
        rbx: 0x1000,
        r11: 0,
        r10: 0,
        r9: 0,
        r8: 0,
        rax: 0x7000,
        rcx: 2,
        rdx: 0,
        rsi: 0,
        rdi: 0,
        orig_rax: 0,
        rip: 0x40_0000,
        cs: 0,
        eflags: 0,
        rsp: 0x8000,
        ss: 0,
        fs_base: 0,
        gs_base: 0,
        ds: 0,
        es: 0,
        fs: 0,
        gs: 0,
    }
}

fn log(events: &Vec<trace::AccessEvent>) -> Vec<String> {
    events.iter().map(|e| format!("{e:?}")).collect()
}

fn record(code: &[u8], addr: usize) -> (bool, Vec<String>) {
    let disasm = get_disasm(Arch::X86_64).unwrap();
    let mut events = vec![];
    let ok =
        trace::access::capstone_disassemble(&code.to_vec(), addr, 0x1000, &disasm, &mut events);
    (ok, log(&events))
}

fn found(code: &[u8]) -> Option<Vec<native_lib::AccessEvent>> {
    let disasm = get_disasm(Arch::X86_64).unwrap();
    native_lib::access::capstone_disassemble(&code.to_vec(), &disasm, &regs()).unwrap()
}

fn read(addr: usize, size: usize) -> native_lib::AccessEvent {
    native_lib::AccessEvent::Read(native_lib::AccessRange { addr, size })
}

fn write(addr: usize, size: usize, certain: bool) -> native_lib::AccessEvent {
    native_lib::AccessEvent::Write(native_lib::AccessRange { addr, size }, certain)
}

#[test]
fn operands_of_instructions() {
    let disasm = get_disasm(Arch::X86_64).unwrap();
    // mov rax, qword ptr [rbx + rcx*4 + 0x10]
    let ops = instr_operands(&disasm, &vec![0x48, 0x8B, 0x44, 0x8B, 0x10]).unwrap().unwrap();
    assert_eq!(ops.len(), 2);
    assert_eq!(ops[0], Operand::NonMem);
    match ops[1] {
        Operand::X86Mem(mem) => {
            assert_eq!((mem.scale, mem.disp, mem.size), (4, 0x10, 8));
            assert_eq!(mem.access, Some(READ));
            assert_ne!(mem.base, mem.index);
        }
        _ => panic!("not a memory operand"),
    }
    // nop
    assert_eq!(instr_operands(&disasm, &vec![0x90]).unwrap(), Some(vec![]));
    // No instruction at all.
    assert_eq!(instr_operands(&disasm, &vec![0x06]).unwrap(), None);
    assert_eq!(instr_operands(&disasm, &vec![]).unwrap(), None);
}

#[test]
fn settled_operands() {
    let ops = vec![Operand::NonMem, Operand::RiscVMem];
    assert_eq!(settle_operands(Arch::X86_64, Ok(Some(ops.clone()))), Ok(Some(ops)));
    assert_eq!(settle_operands(Arch::X86_64, Ok(None)), Ok(None));
    assert_eq!(settle_operands(Arch::X86_64, Err(capstone::Error::OutOfMemory)), Err(FAILED));
    assert_eq!(settle_operands(Arch::X86_64, Err(capstone::Error::DetailOff)), Err(FAILED));
}

#[test]
fn recorded_accesses() {
    // mov rax, qword ptr [rbx + rcx*4 + 0x10]
    assert_eq!(
        record(&[0x48, 0x8B, 0x44, 0x8B, 0x10], 0x2000),
        (true, vec!["Read(8192..8200)".to_string()])
    );
    // mov dword ptr [rax], ecx
    assert_eq!(record(&[0x89, 0x08], 0x2000), (true, vec!["Write(8192..8196)".to_string()]));
    // add qword ptr [rax], rbx
    assert_eq!(
        record(&[0x48, 0x01, 0x18], 0x2000),
        (true, vec!["Read(8192..8200)".to_string(), "Write(8192..8200)".to_string()])
    );
    // nop
    assert_eq!(record(&[0x90], 0x2000), (true, vec![]));
    // There is no instruction, and then no room for the access.
    assert_eq!(record(&[0x06], 0x2000), (false, vec![]));
    assert_eq!(record(&[0x89, 0x08], usize::MAX - 2), (false, vec![]));
}

#[test]
fn numbers_of_vector_arrangements() {
    let pairs = [
        (Vas::ARM64_VAS_INVALID, Arm64Vas::Invalid),
        (Vas::ARM64_VAS_16B, Arm64Vas::B16),
        (Vas::ARM64_VAS_8B, Arm64Vas::B8),
        (Vas::ARM64_VAS_4B, Arm64Vas::B4),
        (Vas::ARM64_VAS_1B, Arm64Vas::B1),
        (Vas::ARM64_VAS_8H, Arm64Vas::H8),
        (Vas::ARM64_VAS_4H, Arm64Vas::H4),
        (Vas::ARM64_VAS_2H, Arm64Vas::H2),
        (Vas::ARM64_VAS_1H, Arm64Vas::H1),
        (Vas::ARM64_VAS_4S, Arm64Vas::S4),
        (Vas::ARM64_VAS_2S, Arm64Vas::S2),
        (Vas::ARM64_VAS_1S, Arm64Vas::S1),
        (Vas::ARM64_VAS_2D, Arm64Vas::D2),
        (Vas::ARM64_VAS_1D, Arm64Vas::D1),
        (Vas::ARM64_VAS_1Q, Arm64Vas::Q1),
    ];
    for (theirs, ours) in pairs {
        assert_eq!(Arm64Vas::from_number(theirs as u32), Some(ours));
    }
}

fn operands(arch: Arch, code: &[u8]) -> Vec<Operand> {
    let disasm = get_disasm(arch).unwrap();
    assert_eq!(disasm.architecture(), arch);
    instr_operands(&disasm, &code.to_vec()).unwrap().unwrap()
}

#[test]
fn instructions_of_other_processors() {
    // inc eax; in 64-bit code the same byte begins another instruction.
    assert_eq!(operands(Arch::X86, &[0x40]), vec![Operand::NonMem]);
    // ldr x0, [x1]
    assert_eq!(
        operands(Arch::Aarch64, &[0x20, 0x00, 0x40, 0xF9]),
        vec![Operand::NonMem, Operand::Arm64Mem(0)]
    );
    // ldr r0, [r1]
    let arm = operands(Arch::Arm, &[0x00, 0x00, 0x91, 0xE5]);
    assert_eq!(arm[0], Operand::NonMem);
    assert_eq!(arm[1], Operand::ArmMem { vector: false, access: Some(READ) });
    // lw a0, 0(a1)
    for arch in [Arch::RiscV32, Arch::RiscV64] {
        assert_eq!(
            operands(arch, &[0x03, 0xA5, 0x05, 0x00]),
            vec![Operand::NonMem, Operand::RiscVMem]
        );
    }
}

#[test]
fn records_of_other_processors() {
    let disasm = get_disasm(Arch::RiscV64).unwrap();
    let mut events = vec![];
    let code = vec![0x03, 0xA5, 0x05, 0x00];
    assert!(trace::access::capstone_disassemble(&code, 0x10, 0x1000, &disasm, &mut events));
    assert_eq!(log(&events), vec!["Read(16..32)", "Write(16..32)"]);
    let failed = DisasmError { arch: Arch::Arm };
    let mut events = vec![];
    assert!(log_decoded(Err(failed), 0x2000, 0x1000, &mut events));
    assert_eq!(log(&events), vec!["Read(8192..8208)", "Write(8192..8208)"]);
}

#[test]
fn computed_addresses_on_32_bit_x86() {
    let regs = X86Regs {
        ebx: 0x1000,
        ecx: 2,
        edx: 0,
        esi: 0,
        edi: 0,
        ebp: 0,
        eax: 0x7000,
        orig_eax: 0,
        eip: 0,
        esp: 0,
        xss: 0,
    };
    let disasm = get_disasm(Arch::X86).unwrap();
    let found = |code: &[u8]| {
        native_lib::access::capstone_disassemble(&code.to_vec(), &disasm, &regs).unwrap()
    };
    // mov eax, dword ptr [ebx + ecx*4 + 0x10]
    assert_eq!(found(&[0x8B, 0x44, 0x8B, 0x10]), Some(vec![read(0x1018, 4)]));
    // add dword ptr [eax], ebx
    assert_eq!(found(&[0x01, 0x18]), Some(vec![read(0x7000, 4), write(0x7000, 4, false)]));
}

#[test]
fn settled_engines() {
    let failed = settle_engine(Arch::Arm, Err(capstone::Error::OutOfMemory));
    assert_eq!(failed.err(), Some(DisasmError { arch: Arch::Arm }));
    let built = settle_engine(Arch::X86, get_disasm(Arch::X86).map_err(|_| capstone::Error::OutOfMemory));
    assert_eq!(built.ok().unwrap().architecture(), Arch::X86);
}

#[test]
fn failed_decoding_is_pessimistic() {
    let mut events = vec![];
    assert!(log_decoded(Err(FAILED), 0x2000, 0x1000, &mut events));
    assert_eq!(log(&events), vec!["Read(8192..8256)", "Write(8192..8256)"]);
    assert!(!log_decoded(Err(FAILED), usize::MAX - 63, 0x1000, &mut events));
    assert_eq!(events.len(), 2);
}

#[test]
fn accesses_are_cut() {
    assert_eq!(get_ranges(0x10, 8, 4), vec![0x10..0x14, 0x14..0x18]);
    assert_eq!(get_ranges(0x10, 10, 4), vec![0x10..0x14, 0x14..0x18, 0x18..0x1a]);
    assert_eq!(get_ranges(0x10, 4, 4), vec![0x10..0x14]);
    assert_eq!(get_ranges(0x10, 0, 4), vec![0x10..0x10]);
    assert!(check_pieces(usize::MAX - 4, 3, 4));
    assert!(!check_pieces(usize::MAX - 3, 3, 4));
    assert!(!check_pieces(usize::MAX - 4, 5, 4));
}

#[test]
fn operands_of_other_processors() {
    let sizes = [
        (Arm64Vas::Invalid, 8),
        (Arm64Vas::B1, 1),
        (Arm64Vas::H1, 2),
        (Arm64Vas::B4, 4),
        (Arm64Vas::H2, 4),
        (Arm64Vas::S1, 4),
        (Arm64Vas::B8, 8),
        (Arm64Vas::H4, 8),
        (Arm64Vas::S2, 8),
        (Arm64Vas::D1, 8),
        (Arm64Vas::B16, 16),
        (Arm64Vas::H8, 16),
        (Arm64Vas::S4, 16),
        (Arm64Vas::D2, 16),
        (Arm64Vas::Q1, 16),
    ];
    for (vas, size) in sizes {
        assert_eq!(arm64_access_size(vas), size);
    }
    for number in 0..15 {
        let size = arm64_access_size(Arm64Vas::from_number(number).unwrap());
        assert_eq!(operand_shape(&Operand::Arm64Mem(number)), (size, Some(BOTH)));
    }
    assert_eq!(Arm64Vas::from_number(15), None);
    assert_eq!(operand_shape(&Operand::Arm64Mem(15)), (0, None));
    let arm = |vector: bool| operand_shape(&Operand::ArmMem { vector, access: Some(READ) });
    assert_eq!(arm(true), (16, Some(READ)));
    assert_eq!(arm(false), (4, Some(READ)));
    assert_eq!(operand_shape(&Operand::RiscVMem), (16, Some(BOTH)));

    let mut events = vec![];
    assert!(log_decoded(Ok(Some(vec![Operand::RiscVMem])), 0x10, 0x1000, &mut events));
    assert_eq!(log(&events), vec!["Read(16..32)", "Write(16..32)"]);
    assert!(!log_decoded(Ok(Some(vec![Operand::Unsupported])), 0x10, 0x1000, &mut events));
    assert!(!log_decoded(
        Ok(Some(vec![Operand::ArmMem { vector: false, access: None }])),
        0x10,
        0x1000,
        &mut events
    ));
    assert_eq!(events.len(), 2);
}

#[test]
fn computed_addresses() {
    // mov rax, qword ptr [rbx + rcx*4 + 0x10]
    assert_eq!(found(&[0x48, 0x8B, 0x44, 0x8B, 0x10]), Some(vec![read(0x1018, 8)]));
    // mov dword ptr [rax], ecx
    assert_eq!(found(&[0x89, 0x08]), Some(vec![write(0x7000, 4, true)]));
    // add qword ptr [rax], rbx
    assert_eq!(
        found(&[0x48, 0x01, 0x18]),
        Some(vec![read(0x7000, 8), write(0x7000, 8, false)])
    );
    // mov rax, qword ptr [rbx - 8]
    assert_eq!(found(&[0x48, 0x8B, 0x43, 0xF8]), Some(vec![read(0xff8, 8)]));
    // nop
    assert_eq!(found(&[0x90]), Some(vec![]));
    // mov eax, dword ptr [0x1234]: there is no base register.
    assert_eq!(found(&[0x8B, 0x04, 0x25, 0x34, 0x12, 0x00, 0x00]), None);
    // There is no instruction.
    assert_eq!(found(&[0x06]), None);
}

#[test]
fn events_of_decoded_instructions() {
    let disasm = get_disasm(Arch::X86_64).unwrap();
    let ops = instr_operands(&disasm, &vec![0x48, 0x01, 0x18]);
    assert_eq!(
        decoded_events(ops, &disasm, &regs()),
        Ok(Some(vec![read(0x7000, 8), write(0x7000, 8, false)]))
    );
    assert_eq!(decoded_events(Ok(Some(vec![])), &disasm, &regs()), Ok(Some(vec![])));
    assert_eq!(decoded_events(Ok(Some(vec![Operand::RiscVMem])), &disasm, &regs()), Ok(None));
    assert_eq!(decoded_events(Ok(None), &disasm, &regs()), Ok(None));
    assert_eq!(decoded_events(Err(FAILED), &disasm, &regs()), Err(FAILED));
}

fn operand(scale: i32, disp: i64, access: Option<AccessType>) -> X86MemOperand {
    X86MemOperand { base: 1, index: 2, scale, disp, size: 4, access }
}

#[test]
fn addresses_wrap() {
    let base = usize::MAX - 1;
    assert_eq!(mem_events(&operand(1, 4, Some(READ)), Some(base), None), Some(vec![read(2, 4)]));
    assert_eq!(
        mem_events(&operand(8, 0, Some(WRITE)), Some(0x100), Some(usize::MAX)),
        Some(vec![write(0xf8, 4, true)])
    );
    assert_eq!(
        mem_events(&operand(1, -1, Some(BOTH)), Some(0), None),
        Some(vec![read(usize::MAX, 4), write(usize::MAX, 4, false)])
    );
    assert_eq!(mem_events(&operand(0, 0, Some(READ)), Some(5), Some(9)), Some(vec![read(5, 4)]));
}

#[test]
fn untellable_operands() {
    assert_eq!(mem_events(&operand(1, 0, Some(READ)), None, Some(1)), None);
    assert_eq!(mem_events(&operand(-1, 0, Some(READ)), Some(1), None), None);
    assert_eq!(mem_events(&operand(1, 0, None), Some(1), None), None);
    let disasm = get_disasm(Arch::X86_64).unwrap();
    assert_eq!(capstone_find_events(&disasm, &Operand::NonMem, &regs()), Some(vec![]));
    assert_eq!(capstone_find_events(&disasm, &Operand::Unsupported, &regs()), None);
}
