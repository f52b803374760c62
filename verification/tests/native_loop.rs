use ffi_trace::arch::Arch;
use ffi_trace::disasm::{get_disasm, Disassembler};
use ffi_trace::mempr::MemprLayout;
use ffi_trace::messages::{ExecEvent, StartFfiInfo, TraceRequest};
use ffi_trace::native_lib::access::Found;
use ffi_trace::native_lib::libc_fns::{LibcFn, LibcTable, PerFn};
use ffi_trace::native_lib::listener::ChildListener;
use ffi_trace::native_lib::segfault::FaultEnv;
use ffi_trace::native_lib::sigtrap::SvEnv;
use ffi_trace::native_lib::sv_loop::{sv_loop, SvLoop};
use ffi_trace::native_lib::wait::{InitialCont, WaitForSignal};
use ffi_trace::native_lib::{AccessEvent, AccessRange, ExecEnd, MemEvents};
use ffi_trace::regs::UserRegs;
use ffi_trace::tracee::{
    Command, Mapping, Outbox, Pid, Query, Reply, Signal, Step, WaitId, WaitStatus,
};

const INIT: Pid = Pid { raw: 100 };
const CHILD: Pid = Pid { raw: 101 };
const STACK: usize = 0x5000;

fn regs() -> UserRegs {
    UserRegs {
        r15: 0,
        r14: 0,
        r13: 0,
        r12: 0,
        rbp: 0,
        rbx: 0,
        r11: 0,
        r10: 0,
        r9: 0,
        r8: 0,
        rax: 0x1008,
        rcx: 0,
        rdx: 0,
        rsi: 0x2000,
        rdi: 0x9000,
        orig_rax: 0,
        rip: 0x40_0000,
        cs: 0,
        eflags: 0,
        rsp: 0x8000,
        ss: 0,
        fs_base: 0,
        gs_base: 0,
        ds: 0,
        es: 0,
        fs: 0,
        gs: 0,
    }
}

fn table() -> LibcTable {
    LibcTable {
        addrs: PerFn {
            malloc: 0xA0,
            calloc: 0xA1,
            aligned_alloc: 0xA2,
            posix_memalign: 0xA3,
            realloc: 0xA4,
            free: 0xA5,
        },
        words: PerFn {
            malloc: 0x10,
            calloc: 0x11,
            aligned_alloc: 0x12,
            posix_memalign: 0x13,
            realloc: 0x14,
            free: 0x15,
        },
        shims: PerFn {
            malloc: 0xB0,
            calloc: 0xB1,
            aligned_alloc: 0xB2,
            posix_memalign: 0xB3,
            realloc: 0xB4,
            free: 0xB5,
        },
    }
}

fn env() -> SvEnv {
    SvEnv {
        fault: FaultEnv {
            layout: MemprLayout {
                page_size: 0x1000,
                off: 0xE000,
                on: 0xF000,
                page_addr_at: 0xD0,
                page_count_at: 0xD8,
            },
            stack_size: 16,
        },
        libc: table(),
        exit_addr: 0x7100,
        ret_is_libc_at: 0xC0,
        new_pages_addr_at: 0xC8,
        new_pages_count_at: 0xC9,
        del_pages_addr_at: 0xCA,
        del_pages_count_at: 0xCB,
    }
}

fn show(cmd: &Command<MemEvents>) -> String {
    match cmd {
        Command::SetRegs(pid, regs) =>
            format!("setregs {} ip={:#x} sp={:#x}", pid.raw, regs.rip, regs.rsp),
        Command::Write(pid, addr, word) => format!("write {} {addr:#x} {word:#x}", pid.raw),
        Command::Cont(pid, signal) => format!("cont {} {signal:?}", pid.raw),
        Command::Syscall(pid) => format!("syscall {}", pid.raw),
        Command::Step(pid) => format!("step {}", pid.raw),
        Command::Kill(pid) => format!("kill {}", pid.raw),
        Command::Raise(pid, signal) => format!("raise {} {signal:?}", pid.raw),
        Command::SendEvents(events) => format!("send {:?}", events.acc_events),
        other => format!("{other:?}"),
    }
}

fn traps() -> Vec<String> {
    [0xA0, 0xA1, 0xA3, 0xA2, 0xA4, 0xA5].iter().map(|a| format!("write 101 {a:#x} 0xcc")).collect()
}

fn fixes() -> Vec<String> {
    [(0xA0, 0x10), (0xA1, 0x11), (0xA3, 0x13), (0xA2, 0x12), (0xA4, 0x14), (0xA5, 0x15)]
        .iter()
        .map(|(a, w)| format!("write 101 {a:#x} {w:#x}"))
        .collect()
}

fn with(mut cmds: Vec<String>, more: &[&str]) -> Vec<String> {
    cmds.extend(more.iter().map(|cmd| cmd.to_string()));
    cmds
}

struct Session {
    sv: Option<SvLoop>,
    disasm: Disassembler,
    end: Option<ExecEnd>,
}

impl Session {
    fn new() -> Session {
        let sv = sv_loop(ChildListener::new(), INIT, env());
        Session { sv: Some(sv), disasm: get_disasm(Arch::X86_64).unwrap(), end: None }
    }

    fn query(&self) -> Query {
        self.sv.as_ref().unwrap().query()
    }

    fn reply(&mut self, reply: Reply<Found>) -> Vec<String> {
        let mut out = Outbox::new();
        match self.sv.take().unwrap().step(&self.disasm, reply, &mut out) {
            Step::Ask(sv) => self.sv = Some(sv),
            Step::Done(end) => self.end = Some(end),
            Step::Abort => {}
        }
        out.cmds.iter().map(show).collect()
    }

    fn stopped(&mut self, signal: Signal) -> Vec<String> {
        self.reply(Reply::Status(Some(WaitStatus::Stopped(CHILD, signal))))
    }

    fn word(&mut self, word: usize) -> Vec<String> {
        self.reply(Reply::Word(word))
    }

    /// A supervisor whose child has begun to call foreign code.
    fn attached() -> Session {
        let mut session = Session::new();
        assert_eq!(session.query(), Query::Wait(WaitId::Pid(INIT)));
        let stopped = WaitStatus::Stopped(INIT, Signal::Stop);
        assert_eq!(session.reply(Reply::Status(Some(stopped))), vec!["cont 100 None"]);
        session.reply(Reply::Status(Some(WaitStatus::StillAlive)));
        let info = StartFfiInfo { page_ptrs: vec![0x1000, 0x2000, 0x3000], stack_ptr: STACK };
        let cmds = session.reply(Reply::Request(Some(TraceRequest::StartFfi(info))));
        assert_eq!(cmds, vec!["Confirm"]);
        assert_eq!(session.query(), Query::Wait(WaitId::All));
        assert_eq!(session.stopped(Signal::Stop), with(traps(), &["syscall 101"]));
        session
    }

    /// A fault up to where its instruction is read, and the commands after that.
    fn fault(&mut self, code: &[u8]) -> Vec<String> {
        assert_eq!(self.stopped(Signal::Segv), Vec::<String>::new());
        assert_eq!(self.query(), Query::GetRegs(CHILD));
        self.reply(Reply::Regs(regs()));
        assert_eq!(
            self.query(),
            Query::ReadWords { pid: CHILD, addr: 0x40_0000, stride: 8, count: 2, lenient: true }
        );
        let mut bytes = code.to_vec();
        bytes.resize(16, 0x90);
        let word = |bytes: &[u8]| bytes.iter().rev().fold(0, |w, byte| w * 256 + *byte as usize);
        self.reply(Reply::Words(vec![Some(word(&bytes[..8])), Some(word(&bytes[8..]))]))
    }

    fn finish(mut self) -> String {
        let cmds = self.stopped(Signal::Usr1);
        assert_eq!(cmds[..6], fixes());
        assert_eq!(cmds[7], "cont 101 None");
        assert_eq!(self.query(), Query::Poll);
        cmds[6].clone()
    }
}

fn routine(page: usize, count: usize, ip: usize) -> Vec<String> {
    vec![
        "write 101 0x5000 0x0".to_string(),
        "write 101 0x5008 0x0".to_string(),
        format!("write 101 0xd0 {page:#x}"),
        format!("write 101 0xd8 {count:#x}"),
        format!("setregs 101 ip={ip:#x} sp=0x5008"),
        "cont 101 None".to_string(),
    ]
}

const ADD_TO_RAX: [u8; 3] = [0x48, 0x01, 0x18];

#[test]
fn native_a_call_without_events() {
    assert_eq!(Session::attached().finish(), "send []");
}

#[test]
fn native_fault_on_our_memory() {
    let mut session = Session::attached();
    // add qword ptr [rax], rbx: a read and a write, both at the same place.
    assert_eq!(session.fault(&ADD_TO_RAX), routine(0x1000, 2, 0xE000));
    assert_eq!(session.query(), Query::Wait(WaitId::Pid(CHILD)));
    assert_eq!(session.stopped(Signal::Stop), routine(0x1000, 2, 0xE000));
    assert_eq!(
        session.stopped(Signal::Stop),
        vec!["setregs 101 ip=0x400000 sp=0x8000", "step 101"]
    );
    session.stopped(Signal::Trap);
    let mut after = regs();
    after.rip += 3;
    assert_eq!(session.reply(Reply::Regs(after)), routine(0x1000, 2, 0xF000));
    assert_eq!(session.stopped(Signal::Stop), routine(0x1000, 2, 0xF000));
    assert_eq!(
        session.stopped(Signal::Stop),
        vec!["setregs 101 ip=0x400003 sp=0x8000", "syscall 101"]
    );
    let range = AccessRange { addr: 0x1008, size: 8 };
    let events = vec![AccessEvent::Read(range), AccessEvent::Write(range, false)];
    assert_eq!(session.finish(), format!("send {events:?}"));
}

#[test]
fn the_next_page_is_opened_too() {
    let mut session = Session::attached();
    // mov rax, qword ptr [rsi]
    assert_eq!(session.fault(&[0x48, 0x8B, 0x06]), routine(0x2000, 2, 0xE000));
    // mov rax, qword ptr [rsi + 0xffc]: across the boundary to the next page.
    let mut session = Session::attached();
    let cmds = session.fault(&[0x48, 0x8B, 0x86, 0xfc, 0x0f, 0x00, 0x00]);
    assert_eq!(cmds, routine(0x2000, 2, 0xE000));
    // mov rax, qword ptr [rsi + 0x1ffc]: the page after that is not ours.
    let mut session = Session::attached();
    let cmds = session.fault(&[0x48, 0x8B, 0x86, 0xfc, 0x1f, 0x00, 0x00]);
    assert_eq!(cmds, routine(0x3000, 1, 0xE000));
}

#[test]
fn some_of_the_instruction_must_be_readable() {
    let code = 0x90_90_90_90_90_06_8B_48;
    // mov rax, qword ptr [rsi]
    for (words, readable) in
        [(vec![Some(code), None], true), (vec![None, None], false)]
    {
        let mut session = Session::attached();
        session.stopped(Signal::Segv);
        session.reply(Reply::Regs(regs()));
        let cmds = session.reply(Reply::Words(words));
        assert_eq!(session.sv.is_some(), readable);
        assert_eq!(cmds.is_empty(), !readable);
        assert!(session.end.is_none());
    }
}

#[test]
fn only_our_accesses_are_logged() {
    let mut session = Session::attached();
    // movsq qword ptr [rdi], qword ptr [rsi]: what `rdi` points to is not ours.
    assert_eq!(session.fault(&[0x48, 0xA5]), routine(0x2000, 2, 0xE000));
    assert_eq!(
        session.stopped(Signal::Stop),
        vec!["setregs 101 ip=0x400000 sp=0x8000", "step 101"]
    );
}

#[test]
fn native_fault_on_other_memory() {
    let mut session = Session::attached();
    // mov dword ptr [rdi], ecx
    let cmds = session.fault(&[0x89, 0x0F]);
    assert_eq!(
        cmds,
        vec![
            "Note(ForeignEvent(Write(AccessRange { addr: 36864, size: 4 }, true)))",
            "Note(RegisterDump(Pid { raw: 101 }))",
            "kill 101"
        ]
    );
    assert_eq!(session.end, Some(ExecEnd(None)));
}

#[test]
fn instructions_that_tell_nothing() {
    // nop, and no instruction at all.
    for code in [[0x90], [0x06]] {
        let mut session = Session::attached();
        assert!(session.fault(&code).is_empty());
        assert!(session.sv.is_none() && session.end.is_none());
    }
}

#[test]
fn a_second_fault_is_fatal() {
    let mut session = Session::attached();
    session.fault(&[0x48, 0x8B, 0x06]);
    session.stopped(Signal::Stop);
    session.stopped(Signal::Segv);
    assert!(session.sv.is_none() && session.end.is_none());
}

fn maps() -> Reply<Found> {
    let libc = |start: usize| Mapping { start, size: 0x1000, file: Some(b"/lib/libc.so".to_vec()) };
    Reply::Maps(vec![libc(0x7000), libc(0x6000)])
}

/// An intercepted call, up to where the shim runs.
fn enter_shim(session: &mut Session, at: usize, ret_addr: usize) -> Vec<String> {
    session.stopped(Signal::Trap);
    assert_eq!(session.query(), Query::GetRegs(CHILD));
    let mut trapped = regs();
    trapped.rip = at + 1;
    assert_eq!(session.reply(Reply::Regs(trapped)), fixes());
    assert_eq!(session.query(), Query::Read(CHILD, 0x8000));
    session.word(ret_addr);
    assert_eq!(session.query(), Query::Maps(CHILD));
    session.reply(maps());
    assert_eq!(session.query(), Query::Read(CHILD, 0xC0));
    session.word(0xabff01)
}

/// The rest of it, with what the shim leaves behind.
fn leave_shim(session: &mut Session, ret_addr: usize, left: &[usize]) -> Vec<String> {
    session.stopped(Signal::Stop);
    assert_eq!(session.query(), Query::Read(CHILD, ret_addr));
    assert_eq!(
        session.word(0x77),
        vec![format!("write 101 {ret_addr:#x} 0xcc"), "cont 101 None".to_string()]
    );
    assert_eq!(session.stopped(Signal::Trap), vec![format!("write 101 {ret_addr:#x} 0x77")]);
    let mut after = regs();
    after.rip = ret_addr + 1;
    assert_eq!(
        session.reply(Reply::Regs(after)),
        vec![format!("setregs 101 ip={ret_addr:#x} sp=0x8000")]
    );
    let mut cmds = vec![];
    for word in left {
        assert!(cmds.is_empty());
        cmds = session.word(*word);
    }
    cmds
}

#[test]
fn calls_go_to_shims() {
    let shims =
        [(0xA0, 0xB0), (0xA1, 0xB1), (0xA2, 0xB2), (0xA3, 0xB3), (0xA4, 0xB4), (0xA5, 0xB5)];
    for (at, shim) in shims {
        let mut session = Session::attached();
        assert_eq!(
            enter_shim(&mut session, at, 0x41_0000),
            vec![
                "write 101 0xc0 0xabff00".to_string(),
                "send []".to_string(),
                format!("setregs 101 ip={shim:#x} sp=0x8000"),
                "cont 101 None".to_string(),
            ]
        );
        let cmds = leave_shim(&mut session, 0x41_0000, &[0, 0]);
        assert_eq!(cmds, with(traps(), &["syscall 101"]));
        assert_eq!(session.query(), Query::Poll);
    }
}

#[test]
fn calls_from_libc_are_marked() {
    let mut session = Session::attached();
    let cmds = enter_shim(&mut session, 0xA0, 0x6123);
    assert_eq!(cmds[0], "write 101 0xc0 0xabff01");
}

#[test]
fn pages_follow_the_shim() {
    let mut session = Session::attached();
    enter_shim(&mut session, 0xA4, 0x41_0000);
    // Two pages come, and one goes.
    let cmds = leave_shim(&mut session, 0x41_0000, &[0x8000, 2, 0x1000, 1]);
    assert_eq!(cmds, with(traps(), &["syscall 101"]));
    // What `rdi` points to is ours now.
    assert_eq!(session.fault(&[0x89, 0x0F]), routine(0x9000, 1, 0xE000));

    let mut session = Session::attached();
    enter_shim(&mut session, 0xA5, 0x41_0000);
    leave_shim(&mut session, 0x41_0000, &[0, 0x1000, 1]);
    // What `rax` points to is not.
    session.fault(&ADD_TO_RAX);
    assert_eq!(session.end, Some(ExecEnd(None)));

    let mut session = Session::attached();
    enter_shim(&mut session, 0xA5, 0x41_0000);
    // That page was never there.
    leave_shim(&mut session, 0x41_0000, &[0, 0x6000, 1]);
    assert!(session.sv.is_none() && session.end.is_none());
}

#[test]
fn accesses_are_handed_over_before_shims() {
    let mut session = Session::attached();
    session.fault(&[0x48, 0x8B, 0x06]);
    session.stopped(Signal::Stop);
    session.stopped(Signal::Trap);
    session.reply(Reply::Regs(regs()));
    session.stopped(Signal::Stop);
    let first = vec![AccessEvent::Read(AccessRange { addr: 0x2000, size: 8 })];
    let cmds = enter_shim(&mut session, 0xA0, 0x41_0000);
    assert_eq!(cmds[1], format!("send {first:?}"));
    // A fault inside of the shim is still logged.
    session.fault(&[0x89, 0x08]);
    session.stopped(Signal::Stop);
    session.stopped(Signal::Trap);
    session.reply(Reply::Regs(regs()));
    assert_eq!(
        session.stopped(Signal::Stop),
        vec!["setregs 101 ip=0x400000 sp=0x8000", "syscall 101"]
    );
    assert_eq!(session.query(), Query::Wait(WaitId::Pid(CHILD)));
    leave_shim(&mut session, 0x41_0000, &[0, 0]);
    let second = vec![AccessEvent::Write(AccessRange { addr: 0x1008, size: 4 }, true)];
    assert_eq!(session.finish(), format!("send {second:?}"));
}

#[test]
fn native_unexpected_breakpoint() {
    let mut session = Session::attached();
    session.stopped(Signal::Trap);
    let cmds = session.reply(Reply::Regs(regs()));
    assert_eq!(cmds, vec!["Note(UnexpectedTrap(4194304))", "syscall 101"]);
    assert_eq!(session.query(), Query::Poll);
}

#[test]
fn no_libc_in_sight() {
    let mut session = Session::attached();
    session.stopped(Signal::Trap);
    let mut trapped = regs();
    trapped.rip = 0xA1;
    session.reply(Reply::Regs(trapped));
    session.word(0x41_0000);
    session.reply(Reply::Maps(vec![]));
    assert!(session.sv.is_none() && session.end.is_none());
}

#[test]
fn native_unexpected_signal() {
    let mut session = Session::attached();
    let cmds = session.stopped(Signal::Other(14));
    assert_eq!(cmds, vec!["Note(UnexpectedSignal(Other(14)))"]);
    assert_eq!(session.query(), Query::TrySyscall(CHILD));
    assert!(session.reply(Reply::Success(true)).is_empty());
    session.stopped(Signal::Other(14));
    assert_eq!(session.reply(Reply::Success(false)), vec!["raise 101 Cont"]);
}

#[test]
fn system_calls_pass() {
    let mut session = Session::attached();
    let status = WaitStatus::PtraceSyscall(CHILD);
    assert_eq!(session.reply(Reply::Status(Some(status))), vec!["syscall 101"]);
    assert_eq!(session.query(), Query::Poll);
}

#[test]
fn deaths_are_reported_last() {
    let mut session = Session::attached();
    session.reply(Reply::Status(Some(WaitStatus::Exited(CHILD, 5))));
    assert_eq!(session.query(), Query::Recv);
    assert_eq!(session.reply(Reply::Request(None)), vec!["Yield"]);
    session.reply(Reply::Status(None));
    assert_eq!(session.end, Some(ExecEnd(Some(5))));

    let mut session = Session::attached();
    session.reply(Reply::Status(Some(WaitStatus::Exited(CHILD, 5))));
    let request = TraceRequest::OverrideRetcode(8);
    assert_eq!(session.reply(Reply::Request(Some(request))), vec!["Confirm", "Yield"]);
    session.reply(Reply::Status(Some(WaitStatus::Signaled(CHILD, Signal::Segv, false))));
    session.reply(Reply::Request(None));
    session.reply(Reply::Status(None));
    assert_eq!(session.end, Some(ExecEnd(Some(8))));

    let mut session = Session::attached();
    session.reply(Reply::Status(Some(WaitStatus::Exited(CHILD, 5))));
    session.reply(Reply::Request(None));
    session.reply(Reply::Status(Some(WaitStatus::Signaled(CHILD, Signal::Segv, false))));
    session.reply(Reply::Request(None));
    session.reply(Reply::Status(None));
    assert_eq!(session.end, Some(ExecEnd(None)));
}

#[test]
fn native_signals_outside_of_calls_are_passed_along() {
    let mut out: Outbox<MemEvents> = Outbox::new();
    let step = ChildListener::new().advance::<MemEvents, ()>(
        Reply::Status(Some(WaitStatus::Stopped(CHILD, Signal::Usr1))),
        &mut out,
    );
    assert!(matches!(step, Step::Ask(next) if next.receiving && !next.attached));
    assert_eq!(show(&out.cmds[0]), "cont 101 Some(Usr1)");
}

#[test]
fn native_a_second_call_is_a_fault() {
    let mut listener = ChildListener::new();
    listener.attached = true;
    listener.receiving = true;
    let info = StartFfiInfo { page_ptrs: vec![], stack_ptr: 0 };
    let mut out: Outbox<MemEvents> = Outbox::new();
    let step = listener
        .advance::<MemEvents, ()>(Reply::Request(Some(TraceRequest::StartFfi(info))), &mut out);
    assert!(matches!(step, Step::Abort));
    let step = ChildListener::new().advance::<MemEvents, ()>(Reply::Status(None), &mut out);
    assert!(matches!(step, Step::Done((_, ExecEvent::Died(None)))));
}

#[test]
fn other_signals_are_delivered_while_waiting() {
    let mut out: Outbox<MemEvents> = Outbox::new();
    let wait =
        WaitForSignal::wait_for_signal(Some(CHILD), Signal::Stop, InitialCont::Yes, &mut out);
    let stop = |signal: Signal| Reply::<()>::Status(Some(WaitStatus::Stopped(CHILD, signal)));
    let resuming = match wait.advance(stop(Signal::Usr1), &mut out) {
        Step::Ask(wait) => wait,
        _ => panic!("another signal ended the wait"),
    };
    assert_eq!(resuming.query(), Query::TryCont(CHILD, Some(Signal::Usr1)));
    let step = resuming.advance(Reply::<()>::Success(true), &mut out);
    assert!(matches!(step, Step::Ask(next) if next == wait));
    let step = resuming.advance(Reply::<()>::Success(false), &mut out);
    assert!(matches!(step, Step::Done(Err(ExecEnd(None)))));
    let step = wait.advance(stop(Signal::Stop), &mut out);
    assert!(matches!(step, Step::Done(Ok(CHILD))));
    let step = wait.advance(Reply::<()>::Status(Some(WaitStatus::Exited(CHILD, 2))), &mut out);
    assert!(matches!(step, Step::Done(Err(ExecEnd(Some(2))))));
}

#[test]
fn one_wait_without_a_pid() {
    let mut out: Outbox<MemEvents> = Outbox::new();
    let wait = WaitForSignal::wait_for_signal(None, Signal::Stop, InitialCont::No, &mut out);
    assert_eq!(wait.query(), Query::Wait(WaitId::All));
    let other = Reply::<()>::Status(Some(WaitStatus::Stopped(CHILD, Signal::Usr1)));
    let resuming = match wait.advance(other, &mut out) {
        Step::Ask(wait) => wait,
        _ => panic!("the signal was not delivered"),
    };
    assert_eq!(resuming.query(), Query::TryCont(CHILD, Some(Signal::Usr1)));
    let step = resuming.advance(Reply::<()>::Success(true), &mut out);
    assert!(matches!(step, Step::Done(Err(ExecEnd(None)))));
    let syscall = Reply::<()>::Status(Some(WaitStatus::PtraceSyscall(CHILD)));
    assert!(matches!(wait.advance(syscall, &mut out), Step::Abort));
    assert!(out.cmds.is_empty());
}

#[test]
fn functions_are_recognized() {
    let table = table();
    assert_eq!(table.get_libc_fn(0xA1), Some(LibcFn::Malloc));
    assert_eq!(table.get_libc_fn(0xA2), Some(LibcFn::Calloc));
    assert_eq!(table.get_libc_fn(0xA3), Some(LibcFn::AlignedAlloc));
    assert_eq!(table.get_libc_fn(0xA4), Some(LibcFn::PosixMemalign));
    assert_eq!(table.get_libc_fn(0xA5), Some(LibcFn::Realloc));
    assert_eq!(table.get_libc_fn(0xA6), Some(LibcFn::Free));
    assert_eq!(table.get_libc_fn(0xA0), None);
    assert_eq!(LibcFn::PosixMemalign.shim_addr(&table), 0xB3);
    let mut out: Outbox<MemEvents> = Outbox::new();
    table.trap_libc(CHILD, &mut out);
    table.fixup_libc(CHILD, &mut out);
    let cmds: Vec<String> = out.cmds.iter().map(show).collect();
    let expected: Vec<String> = traps().into_iter().chain(fixes()).collect();
    assert_eq!(cmds, expected);
}
