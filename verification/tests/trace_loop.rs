use ffi_trace::arch::Arch;
use ffi_trace::disasm::{get_disasm, Disassembler};
use ffi_trace::mempr::MemprLayout;
use ffi_trace::messages::{ExecEvent, StartFfiInfo, TraceRequest};
use ffi_trace::regs::UserRegs;
use ffi_trace::trace::libc_events::MagicLibcValues;
use ffi_trace::trace::listener::ChildListener;
use ffi_trace::trace::segfault::Found;
use ffi_trace::trace::sv_loop::{sv_loop, SvEnv, SvLoop};
use ffi_trace::trace::wait::{WaitForSignal, WaitForSyscall};
use ffi_trace::trace::{ExecError, MemEvents};
use ffi_trace::tracee::{Command, Outbox, Pid, Query, Reply, Signal, Step, WaitId, WaitStatus};

const MAIN: Pid = Pid { raw: 100 };
const PAGE: usize = 0x1000;
const MALLOC: usize = 0xA000;
const REALLOC: usize = 0xB000;
const FREE: usize = 0xC000;
const OFF: usize = 0xE000;
const ON: usize = 0xF000;

fn regs() -> UserRegs {
    UserRegs {
        r15: 0,
        r14: 0,
        r13: 0,
        r12: 0,
        rbp: 0,
        rbx: 0,
        r11: 0,
        r10: 0,
        r9: 0,
        r8: 0,
        rax: 0,
        rcx: 0,
        rdx: 0,
        rsi: 0,
        rdi: 0,
        orig_rax: 0,
        rip: 0x40_0000,
        cs: 0,
        eflags: 0,
        rsp: 0x8000,
        ss: 0,
        fs_base: 0,
        gs_base: 0,
        ds: 0,
        es: 0,
        fs: 0,
        gs: 0,
    }
}

fn env() -> SvEnv {
    SvEnv {
        layout: MemprLayout {
            page_size: PAGE,
            off: OFF,
            on: ON,
            page_addr_at: 0xD0,
            page_count_at: 0xD8,
        },
        libc_vals: MagicLibcValues {
            malloc_addr: MALLOC,
            realloc_addr: REALLOC,
            free_addr: FREE,
            malloc_bytes: 1,
            realloc_bytes: 2,
            free_bytes: 3,
        },
        sys_mmap: 9,
        sys_munmap: 11,
    }
}

/// The words that these bytes make up.
fn words(code: &[u8]) -> Reply<Found> {
    let word = |chunk: &[u8]| chunk.iter().rev().fold(0, |word, byte| word * 256 + *byte as usize);
    Reply::Words(code.chunks(8).map(|chunk| Some(word(chunk))).collect())
}

fn show(cmd: &Command<MemEvents>) -> String {
    match cmd {
        Command::SetRegs(pid, regs) =>
            format!("setregs {} ip={:#x} sp={:#x}", pid.raw, regs.rip, regs.rsp),
        Command::Write(pid, addr, word) => format!("write {} {addr:#x} {word:#x}", pid.raw),
        Command::Cont(pid, signal) => format!("cont {} {signal:?}", pid.raw),
        Command::Syscall(pid) => format!("syscall {}", pid.raw),
        Command::Step(pid) => format!("step {}", pid.raw),
        Command::Kill(pid) => format!("kill {}", pid.raw),
        Command::Raise(pid, signal) => format!("raise {} {signal:?}", pid.raw),
        other => format!("{other:?}"),
    }
}

struct Session {
    sv: Option<SvLoop>,
    disasm: Disassembler,
    end: Option<Option<i32>>,
}

impl Session {
    fn new() -> Session {
        let sv = sv_loop(ChildListener::new(MAIN), env());
        Session { sv: Some(sv), disasm: get_disasm(Arch::X86_64).unwrap(), end: None }
    }

    fn query(&self) -> Query {
        self.sv.as_ref().unwrap().query()
    }

    fn reply(&mut self, reply: Reply<Found>) -> Vec<String> {
        let mut out = Outbox::new();
        match self.sv.take().unwrap().step(&self.disasm, reply, &mut out) {
            Step::Ask(sv) => self.sv = Some(sv),
            Step::Done(code) => self.end = Some(code),
            Step::Abort => {}
        }
        out.cmds.iter().map(show).collect()
    }

    fn status(&mut self, status: WaitStatus) -> Vec<String> {
        self.reply(Reply::Status(Some(status)))
    }

    fn stopped(&mut self, signal: Signal) -> Vec<String> {
        self.status(WaitStatus::Stopped(MAIN, signal))
    }

    /// A supervisor whose child has begun to call foreign code.
    fn attached() -> Session {
        let mut session = Session::new();
        assert_eq!(session.query(), Query::Wait(WaitId::Pid(MAIN)));
        assert_eq!(session.stopped(Signal::Stop), vec!["cont 100 None"]);
        assert_eq!(session.query(), Query::Poll);
        session.status(WaitStatus::StillAlive);
        assert_eq!(session.query(), Query::Recv);
        let info = StartFfiInfo { page_ptrs: vec![0x1000, 0x2000, 0x9000], stack_ptr: 0x5000 };
        let cmds = session.reply(Reply::Request(Some(TraceRequest::StartFfi(info))));
        assert_eq!(cmds, vec!["Confirm"]);
        assert_eq!(session.query(), Query::Wait(WaitId::Pid(MAIN)));
        assert_eq!(
            session.stopped(Signal::Stop),
            vec![
                "write 100 0xa000 0xcc",
                "write 100 0xb000 0xcc",
                "write 100 0xc000 0xcc",
                "syscall 100"
            ]
        );
        session
    }

    /// The end of the call, and the events that are handed over.
    fn finish(mut self) -> String {
        let cmds = self.stopped(Signal::Usr1);
        assert_eq!(
            cmds[1..],
            ["write 100 0xa000 0x1", "write 100 0xb000 0x2", "write 100 0xc000 0x3", "cont 100 None"]
        );
        assert_eq!(self.query(), Query::Poll);
        cmds[0].clone()
    }
}

fn empty_events() -> String {
    format!(
        "{:?}",
        Command::SendEvents(MemEvents {
            acc_events: vec![],
            alloc_cutoff: PAGE,
            libc_events: vec![],
            mmap_events: vec![],
        })
    )
}

#[test]
fn a_call_without_events() {
    assert_eq!(Session::attached().finish(), empty_events());
}

#[test]
fn initial_stop_never_comes() {
    let mut session = Session::new();
    session.status(WaitStatus::Exited(MAIN, 7));
    assert_eq!(session.end, Some(Some(7)));
    let mut session = Session::new();
    session.reply(Reply::Status(None));
    assert_eq!(session.end, Some(None));
}

#[test]
fn fault_on_our_memory() {
    let mut session = Session::attached();
    assert_eq!(session.stopped(Signal::Segv), Vec::<String>::new());
    assert_eq!(session.query(), Query::FaultAddr(MAIN));
    session.reply(Reply::MaybeAddr(Some(0x1ffc)));
    assert_eq!(session.query(), Query::GetRegs(MAIN));
    // The next page is ours too.
    assert_eq!(
        session.reply(Reply::Regs(regs())),
        vec![
            "write 100 0xd0 0x1000",
            "write 100 0xd8 0x2",
            "setregs 100 ip=0xe000 sp=0x5200",
            "cont 100 None"
        ]
    );
    assert_eq!(session.query(), Query::Wait(WaitId::Pid(MAIN)));
    assert_eq!(
        session.stopped(Signal::Stop),
        vec!["setregs 100 ip=0x400000 sp=0x8000", "step 100"]
    );
    session.stopped(Signal::Trap);
    assert_eq!(session.query(), Query::GetRegs(MAIN));
    let mut after = regs();
    after.rip += 3;
    session.reply(Reply::Regs(after));
    assert_eq!(
        session.query(),
        Query::ReadWords { pid: MAIN, addr: 0x40_0000, stride: 8, count: 1, lenient: false }
    );
    // add qword ptr [rax], rbx
    let code = vec![0x48, 0x01, 0x18, 0x90, 0x90, 0x90, 0x90, 0x90];
    assert_eq!(
        session.reply(words(&code)),
        vec!["setregs 100 ip=0xf000 sp=0x5200", "cont 100 None"]
    );
    assert_eq!(
        session.stopped(Signal::Stop),
        vec!["setregs 100 ip=0x400003 sp=0x8000", "syscall 100"]
    );
    let sent = session.finish();
    assert!(sent.contains("acc_events: [Read(8188..8196), Write(8188..8196)]"));
    assert!(sent.contains("alloc_cutoff: 4096"));
}

#[test]
fn fault_by_a_long_instruction() {
    let mut session = Session::attached();
    session.stopped(Signal::Segv);
    session.reply(Reply::MaybeAddr(Some(0x2010)));
    session.reply(Reply::Regs(regs()));
    session.stopped(Signal::Stop);
    session.stopped(Signal::Trap);
    let mut after = regs();
    after.rip += 11;
    session.reply(Reply::Regs(after));
    assert_eq!(
        session.query(),
        Query::ReadWords { pid: MAIN, addr: 0x40_0000, stride: 8, count: 2, lenient: false }
    );
    // mov qword ptr [rbx + 0x11223344], 1
    let code =
        [0x48, 0xC7, 0x83, 0x44, 0x33, 0x22, 0x11, 0x01, 0x00, 0x00, 0x00, 0x90, 0x90, 0x90, 0x90, 0x90];
    session.reply(words(&code));
    session.stopped(Signal::Stop);
    assert!(session.finish().contains("acc_events: [Write(8208..8216)]"));
}

#[test]
fn fault_on_a_lone_page() {
    let mut session = Session::attached();
    session.stopped(Signal::Segv);
    session.reply(Reply::MaybeAddr(Some(0x9abc)));
    let cmds = session.reply(Reply::Regs(regs()));
    assert_eq!(cmds[..2], ["write 100 0xd0 0x9000", "write 100 0xd8 0x1"]);
}

#[test]
fn fault_on_other_memory() {
    let mut session = Session::attached();
    session.stopped(Signal::Segv);
    let cmds = session.reply(Reply::MaybeAddr(Some(0x3000)));
    assert_eq!(
        cmds,
        vec![
            "Note(ForeignAccess(12288))",
            "Note(ExpectedPage(4096))",
            "Note(ExpectedPage(8192))",
            "Note(ExpectedPage(36864))",
            "Note(RegisterDump(Pid { raw: 100 }))",
            "kill 100"
        ]
    );
    assert_eq!(session.end, Some(None));
}

#[test]
fn fault_that_tells_nothing() {
    let mut session = Session::attached();
    session.stopped(Signal::Segv);
    session.reply(Reply::MaybeAddr(None));
    assert_eq!(session.query(), Query::Poll);
}

#[test]
fn death_with_memory_open() {
    let mut session = Session::attached();
    session.stopped(Signal::Segv);
    session.reply(Reply::MaybeAddr(Some(0x1000)));
    session.reply(Reply::Regs(regs()));
    session.stopped(Signal::Stop);
    session.reply(Reply::Status(None));
    assert_eq!(session.end, Some(None));
}

/// Lets an intercepted function run and return.
fn intercept(session: &mut Session, at: usize, original: usize, trapped: UserRegs, rax: usize) {
    session.stopped(Signal::Trap);
    assert_eq!(session.query(), Query::TryGetRegs(MAIN));
    session.reply(Reply::MaybeRegs(Some(trapped)));
    assert_eq!(session.query(), Query::TryRead(MAIN, 0x8000));
    session.reply(Reply::MaybeWord(Some(0x41_0000)));
    assert_eq!(session.query(), Query::Read(MAIN, 0x41_0000));
    assert_eq!(
        session.reply(Reply::Word(0x77)),
        vec![
            "write 100 0x410000 0xcc".to_string(),
            format!("write 100 {at:#x} {original:#x}"),
            format!("setregs 100 ip={at:#x} sp=0x8000"),
            "cont 100 None".to_string(),
        ]
    );
    session.stopped(Signal::Trap);
    assert_eq!(session.query(), Query::GetRegs(MAIN));
    let mut after = regs();
    after.rip = 0x41_0001;
    after.rax = rax;
    assert_eq!(
        session.reply(Reply::Regs(after)),
        vec![
            format!("write 100 {at:#x} 0xcc"),
            "write 100 0x410000 0x77".to_string(),
            "setregs 100 ip=0x410000 sp=0x8000".to_string(),
            "syscall 100".to_string(),
        ]
    );
    assert_eq!(session.query(), Query::Poll);
}

fn calling(at: usize, rdi: usize, rsi: usize) -> UserRegs {
    let mut regs = regs();
    regs.rip = at + 1;
    regs.rdi = rdi;
    regs.rsi = rsi;
    regs
}

#[test]
fn allocations_are_recorded() {
    let mut session = Session::attached();
    intercept(&mut session, MALLOC, 1, calling(MALLOC, 0x20, 0), 0x100);
    intercept(&mut session, MALLOC, 1, calling(MALLOC, 0x10, 0), 0x200);
    // This one fails.
    intercept(&mut session, MALLOC, 1, calling(MALLOC, 0x10, 0), usize::MAX);
    intercept(&mut session, REALLOC, 2, calling(REALLOC, 0x100, 0x40), 0x300);
    intercept(&mut session, FREE, 3, calling(FREE, 0x900, 0), 0);
    intercept(&mut session, FREE, 3, calling(FREE, 0x208, 0), 0);
    assert!(session.finish().contains("libc_events: [Malloc(768..832), Free(2304)]"));
}

#[test]
fn failed_allocations_are_not_recorded() {
    let mut session = Session::attached();
    intercept(&mut session, MALLOC, 1, calling(MALLOC, 0x40, 0), 0);
    intercept(&mut session, MALLOC, 1, calling(MALLOC, 0x20, 0), 0x100);
    // The old pointer stays as it was.
    intercept(&mut session, REALLOC, 2, calling(REALLOC, 0x100, 0x40), 0);
    intercept(&mut session, REALLOC, 2, calling(REALLOC, 0x900, 0x40), 0);
    assert!(session.finish().contains("libc_events: [Malloc(256..288)]"));
}

#[test]
fn reallocating_to_nothing_frees() {
    let mut session = Session::attached();
    intercept(&mut session, MALLOC, 1, calling(MALLOC, 0x20, 0), 0x100);
    intercept(&mut session, REALLOC, 2, calling(REALLOC, 0x100, 0), 0);
    intercept(&mut session, REALLOC, 2, calling(REALLOC, 0x900, 0), 0);
    assert!(session.finish().contains("libc_events: [Free(2304)]"));
}

#[test]
fn unexpected_breakpoint() {
    let mut session = Session::attached();
    session.stopped(Signal::Trap);
    let cmds = session.reply(Reply::MaybeRegs(Some(calling(0x40_0000, 0, 0))));
    assert_eq!(cmds, vec!["Note(UnexpectedTrap(4194304))", "syscall 100"]);
    assert_eq!(session.query(), Query::Poll);
}

#[test]
fn unexpected_signal() {
    let mut session = Session::attached();
    let cmds = session.stopped(Signal::Other(14));
    assert_eq!(cmds, vec!["Note(UnexpectedSignal(Other(14)))"]);
    assert_eq!(session.query(), Query::TrySyscall(MAIN));
    assert_eq!(session.reply(Reply::Success(false)), vec!["raise 100 Cont"]);
    assert_eq!(session.query(), Query::Poll);
}

fn syscall(session: &mut Session, nr: usize, rdi: usize, rsi: usize, rax: usize) {
    session.status(WaitStatus::PtraceSyscall(MAIN));
    assert_eq!(session.query(), Query::GetRegs(MAIN));
    let mut entering = regs();
    entering.orig_rax = nr;
    entering.rdi = rdi;
    entering.rsi = rsi;
    assert_eq!(session.reply(Reply::Regs(entering)), vec!["syscall 100"]);
    session.status(WaitStatus::PtraceSyscall(MAIN));
    let mut leaving = regs();
    leaving.orig_rax = nr;
    leaving.rax = rax;
    assert_eq!(session.reply(Reply::Regs(leaving)), vec!["syscall 100"]);
    assert_eq!(session.query(), Query::Poll);
}

#[test]
fn mappings_are_recorded() {
    let mut session = Session::attached();
    syscall(&mut session, 9, 0, 0x3000, 0x10000);
    // This one fails.
    syscall(&mut session, 9, 0, 0x1000, usize::MAX);
    syscall(&mut session, 11, 0x11000, 0x1000, 0);
    // So does this.
    syscall(&mut session, 11, 0x10000, 0x1000, usize::MAX);
    syscall(&mut session, 11, 0x50000, 0x1000, 0);
    assert!(session.finish().contains("mmap_events: [Mmap(65536), Mmap(73728), Munmap(327680)]"));
}

#[test]
fn other_system_calls_pass() {
    let mut session = Session::attached();
    session.status(WaitStatus::PtraceSyscall(MAIN));
    let mut entering = regs();
    entering.orig_rax = 1;
    assert_eq!(session.reply(Reply::Regs(entering)), vec!["syscall 100"]);
    assert_eq!(session.query(), Query::Poll);
}

#[test]
fn each_call_is_reported_once() {
    let mut session = Session::attached();
    syscall(&mut session, 9, 0, 0x1000, 0x10000);
    intercept(&mut session, MALLOC, 1, calling(MALLOC, 0x20, 0), 0x100);
    let first = session.stopped(Signal::Usr1);
    session.status(WaitStatus::StillAlive);
    let info = StartFfiInfo { page_ptrs: vec![], stack_ptr: 0x5000 };
    session.reply(Reply::Request(Some(TraceRequest::StartFfi(info))));
    session.stopped(Signal::Stop);
    intercept(&mut session, FREE, 3, calling(FREE, 0x100, 0), 0);
    syscall(&mut session, 11, 0x10000, 0x1000, 0);
    let second = session.finish();
    assert_eq!(first.iter().filter(|cmd| cmd.starts_with("SendEvents")).count(), 1);
    assert!(first[0].contains("libc_events: [Malloc(256..288)], mmap_events: [Mmap(65536)]"));
    assert!(second.contains("libc_events: [Free(256)], mmap_events: [Munmap(65536)]"));
}

#[test]
fn record_starts_afresh() {
    let mut session = Session::attached();
    syscall(&mut session, 9, 0, 0x1000, 0x10000);
    session.stopped(Signal::Usr1);
    session.status(WaitStatus::StillAlive);
    let info = StartFfiInfo { page_ptrs: vec![], stack_ptr: 0x5000 };
    session.reply(Reply::Request(Some(TraceRequest::StartFfi(info))));
    session.stopped(Signal::Stop);
    assert_eq!(session.finish(), empty_events());
}

fn hear(
    listener: ChildListener,
    reply: Reply<()>,
) -> (Step<ChildListener, (ChildListener, ExecEvent)>, Vec<String>) {
    let mut out = Outbox::new();
    let step = listener.advance(reply, &mut out);
    (step, out.cmds.iter().map(show).collect())
}

#[test]
fn deaths_are_reported() {
    let mut listener = ChildListener::new(MAIN);
    let (step, _) = hear(listener, Reply::Status(Some(WaitStatus::Exited(MAIN, 3))));
    assert!(matches!(step, Step::Done((_, ExecEvent::Died(Some(3))))));
    let (step, _) =
        hear(listener, Reply::Status(Some(WaitStatus::Signaled(MAIN, Signal::Segv, true))));
    assert!(matches!(step, Step::Done((_, ExecEvent::Died(None)))));
    listener.receiving = true;
    let (step, cmds) = hear(listener, Reply::Request(Some(TraceRequest::OverrideRetcode(9))));
    assert_eq!(cmds, vec!["Yield"]);
    let listener = match step {
        Step::Ask(listener) => listener,
        _ => panic!("the listener stopped listening"),
    };
    let (step, _) = hear(listener, Reply::Status(Some(WaitStatus::Exited(MAIN, 3))));
    assert!(matches!(step, Step::Done((_, ExecEvent::Died(Some(9))))));
    let (step, _) =
        hear(listener, Reply::Status(Some(WaitStatus::Signaled(MAIN, Signal::Segv, true))));
    assert!(matches!(step, Step::Done((_, ExecEvent::Died(Some(9))))));
    let (step, _) = hear(listener, Reply::Status(None));
    assert!(matches!(step, Step::Done((_, ExecEvent::Died(Some(9))))));
    let (step, _) = hear(ChildListener::new(MAIN), Reply::Status(None));
    assert!(matches!(step, Step::Done((_, ExecEvent::Died(None)))));
}

#[test]
fn signals_outside_of_calls_are_passed_along() {
    let listener = ChildListener::new(MAIN);
    let (step, cmds) =
        hear(listener, Reply::Status(Some(WaitStatus::Stopped(MAIN, Signal::Usr1))));
    assert_eq!(cmds, vec!["Note(IgnoringStop(Usr1))", "raise 100 Usr1"]);
    let event = WaitStatus::PtraceEvent(MAIN, Signal::Stop, 3);
    let (_, cmds) = hear(listener, Reply::Status(Some(event)));
    assert_eq!(cmds, vec!["Note(IgnoringEvent(Stop))", "raise 100 Stop"]);
    assert!(matches!(step, Step::Ask(next) if next.receiving && !next.attached));
    let (step, cmds) = hear(listener, Reply::Status(Some(WaitStatus::PtraceSyscall(MAIN))));
    assert!(cmds.is_empty() && matches!(step, Step::Ask(next) if next.receiving));
}

#[test]
fn a_second_call_is_a_fault() {
    let mut listener = ChildListener::new(MAIN);
    listener.attached = true;
    listener.receiving = true;
    let info = StartFfiInfo { page_ptrs: vec![], stack_ptr: 0 };
    let (step, _) = hear(listener, Reply::Request(Some(TraceRequest::StartFfi(info))));
    assert!(matches!(step, Step::Abort));
}

#[test]
fn waiting_for_a_signal() {
    let mut out: Outbox<MemEvents> = Outbox::new();
    let wait = WaitForSignal::wait_for_signal(MAIN, Signal::Stop, true, &mut out);
    let step = wait.advance::<MemEvents, ()>(
        Reply::Status(Some(WaitStatus::Stopped(MAIN, Signal::Usr1))),
        &mut out,
    );
    let resuming = match step {
        Step::Ask(wait) => wait,
        _ => panic!("another signal ended the wait"),
    };
    assert_eq!(resuming.query(), Query::TryCont(MAIN, None));
    let step = resuming.advance::<MemEvents, ()>(Reply::Success(false), &mut out);
    assert!(matches!(step, Step::Done(Err(ExecError::Died(None)))));
    let step = wait.advance::<MemEvents, ()>(
        Reply::Status(Some(WaitStatus::PtraceSyscall(MAIN))),
        &mut out,
    );
    assert!(matches!(step, Step::Ask(next) if next == wait));
    let step = wait.advance::<MemEvents, ()>(
        Reply::Status(Some(WaitStatus::PtraceEvent(MAIN, Signal::Stop, 1))),
        &mut out,
    );
    assert!(matches!(step, Step::Done(Ok(()))));
    let cmds: Vec<String> = out.cmds.iter().map(show).collect();
    assert_eq!(cmds, vec!["cont 100 None", "cont 100 None"]);
}

#[test]
fn waiting_for_a_system_call() {
    let mut out: Outbox<MemEvents> = Outbox::new();
    let wait = WaitForSyscall::wait_for_syscall(MAIN, 9, &mut out);
    let step = wait.advance::<()>(Reply::Status(Some(WaitStatus::Stopped(MAIN, Signal::Stop))));
    assert!(matches!(step, Step::Abort));
    let step = wait.advance::<()>(Reply::Status(Some(WaitStatus::Exited(MAIN, 4))));
    assert!(matches!(step, Step::Done(Err(ExecError::Died(Some(4))))));
    let left = match wait.advance::<()>(Reply::Status(Some(WaitStatus::PtraceSyscall(MAIN)))) {
        Step::Ask(wait) => wait,
        _ => panic!("the system call was not waited for"),
    };
    let mut other = regs();
    other.orig_rax = 10;
    assert!(matches!(left.advance::<()>(Reply::Regs(other)), Step::Abort));
    other.orig_rax = 9;
    assert!(matches!(left.advance::<()>(Reply::Regs(other)), Step::Done(Ok(_))));
}
