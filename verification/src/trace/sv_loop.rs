//! The main loop of the supervisor.
use vstd::prelude::*;

use crate::arch::{Arch, BREAKPT_INSTR};
use crate::disasm::{instr_operands, DisasmError, Disassembler};
use crate::mempr::MemprLayout;
use crate::messages::ExecEvent;
use crate::pages::check_run;
use crate::regs::UserRegs;
use crate::trace::libc_events::MagicLibcValues;
use crate::trace::listener::ChildListener;
use crate::trace::mmap_events::{any_mapped, record_mmap, record_munmap};
use crate::trace::segfault::{Found, SegfaultHandler};
use crate::trace::sigtrap::SigtrapHandler;
use crate::trace::wait::{WaitForSignal, WaitForSyscall};
use crate::trace::{AccessEvent, ExecError, LibcEvent, MemEvents, MmapEvent};
use crate::tracee::{Command, Note, Outbox, Pid, Query, Reply, Signal, Step, Turn};
use crate::words::to_bytes;

verus! {

/// The final results of an FFI trace, as plain sequences.
pub ghost struct MemRecord {
    pub acc_events: Seq<AccessEvent>,
    pub alloc_cutoff: usize,
    pub libc_events: Seq<LibcEvent>,
    pub mmap_events: Seq<MmapEvent>,
}

impl View for MemEvents {
    type V = MemRecord;

    open spec fn view(&self) -> MemRecord {
        MemRecord {
            acc_events: self.acc_events@,
            alloc_cutoff: self.alloc_cutoff,
            libc_events: self.libc_events@,
            mmap_events: self.mmap_events@,
        }
    }
}

/// What stays the same for as long as a supervisor runs.
#[derive(Debug, Clone, Copy, PartialEq, Eq, Structural)]
pub struct SvEnv {
    pub layout: MemprLayout,
    pub libc_vals: MagicLibcValues,
    /// The number of the system call `mmap`.
    pub sys_mmap: isize,
    /// The number of the system call `munmap`.
    pub sys_munmap: isize,
}

/// What a supervisor is in the middle of.
#[derive(Debug, Clone, Copy, PartialEq, Eq, Structural)]
pub enum SvMode {
    /// The child has yet to stop for the first time.
    Starting(WaitForSignal),
    /// Nothing; it looks for what happens to the child.
    Listening,
    /// The child is about to call foreign code.
    Beginning(WaitForSignal),
    /// A fault is being handled.
    Segfault(SegfaultHandler),
    /// A breakpoint is being handled.
    Sigtrap(SigtrapHandler),
    /// The thread is being let run on past a signal that means nothing here.
    Resuming(Pid),
    /// The thread has entered a system call, and its registers are being looked at.
    Entering(Pid),
    /// The thread is mapping so many pages.
    Mmap { pid: Pid, count: usize, wait: WaitForSyscall },
    /// The thread is unmapping so many pages from an address on.
    Munmap { pid: Pid, addr: usize, count: usize, wait: WaitForSyscall },
}

/// The main loop of the supervisor process.
pub struct SvLoop {
    env: SvEnv,
    listener: ChildListener,
    mode: SvMode,
    ch_pages: Vec<usize>,
    ch_stack: Option<usize>,
    acc_events: Vec<AccessEvent>,
    mmap_events: Vec<MmapEvent>,
    libc_events: Vec<LibcEvent>,
}

/// The state of the main loop, as plain values.
pub ghost struct SvState {
    pub env: SvEnv,
    pub listener: ChildListener,
    pub mode: SvMode,
    /// The pages that foreign code was given.
    pub ch_pages: Seq<usize>,
    /// The stack that was set aside, during a call of foreign code.
    pub ch_stack: Option<usize>,
    /// What is on record and not yet handed over.
    pub acc_events: Seq<AccessEvent>,
    pub mmap_events: Seq<MmapEvent>,
    pub libc_events: Seq<LibcEvent>,
}

impl View for SvLoop {
    type V = SvState;

    closed spec fn view(&self) -> SvState {
        SvState {
            env: self.env,
            listener: self.listener,
            mode: self.mode,
            ch_pages: self.ch_pages@,
            ch_stack: self.ch_stack,
            acc_events: self.acc_events@,
            mmap_events: self.mmap_events@,
            libc_events: self.libc_events@,
        }
    }
}

/// What one turn of the main loop comes to. The loop ends only with the child, whose
/// return code is given if it is known.
pub type SvTurn = Turn<MemRecord, SvState, Option<i32>>;

impl SvState {
    /// The loop as it begins.
    pub open spec fn initial(listener: ChildListener, env: SvEnv) -> SvState {
        SvState {
            env,
            listener,
            mode: SvMode::Starting(WaitForSignal::fresh(listener.pid, Signal::Stop)),
            ch_pages: seq![],
            ch_stack: None,
            acc_events: seq![],
            mmap_events: seq![],
            libc_events: seq![],
        }
    }

    /// Whether the state is one that the loop can be in.
    pub open spec fn wf(self) -> bool {
        &&& self.env.layout.page_size > 0
        &&& match self.mode {
            SvMode::Segfault(handler) => handler.wf() && self.ch_stack is Some,
            _ => true,
        }
    }

    /// What the loop hangs on.
    pub open spec fn asks(self) -> Query {
        match self.mode {
            SvMode::Starting(wait) => wait.asks(),
            SvMode::Listening => self.listener.asks(),
            SvMode::Beginning(wait) => wait.asks(),
            SvMode::Segfault(handler) => handler.asks(),
            SvMode::Sigtrap(handler) => handler.asks(),
            SvMode::Resuming(pid) => Query::TrySyscall(pid),
            SvMode::Entering(pid) => Query::GetRegs(pid),
            SvMode::Mmap { wait, .. } => wait.asks(),
            SvMode::Munmap { wait, .. } => wait.asks(),
        }
    }

    /// Everything that is on record.
    pub open spec fn record(self) -> MemRecord {
        MemRecord {
            acc_events: self.acc_events,
            alloc_cutoff: self.env.layout.page_size,
            libc_events: self.libc_events,
            mmap_events: self.mmap_events,
        }
    }

    /// The loop goes over to another mode.
    pub open spec fn enter(self, mode: SvMode, cmds: Seq<Command<MemRecord>>) -> SvTurn {
        Turn { cmds, step: Step::Ask(SvState { mode, ..self }) }
    }

    /// The loop goes back to looking for what happens to the child.
    pub open spec fn listen(self, cmds: Seq<Command<MemRecord>>) -> SvTurn {
        self.enter(SvMode::Listening, cmds)
    }

    /// A procedure is over that could fail.
    pub open spec fn recover(
        self,
        result: Result<(), ExecError>,
        cmds: Seq<Command<MemRecord>>,
    ) -> SvTurn {
        match result {
            Err(ExecError::Died(code)) => Turn { cmds, step: Step::Done(code) },
            _ => self.listen(cmds),
        }
    }

    /// What an event leads to.
    pub open spec fn on_event(self, event: ExecEvent) -> SvTurn {
        let main = self.listener.pid;
        match event {
            ExecEvent::Start(info) => (SvState {
                ch_pages: info.page_ptrs@,
                ch_stack: Some(info.stack_ptr),
                ..self
            }).enter(
                SvMode::Beginning(WaitForSignal::fresh(main, Signal::Stop)),
                seq![Command::Confirm],
            ),
            ExecEvent::End => (SvState {
                ch_stack: None,
                acc_events: seq![],
                mmap_events: seq![],
                libc_events: seq![],
                ..self
            }).listen(
                seq![Command::SendEvents(self.record())] + self.env.libc_vals.restoring(main)
                    + seq![Command::Cont(main, None)],
            ),
            ExecEvent::Status(pid, Signal::Segv) => if self.ch_stack is None {
                Turn { cmds: seq![], step: Step::Abort }
            } else {
                self.enter(
                    SvMode::Segfault(
                        SegfaultHandler {
                            pid,
                            phase: crate::trace::segfault::SegfaultPhase::Locating,
                        },
                    ),
                    seq![],
                )
            },
            ExecEvent::Status(pid, Signal::Trap) => self.enter(
                SvMode::Sigtrap(SigtrapHandler::GettingRegs(pid)),
                seq![],
            ),
            ExecEvent::Status(pid, signal) => self.enter(
                SvMode::Resuming(pid),
                seq![Command::Note(Note::UnexpectedSignal(signal))],
            ),
            ExecEvent::Syscall(pid) => self.enter(SvMode::Entering(pid), seq![]),
            ExecEvent::Died(code) => Turn { cmds: seq![], step: Step::Done(code) },
        }
    }

    /// What follows when a thread has entered a system call with these registers.
    pub open spec fn on_entry(self, pid: Pid, regs: UserRegs) -> SvTurn {
        let nr = crate::regs::signed(regs.orig_rax);
        let page_size = self.env.layout.page_size;
        let count = regs.rsi / page_size;
        if nr == self.env.sys_mmap {
            self.enter(
                SvMode::Mmap { pid, count, wait: WaitForSyscall::fresh(pid, self.env.sys_mmap) },
                seq![Command::Syscall(pid)],
            )
        } else if nr == self.env.sys_munmap {
            if crate::trace::mmap_events::has_mapping(self.mmap_events) && !crate::pages::run_fits(
                regs.rdi,
                count,
                page_size,
            ) {
                Turn { cmds: seq![], step: Step::Abort }
            } else {
                self.enter(
                    SvMode::Munmap {
                        pid,
                        addr: regs.rdi,
                        count,
                        wait: WaitForSyscall::fresh(pid, self.env.sys_munmap),
                    },
                    seq![Command::Syscall(pid)],
                )
            }
        } else {
            self.listen(seq![Command::Syscall(pid)])
        }
    }

    /// What follows when a thread has come back from `mmap` with these registers. A
    /// negative value means that it failed, any other is the address of the pages.
    pub open spec fn on_mapped(self, pid: Pid, count: usize, regs: UserRegs) -> SvTurn {
        let page_size = self.env.layout.page_size;
        if crate::regs::signed(regs.rax) < 0 {
            self.listen(seq![Command::Syscall(pid)])
        } else if !crate::pages::run_fits(regs.rax, count, page_size) {
            Turn { cmds: seq![], step: Step::Abort }
        } else {
            (SvState {
                mmap_events: crate::trace::mmap_events::after_mmap(
                    self.mmap_events,
                    crate::pages::page_run(regs.rax, count, page_size),
                ),
                ..self
            }).listen(seq![Command::Syscall(pid)])
        }
    }

    /// What follows when a thread has come back from `munmap` with these registers.
    /// Zero means that it succeeded.
    pub open spec fn on_unmapped(
        self,
        pid: Pid,
        addr: usize,
        count: usize,
        regs: UserRegs,
    ) -> SvTurn {
        let page_size = self.env.layout.page_size;
        if regs.rax != 0 {
            self.listen(seq![Command::Syscall(pid)])
        } else if !crate::pages::run_fits(addr, count, page_size) {
            Turn { cmds: seq![], step: Step::Abort }
        } else {
            (SvState {
                mmap_events: crate::trace::mmap_events::after_munmap(
                    self.mmap_events,
                    crate::pages::page_run(addr, count, page_size),
                ),
                ..self
            }).listen(seq![Command::Syscall(pid)])
        }
    }

    /// What a reply leads to.
    pub open spec fn next(self, reply: Reply<Found>) -> SvTurn {
        let main = self.listener.pid;
        match self.mode {
            SvMode::Starting(wait) => {
                let turn = wait.next::<MemRecord, Found>(reply);
                match turn.step {
                    Step::Ask(wait) => self.enter(SvMode::Starting(wait), turn.cmds),
                    Step::Done(Ok(())) => self.listen(turn.cmds + seq![Command::Cont(main, None)]),
                    Step::Done(Err(ExecError::Died(code))) => Turn {
                        cmds: turn.cmds,
                        step: Step::Done(code),
                    },
                    Step::Done(Err(ExecError::Shrug)) => Turn {
                        cmds: turn.cmds,
                        step: Step::Done(None),
                    },
                    Step::Abort => Turn { cmds: turn.cmds, step: Step::Abort },
                }
            },
            SvMode::Listening => {
                let turn = self.listener.next::<MemRecord, Found>(reply);
                match turn.step {
                    Step::Ask(listener) => (SvState { listener, ..self }).listen(turn.cmds),
                    Step::Done((listener, event)) => (SvState { listener, ..self }).on_event(event),
                    Step::Abort => Turn { cmds: turn.cmds, step: Step::Abort },
                }
            },
            SvMode::Beginning(wait) => {
                let turn = wait.next::<MemRecord, Found>(reply);
                match turn.step {
                    Step::Ask(wait) => self.enter(SvMode::Beginning(wait), turn.cmds),
                    Step::Done(Ok(())) => self.listen(
                        turn.cmds + self.env.libc_vals.overwriting(main, BREAKPT_INSTR)
                            + seq![Command::Syscall(main)],
                    ),
                    _ => Turn { cmds: turn.cmds, step: Step::Abort },
                }
            },
            SvMode::Segfault(handler) => {
                let layout = self.env.layout;
                let turn = handler.next::<MemRecord>(
                    layout,
                    self.ch_pages,
                    self.ch_stack->0,
                    reply,
                );
                let logged = SvState {
                    acc_events: self.acc_events + handler.logs(layout.page_size, reply),
                    ..self
                };
                match turn.step {
                    Step::Ask(handler) => logged.enter(SvMode::Segfault(handler), turn.cmds),
                    Step::Done(result) => logged.recover(result, turn.cmds),
                    Step::Abort => Turn { cmds: turn.cmds, step: Step::Abort },
                }
            },
            SvMode::Sigtrap(handler) => {
                let vals = self.env.libc_vals;
                let turn = handler.next::<MemRecord, Found>(vals, reply);
                let logged = SvState {
                    libc_events: handler.record_after(vals, reply, self.libc_events),
                    ..self
                };
                match turn.step {
                    Step::Ask(handler) => logged.enter(SvMode::Sigtrap(handler), turn.cmds),
                    Step::Done(result) => logged.recover(result, turn.cmds),
                    Step::Abort => Turn { cmds: turn.cmds, step: Step::Abort },
                }
            },
            SvMode::Resuming(pid) => match reply {
                // It may be that the thread is not traced.
                Reply::Success(false) => self.listen(seq![Command::Raise(pid, Signal::Cont)]),
                _ => self.listen(seq![]),
            },
            SvMode::Entering(pid) => match reply {
                Reply::Regs(regs) => self.on_entry(pid, regs),
                _ => Turn { cmds: seq![], step: Step::Abort },
            },
            SvMode::Mmap { pid, count, wait } => match wait.next::<Found>(reply) {
                Step::Ask(wait) => self.enter(SvMode::Mmap { pid, count, wait }, seq![]),
                Step::Done(Ok(regs)) => self.on_mapped(pid, count, regs),
                Step::Done(Err(e)) => self.recover(Err(e), seq![]),
                Step::Abort => Turn { cmds: seq![], step: Step::Abort },
            },
            SvMode::Munmap { pid, addr, count, wait } => match wait.next::<Found>(reply) {
                Step::Ask(wait) => self.enter(SvMode::Munmap { pid, addr, count, wait }, seq![]),
                Step::Done(Ok(regs)) => self.on_unmapped(pid, addr, count, regs),
                Step::Done(Err(e)) => self.recover(Err(e), seq![]),
                Step::Abort => Turn { cmds: seq![], step: Step::Abort },
            },
        }
    }
}

/// Whether `settled` is the reply with the bytes of an instruction of this architecture
/// decoded. What decoding came to is given by Capstone unless it failed.
pub open spec fn decodes_to(arch: Arch, reply: Reply<Found>, settled: Reply<Found>) -> bool {
    match reply {
        Reply::Words(words) => {
            &&& settled matches Reply::Decoded(found)
            &&& match found {
                Ok(_) => crate::disasm::outcome(found) == Ok::<_, DisasmError>(
                    crate::disasm::decoded(
                        arch,
                        crate::words::bytes_of(words@),
                        crate::disasm::DISASM_ADDR,
                        1,
                    ),
                ),
                Err(e) => e == (DisasmError { arch }),
            }
        },
        _ => settled == reply,
    }
}

/// Begins the main loop of the supervisor process. There is an initial stop of the
/// child to deal with.
pub fn sv_loop(listener: ChildListener, env: SvEnv) -> (sv: SvLoop)
    requires
        env.layout.page_size > 0,
    ensures
        sv@ == SvState::initial(listener, env),
        sv@.wf(),
{
    // The child is not let run first, so this gives no commands.
    let mut out: Outbox<MemEvents> = Outbox::new();
    let wait = WaitForSignal::wait_for_signal(listener.pid, Signal::Stop, false, &mut out);
    SvLoop {
        env,
        listener,
        mode: SvMode::Starting(wait),
        ch_pages: Vec::new(),
        ch_stack: None,
        acc_events: Vec::new(),
        mmap_events: Vec::new(),
        libc_events: Vec::new(),
    }
}

impl SvLoop {
    /// What the loop hangs on.
    pub fn query(&self) -> (query: Query)
        requires
            self@.wf(),
        ensures
            query == self@.asks(),
    {
        match self.mode {
            SvMode::Starting(wait) => wait.query(),
            SvMode::Listening => self.listener.query(),
            SvMode::Beginning(wait) => wait.query(),
            SvMode::Segfault(handler) => handler.query(),
            SvMode::Sigtrap(handler) => handler.query(),
            SvMode::Resuming(pid) => Query::TrySyscall(pid),
            SvMode::Entering(pid) => Query::GetRegs(pid),
            SvMode::Mmap { wait, .. } => wait.query(),
            SvMode::Munmap { wait, .. } => wait.query(),
        }
    }

    fn enter(self, mode: SvMode) -> (step: Step<SvLoop, Option<i32>>)
        ensures
            step@ == self@.enter(mode, seq![]).step,
    {
        let mut sv = self;
        sv.mode = mode;
        Step::Ask(sv)
    }

    fn recover(self, result: Result<(), ExecError>) -> (step: Step<SvLoop, Option<i32>>)
        ensures
            step@ == self@.recover(result, seq![]).step,
    {
        match result {
            Err(ExecError::Died(code)) => Step::Done(code),
            _ => self.enter(SvMode::Listening),
        }
    }

    fn on_event(self, event: ExecEvent, out: &mut Outbox<MemEvents>) -> (step: Step<
        SvLoop,
        Option<i32>,
    >)
        ensures
            final(out)@ == old(out)@ + self@.on_event(event).cmds,
            step@ == self@.on_event(event).step,
    {
        proof {
            assert(out@ + Seq::<Command<MemRecord>>::empty() =~= out@);
        }
        let main: Pid = self.listener.pid;
        let mut sv = self;
        match event {
            ExecEvent::Start(info) => {
                sv.ch_pages = info.page_ptrs;
                sv.ch_stack = Some(info.stack_ptr);
                out.push(Command::Confirm);
                let wait = WaitForSignal::wait_for_signal(main, Signal::Stop, false, out);
                assert(out@ =~= old(out)@ + self@.on_event(event).cmds);
                sv.enter(SvMode::Beginning(wait))
            },
            ExecEvent::End => {
                out.push(
                    Command::SendEvents(
                        MemEvents {
                            acc_events: sv.acc_events,
                            alloc_cutoff: sv.env.layout.page_size,
                            libc_events: sv.libc_events,
                            mmap_events: sv.mmap_events,
                        },
                    ),
                );
                sv.acc_events = Vec::new();
                sv.mmap_events = Vec::new();
                sv.libc_events = Vec::new();
                sv.ch_stack = None;
                sv.env.libc_vals.restore(main, out);
                // System calls no longer matter.
                out.push(Command::Cont(main, None));
                assert(out@ =~= old(out)@ + self@.on_event(event).cmds);
                sv.enter(SvMode::Listening)
            },
            ExecEvent::Status(pid, signal) => match signal {
                Signal::Segv => {
                    if sv.ch_stack.is_none() {
                        return Step::Abort;
                    }
                    sv.enter(SvMode::Segfault(SegfaultHandler::handle_segfault(pid)))
                },
                Signal::Trap => sv.enter(SvMode::Sigtrap(SigtrapHandler::handle_sigtrap(pid))),
                _ => {
                    out.push(Command::Note(Note::UnexpectedSignal(signal)));
                    sv.enter(SvMode::Resuming(pid))
                },
            },
            ExecEvent::Syscall(pid) => sv.enter(SvMode::Entering(pid)),
            ExecEvent::Died(code) => Step::Done(code),
        }
    }

    fn on_entry(self, pid: Pid, regs: UserRegs, out: &mut Outbox<MemEvents>) -> (step: Step<
        SvLoop,
        Option<i32>,
    >)
        requires
            self@.wf(),
        ensures
            final(out)@ == old(out)@ + self@.on_entry(pid, regs).cmds,
            step@ == self@.on_entry(pid, regs).step,
    {
        proof {
            assert(out@ + Seq::<Command<MemRecord>>::empty() =~= out@);
        }
        let page_size: usize = self.env.layout.page_size;
        let nr: isize = regs.syscall_nr();
        let count: usize = regs.arg2() / page_size;
        if nr == self.env.sys_mmap {
            let wait = WaitForSyscall::wait_for_syscall(pid, self.env.sys_mmap, out);
            self.enter(SvMode::Mmap { pid, count, wait })
        } else if nr == self.env.sys_munmap {
            let addr: usize = regs.arg1();
            if any_mapped(&self.mmap_events) && !check_run(addr, count, page_size) {
                return Step::Abort;
            }
            let wait = WaitForSyscall::wait_for_syscall(pid, self.env.sys_munmap, out);
            self.enter(SvMode::Munmap { pid, addr, count, wait })
        } else {
            out.push(Command::Syscall(pid));
            self.enter(SvMode::Listening)
        }
    }

    fn on_mapped(self, pid: Pid, count: usize, regs: UserRegs, out: &mut Outbox<MemEvents>) -> (step:
        Step<SvLoop, Option<i32>>)
        ensures
            final(out)@ == old(out)@ + self@.on_mapped(pid, count, regs).cmds,
            step@ == self@.on_mapped(pid, count, regs).step,
    {
        proof {
            assert(out@ + Seq::<Command<MemRecord>>::empty() =~= out@);
        }
        let mut sv = self;
        let page_size: usize = sv.env.layout.page_size;
        let retval: isize = regs.retval();
        if retval >= 0 {
            let addr: usize = retval as usize;
            if !check_run(addr, count, page_size) {
                return Step::Abort;
            }
            record_mmap(&mut sv.mmap_events, addr, count, page_size);
        }
        out.push(Command::Syscall(pid));
        sv.enter(SvMode::Listening)
    }

    fn on_unmapped(
        self,
        pid: Pid,
        addr: usize,
        count: usize,
        regs: UserRegs,
        out: &mut Outbox<MemEvents>,
    ) -> (step: Step<SvLoop, Option<i32>>)
        ensures
            final(out)@ == old(out)@ + self@.on_unmapped(pid, addr, count, regs).cmds,
            step@ == self@.on_unmapped(pid, addr, count, regs).step,
    {
        proof {
            assert(out@ + Seq::<Command<MemRecord>>::empty() =~= out@);
        }
        let mut sv = self;
        let page_size: usize = sv.env.layout.page_size;
        if regs.retval() == 0 {
            if !check_run(addr, count, page_size) {
                return Step::Abort;
            }
            record_munmap(&mut sv.mmap_events, addr, count, page_size);
        }
        out.push(Command::Syscall(pid));
        sv.enter(SvMode::Listening)
    }

    /// Takes the reply to `query`, with the bytes of an instruction decoded.
    pub fn advance(self, reply: Reply<Found>, out: &mut Outbox<MemEvents>) -> (step: Step<
        SvLoop,
        Option<i32>,
    >)
        requires
            self@.wf(),
            self@.asks().settled_by(reply),
        ensures
            final(out)@ == old(out)@ + self@.next(reply).cmds,
            step@ == self@.next(reply).step,
            step matches Step::Ask(next) ==> next@.wf(),
    {
        proof {
            assert(out@ + Seq::<Command<MemRecord>>::empty() =~= out@);
        }
        let main: Pid = self.listener.pid;
        let mut sv = self;
        match sv.mode {
            SvMode::Starting(wait) => match wait.advance(reply, out) {
                Step::Ask(wait) => sv.enter(SvMode::Starting(wait)),
                Step::Done(Ok(())) => {
                    out.push(Command::Cont(main, None));
                    assert(out@ =~= old(out)@ + self@.next(reply).cmds);
                    sv.enter(SvMode::Listening)
                },
                Step::Done(Err(ExecError::Died(code))) => Step::Done(code),
                Step::Done(Err(ExecError::Shrug)) => Step::Done(None),
                Step::Abort => Step::Abort,
            },
            SvMode::Listening => match sv.listener.advance(reply, out) {
                Step::Ask(listener) => {
                    sv.listener = listener;
                    sv.enter(SvMode::Listening)
                },
                Step::Done((listener, event)) => {
                    sv.listener = listener;
                    sv.on_event(event, out)
                },
                Step::Abort => Step::Abort,
            },
            SvMode::Beginning(wait) => match wait.advance(reply, out) {
                Step::Ask(wait) => sv.enter(SvMode::Beginning(wait)),
                Step::Done(Ok(())) => {
                    // From here on the allocation functions trap.
                    sv.env.libc_vals.overwrite_all(main, BREAKPT_INSTR, out);
                    out.push(Command::Syscall(main));
                    assert(out@ =~= old(out)@ + self@.next(reply).cmds);
                    sv.enter(SvMode::Listening)
                },
                _ => Step::Abort,
            },
            SvMode::Segfault(handler) => {
                let stack: usize = match sv.ch_stack {
                    Some(stack) => stack,
                    None => return Step::Abort,
                };
                match handler.advance(
                    &sv.env.layout,
                    &sv.ch_pages,
                    stack,
                    reply,
                    &mut sv.acc_events,
                    out,
                ) {
                    Step::Ask(handler) => sv.enter(SvMode::Segfault(handler)),
                    Step::Done(result) => sv.recover(result),
                    Step::Abort => Step::Abort,
                }
            },
            SvMode::Sigtrap(handler) => match handler.advance(
                &sv.env.libc_vals,
                reply,
                &mut sv.libc_events,
                out,
            ) {
                Step::Ask(handler) => sv.enter(SvMode::Sigtrap(handler)),
                Step::Done(result) => sv.recover(result),
                Step::Abort => Step::Abort,
            },
            SvMode::Resuming(pid) => {
                if let Reply::Success(false) = reply {
                    out.push(Command::Raise(pid, Signal::Cont));
                }
                sv.enter(SvMode::Listening)
            },
            SvMode::Entering(pid) => match reply {
                Reply::Regs(regs) => sv.on_entry(pid, regs, out),
                _ => Step::Abort,
            },
            SvMode::Mmap { pid, count, wait } => match wait.advance(reply) {
                Step::Ask(wait) => sv.enter(SvMode::Mmap { pid, count, wait }),
                Step::Done(Ok(regs)) => sv.on_mapped(pid, count, regs, out),
                Step::Done(Err(e)) => sv.recover(Err(e)),
                Step::Abort => Step::Abort,
            },
            SvMode::Munmap { pid, addr, count, wait } => match wait.advance(reply) {
                Step::Ask(wait) => sv.enter(SvMode::Munmap { pid, addr, count, wait }),
                Step::Done(Ok(regs)) => sv.on_unmapped(pid, addr, count, regs, out),
                Step::Done(Err(e)) => sv.recover(Err(e)),
                Step::Abort => Step::Abort,
            },
        }
    }

    /// Takes the reply to `query`. The bytes of an instruction are decoded first.
    pub fn step(self, disasm: &Disassembler, reply: Reply<Found>, out: &mut Outbox<MemEvents>) -> (
    step: Step<SvLoop, Option<i32>>)
        requires
            self@.wf(),
            self@.asks().answered_by(reply),
        ensures
            exists|settled: Reply<Found>| #[trigger]
                decodes_to(disasm.arch(), reply, settled) && final(out)@ == old(out)@ + self@.next(
                    settled,
                ).cmds && step@ == self@.next(settled).step,
            step matches Step::Ask(next) ==> next@.wf(),
    {
        let settled: Reply<Found> = match reply {
            Reply::Words(words) => Reply::Decoded(instr_operands(disasm, &to_bytes(&words))),
            reply => reply,
        };
        assert(decodes_to(disasm.arch(), reply, settled));
        self.advance(settled, out)
    }
}

impl SvState {
    /// What a series of replies leads to.
    pub open spec fn run(self, replies: Seq<Reply<Found>>) -> SvTurn
        decreases replies.len(),
    {
        if replies.len() == 0 {
            Turn { cmds: seq![], step: Step::Ask(self) }
        } else {
            let turn = self.next(replies[0]);
            match turn.step {
                Step::Ask(next) => {
                    let rest = next.run(replies.skip(1));
                    Turn { cmds: turn.cmds + rest.cmds, step: rest.step }
                },
                _ => turn,
            }
        }
    }

    /// The accesses that a reply puts on record.
    pub open spec fn logs(self, reply: Reply<Found>) -> Seq<AccessEvent> {
        match self.mode {
            SvMode::Segfault(handler) => handler.logs(self.env.layout.page_size, reply),
            _ => seq![],
        }
    }

    /// The accesses that a series of replies puts on record.
    pub open spec fn logs_all(self, replies: Seq<Reply<Found>>) -> Seq<AccessEvent>
        decreases replies.len(),
    {
        if replies.len() == 0 {
            seq![]
        } else {
            self.logs(replies[0]) + match self.next(replies[0]).step {
                Step::Ask(next) => next.logs_all(replies.skip(1)),
                _ => seq![],
            }
        }
    }

    /// Whether there is a stack to use exactly while foreign code is being called.
    pub open spec fn coherent(self) -> bool {
        self.ch_stack is Some <==> self.listener.attached
    }
}

/// The accesses that commands hand over to the child, in order.
pub open spec fn handed_over(cmds: Seq<Command<MemRecord>>) -> Seq<AccessEvent>
    decreases cmds.len(),
{
    if cmds.len() == 0 {
        seq![]
    } else {
        let before = handed_over(cmds.drop_last());
        match cmds.last() {
            Command::SendEvents(events) => before + events.acc_events,
            _ => before,
        }
    }
}

proof fn lemma_handed_over_add(first: Seq<Command<MemRecord>>, then: Seq<Command<MemRecord>>)
    ensures
        handed_over(first + then) == handed_over(first) + handed_over(then),
    decreases then.len(),
{
    if then.len() == 0 {
        assert(first + then =~= first);
        assert(handed_over(first) + handed_over(then) =~= handed_over(first));
    } else {
        assert((first + then).drop_last() =~= first + then.drop_last());
        lemma_handed_over_add(first, then.drop_last());
        assert(handed_over(first + then) =~= handed_over(first) + handed_over(then));
    }
}

proof fn lemma_nothing_handed_over(cmds: Seq<Command<MemRecord>>)
    requires
        forall|i: int| 0 <= i < cmds.len() ==> !(#[trigger] cmds[i] is SendEvents),
    ensures
        handed_over(cmds) == Seq::<AccessEvent>::empty(),
    decreases cmds.len(),
{
    if cmds.len() > 0 {
        assert(!(cmds[cmds.len() - 1] is SendEvents));
        lemma_nothing_handed_over(cmds.drop_last());
    }
}

/// Events are handed over only when a call of foreign code ends, and then all at once:
/// everything that is on record, with the page size as the cutoff. The record is
/// empty after that.
pub proof fn law_hands_over_the_record(sv: SvState, reply: Reply<Found>)
    ensures
        ({
            let turn = sv.next(reply);
            let ending = sv.mode is Listening && (sv.listener.next::<MemRecord, Found>(
                reply,
            ).step matches Step::Done((_, ExecEvent::End)));
            &&& ending ==> {
                &&& turn.cmds.len() > 0
                &&& turn.cmds[0] == Command::SendEvents(sv.record())
                &&& turn.step matches Step::Ask(next)
                &&& next.record() == (MemRecord {
                    acc_events: seq![],
                    alloc_cutoff: sv.env.layout.page_size,
                    libc_events: seq![],
                    mmap_events: seq![],
                })
            }
            &&& forall|i: int|
                0 <= i < turn.cmds.len() && #[trigger] turn.cmds[i] is SendEvents ==> ending && i
                    == 0
        }),
{
}

/// Every access that is put on record is handed over exactly once and in order, or is
/// still on record.
pub proof fn law_no_access_is_lost(sv: SvState, replies: Seq<Reply<Found>>)
    ensures
        sv.run(replies).step matches Step::Ask(end) ==> handed_over(sv.run(replies).cmds)
            + end.acc_events == sv.acc_events + sv.logs_all(replies),
    decreases replies.len(),
{
    if replies.len() == 0 {
        assert(sv.acc_events + sv.logs_all(replies) =~= sv.acc_events);
        assert(handed_over(seq![]) + sv.acc_events =~= sv.acc_events);
    } else {
        let turn = sv.next(replies[0]);
        if let Step::Ask(next) = turn.step {
            let rest = replies.skip(1);
            law_no_access_is_lost(next, rest);
            law_hands_over_the_record(sv, replies[0]);
            let after = next.run(rest);
            lemma_handed_over_add(turn.cmds, after.cmds);
            if turn.cmds.len() > 0 && turn.cmds[0] is SendEvents {
                let tail = turn.cmds.skip(1);
                assert(turn.cmds =~= seq![turn.cmds[0]] + tail);
                assert forall|i: int| 0 <= i < tail.len() implies !(#[trigger] tail[i]
                    is SendEvents) by {
                    assert(tail[i] == turn.cmds[i + 1]);
                }
                lemma_nothing_handed_over(tail);
                lemma_handed_over_add(seq![turn.cmds[0]], tail);
                reveal_with_fuel(handed_over, 2);
                assert(handed_over(seq![turn.cmds[0]]) =~= sv.acc_events);
                assert(handed_over(turn.cmds) =~= sv.acc_events);
            } else {
                lemma_nothing_handed_over(turn.cmds);
            }
            assert(handed_over(turn.cmds) + next.acc_events =~= sv.acc_events + sv.logs(
                replies[0],
            ));
            if let Step::Ask(end) = after.step {
                assert(handed_over(turn.cmds) + handed_over(after.cmds) + end.acc_events =~= (
                handed_over(turn.cmds) + next.acc_events) + next.logs_all(rest));
                assert(sv.acc_events + sv.logs_all(replies) =~= sv.acc_events + sv.logs(replies[0])
                    + next.logs_all(rest));
            }
        }
    }
}

/// While foreign code is called there is always a stack to use, so that a fault never
/// brings the supervisor down for want of one.
pub proof fn law_stack_during_calls(sv: SvState, reply: Reply<Found>)
    requires
        sv.coherent(),
    ensures
        sv.next(reply).step matches Step::Ask(next) ==> next.coherent(),
        sv.mode is Listening && (sv.listener.next::<MemRecord, Found>(
            reply,
        ).step matches Step::Done((_, ExecEvent::Status(_, Signal::Segv)))) ==> (sv.next(
            reply,
        ).step matches Step::Ask(next) && next.mode is Segfault),
        forall|pid: Pid, env: SvEnv| #[trigger]
            SvState::initial(
                ChildListener { pid, attached: false, override_retcode: None, receiving: false },
                env,
            ).coherent(),
{
}

/// When a call of foreign code begins, the allocation functions are made to trap before
/// the child runs on. When it ends, they begin with their own code again before the
/// child runs on.
pub proof fn law_functions_trap_during_calls(sv: SvState, reply: Reply<Found>)
    requires
        sv.env.libc_vals.apart(),
        sv.asks().settled_by(reply),
    ensures
        ({
            let turn = sv.next(reply);
            let main = sv.listener.pid;
            let vals = sv.env.libc_vals;
            &&& sv.mode is Beginning && (turn.step matches Step::Ask(next) && next.mode
                is Listening) ==> {
                &&& turn.cmds.last() == Command::<MemRecord>::Syscall(main)
                &&& crate::script::last_write(turn.cmds, main, vals.malloc_addr) == Some(
                    BREAKPT_INSTR,
                )
                &&& crate::script::last_write(turn.cmds, main, vals.realloc_addr) == Some(
                    BREAKPT_INSTR,
                )
                &&& crate::script::last_write(turn.cmds, main, vals.free_addr) == Some(
                    BREAKPT_INSTR,
                )
            }
            &&& turn.cmds.len() > 0 && turn.cmds[0] is SendEvents ==> {
                &&& turn.cmds.last() == Command::<MemRecord>::Cont(main, None)
                &&& crate::script::last_write(turn.cmds, main, vals.malloc_addr) == Some(
                    vals.malloc_bytes,
                )
                &&& crate::script::last_write(turn.cmds, main, vals.realloc_addr) == Some(
                    vals.realloc_bytes,
                )
                &&& crate::script::last_write(turn.cmds, main, vals.free_addr) == Some(
                    vals.free_bytes,
                )
            }
        }),
{
    reveal_with_fuel(crate::script::last_write, 8);
    law_hands_over_the_record(sv, reply);
}

/// What commands hand over to the child, one message after the other.
pub open spec fn messages(cmds: Seq<Command<MemRecord>>) -> Seq<MemRecord>
    decreases cmds.len(),
{
    if cmds.len() == 0 {
        seq![]
    } else {
        let before = messages(cmds.drop_last());
        match cmds.last() {
            Command::SendEvents(events) => before.push(events),
            _ => before,
        }
    }
}

/// A record with nothing on it.
pub open spec fn blank(page_size: usize) -> MemRecord {
    MemRecord {
        acc_events: seq![],
        alloc_cutoff: page_size,
        libc_events: seq![],
        mmap_events: seq![],
    }
}

/// What was reported of calls that have ended, and what is known of the one that has not.
pub ghost struct Tally {
    pub reported: Seq<MemRecord>,
    pub pending: MemRecord,
}

impl SvState {
    /// Whether a reply ends a call of foreign code.
    pub open spec fn ends(self, reply: Reply<Found>) -> bool {
        self.mode is Listening && (self.listener.next::<MemRecord, Found>(
            reply,
        ).step matches Step::Done((_, ExecEvent::End)))
    }

    /// The pages that a reply tells were mapped.
    pub open spec fn maps(self, reply: Reply<Found>) -> Option<Seq<usize>> {
        match self.mode {
            SvMode::Mmap { count, wait, .. } => match wait.next::<Found>(reply) {
                Step::Done(Ok(regs)) => if crate::regs::signed(regs.rax) >= 0 {
                    Some(crate::pages::page_run(regs.rax, count, self.env.layout.page_size))
                } else {
                    None
                },
                _ => None,
            },
            _ => None,
        }
    }

    /// The pages that a reply tells were unmapped.
    pub open spec fn unmaps(self, reply: Reply<Found>) -> Option<Seq<usize>> {
        match self.mode {
            SvMode::Munmap { addr, count, wait, .. } => match wait.next::<Found>(reply) {
                Step::Done(Ok(regs)) => if regs.rax == 0 {
                    Some(crate::pages::page_run(addr, count, self.env.layout.page_size))
                } else {
                    None
                },
                _ => None,
            },
            _ => None,
        }
    }

    /// What becomes of a record with what a reply tells.
    pub open spec fn adds_to(self, reply: Reply<Found>, record: MemRecord) -> MemRecord {
        MemRecord {
            acc_events: record.acc_events + self.logs(reply),
            libc_events: match self.mode {
                SvMode::Sigtrap(handler) => handler.record_after(
                    self.env.libc_vals,
                    reply,
                    record.libc_events,
                ),
                _ => record.libc_events,
            },
            mmap_events: match (self.maps(reply), self.unmaps(reply)) {
                (Some(run), _) => crate::trace::mmap_events::after_mmap(record.mmap_events, run),
                (_, Some(run)) => crate::trace::mmap_events::after_munmap(record.mmap_events, run),
                _ => record.mmap_events,
            },
            ..record
        }
    }

    /// What a series of replies tells of calls, if `pending` is known of the one that is
    /// going on: the record of each that ends is made up of the replies since the one before
    /// has ended, and of nothing else.
    pub open spec fn tally(self, replies: Seq<Reply<Found>>, pending: MemRecord) -> Tally
        decreases replies.len(),
    {
        if replies.len() == 0 {
            Tally { reported: seq![], pending }
        } else {
            let first = if self.ends(replies[0]) {
                Tally { reported: seq![pending], pending: blank(self.env.layout.page_size) }
            } else {
                Tally { reported: seq![], pending: self.adds_to(replies[0], pending) }
            };
            match self.next(replies[0]).step {
                Step::Ask(next) => {
                    let rest = next.tally(replies.skip(1), first.pending);
                    Tally { reported: first.reported + rest.reported, pending: rest.pending }
                },
                _ => first,
            }
        }
    }

    /// How many calls of foreign code a series of replies ends.
    pub open spec fn calls_ended(self, replies: Seq<Reply<Found>>) -> nat
        decreases replies.len(),
    {
        if replies.len() == 0 {
            0
        } else {
            let first: nat = if self.ends(replies[0]) {
                1
            } else {
                0
            };
            match self.next(replies[0]).step {
                Step::Ask(next) => first + next.calls_ended(replies.skip(1)),
                _ => first,
            }
        }
    }

    /// Whether what a series of replies tells was mapped or unmapped starts at a page.
    pub open spec fn maps_whole_pages(self, replies: Seq<Reply<Found>>) -> bool
        decreases replies.len(),
    {
        replies.len() > 0 ==> {
            &&& self.maps(replies[0]) matches Some(run) ==> run.len() > 0 ==> run[0]
                % self.env.layout.page_size == 0
            &&& self.unmaps(replies[0]) matches Some(run) ==> run.len() > 0 ==> run[0]
                % self.env.layout.page_size == 0
            &&& self.next(replies[0]).step matches Step::Ask(next) ==> next.maps_whole_pages(
                replies.skip(1),
            )
        }
    }
}

proof fn lemma_messages_add(first: Seq<Command<MemRecord>>, then: Seq<Command<MemRecord>>)
    ensures
        messages(first + then) == messages(first) + messages(then),
    decreases then.len(),
{
    if then.len() == 0 {
        assert(first + then =~= first);
        assert(messages(first) + messages(then) =~= messages(first));
    } else {
        assert((first + then).drop_last() =~= first + then.drop_last());
        lemma_messages_add(first, then.drop_last());
        assert(messages(first + then) =~= messages(first) + messages(then));
    }
}

proof fn lemma_no_messages(cmds: Seq<Command<MemRecord>>)
    requires
        forall|i: int| 0 <= i < cmds.len() ==> !(#[trigger] cmds[i] is SendEvents),
    ensures
        messages(cmds) == Seq::<MemRecord>::empty(),
    decreases cmds.len(),
{
    if cmds.len() > 0 {
        assert(!(cmds[cmds.len() - 1] is SendEvents));
        lemma_no_messages(cmds.drop_last());
    }
}

/// What one turn hands over, and what is on record after it.
proof fn lemma_turn_reports(sv: SvState, reply: Reply<Found>)
    ensures
        messages(sv.next(reply).cmds) == (if sv.ends(reply) {
            seq![sv.record()]
        } else {
            seq![]
        }),
        sv.ends(reply) ==> sv.next(reply).step is Ask,
        sv.next(reply).step matches Step::Ask(next) ==> next.env == sv.env && next.record() == (
        if sv.ends(reply) {
            blank(sv.env.layout.page_size)
        } else {
            sv.adds_to(reply, sv.record())
        }),
{
    law_hands_over_the_record(sv, reply);
    let turn = sv.next(reply);
    if sv.ends(reply) {
        let tail = turn.cmds.skip(1);
        assert(turn.cmds =~= seq![turn.cmds[0]] + tail);
        assert forall|i: int| 0 <= i < tail.len() implies !(#[trigger] tail[i] is SendEvents) by {
            assert(tail[i] == turn.cmds[i + 1]);
        }
        lemma_no_messages(tail);
        lemma_messages_add(seq![turn.cmds[0]], tail);
        reveal_with_fuel(messages, 2);
        assert(messages(seq![turn.cmds[0]]) =~= seq![sv.record()]);
        assert(messages(turn.cmds) =~= seq![sv.record()]);
    } else {
        lemma_no_messages(turn.cmds);
    }
    assert(sv.acc_events + Seq::<AccessEvent>::empty() =~= sv.acc_events);
}

/// The child gets exactly one message for each call of foreign code that ends. What is
/// sent is exactly what has happened since the call before has ended: nothing of one call
/// shows up with another, or is lost. What has happened since the last one is still on
/// record.
pub proof fn law_each_call_is_reported_once(sv: SvState, replies: Seq<Reply<Found>>)
    ensures
        messages(sv.run(replies).cmds) == sv.tally(replies, sv.record()).reported,
        messages(sv.run(replies).cmds).len() == sv.calls_ended(replies),
        sv.run(replies).step matches Step::Ask(end) ==> end.record() == sv.tally(
            replies,
            sv.record(),
        ).pending,
    decreases replies.len(),
{
    if replies.len() > 0 {
        let turn = sv.next(replies[0]);
        lemma_turn_reports(sv, replies[0]);
        if let Step::Ask(next) = turn.step {
            let rest = replies.skip(1);
            law_each_call_is_reported_once(next, rest);
            lemma_messages_add(turn.cmds, next.run(rest).cmds);
        }
    }
}

/// Every page that a message tells was mapped or unmapped starts at a multiple of the page
/// size, which is also the cutoff of each message, as long as the system maps and unmaps
/// whole pages.
pub proof fn law_reported_pages_are_aligned(sv: SvState, replies: Seq<Reply<Found>>)
    requires
        sv.env.layout.page_size > 0,
        crate::trace::mmap_events::aligned(sv.mmap_events, sv.env.layout.page_size),
        sv.maps_whole_pages(replies),
    ensures
        ({
            let sent = messages(sv.run(replies).cmds);
            let page_size = sv.env.layout.page_size;
            &&& forall|i: int|
                0 <= i < sent.len() ==> (#[trigger] sent[i]).alloc_cutoff == page_size
                    && crate::trace::mmap_events::aligned(sent[i].mmap_events, page_size)
            &&& sv.run(replies).step matches Step::Ask(end) ==> crate::trace::mmap_events::aligned(
                end.mmap_events,
                page_size,
            )
        }),
    decreases replies.len(),
{
    let page_size = sv.env.layout.page_size;
    if replies.len() > 0 {
        let turn = sv.next(replies[0]);
        lemma_turn_reports(sv, replies[0]);
        if let Step::Ask(next) = turn.step {
            let rest = replies.skip(1);
            lemma_turn_aligned(sv, replies[0]);
            law_reported_pages_are_aligned(next, rest);
            lemma_messages_add(turn.cmds, next.run(rest).cmds);
            let here = messages(turn.cmds);
            let later = messages(next.run(rest).cmds);
            let sent = here + later;
            assert forall|i: int| 0 <= i < sent.len() implies (#[trigger] sent[i]).alloc_cutoff
                == page_size && crate::trace::mmap_events::aligned(
                sent[i].mmap_events,
                page_size,
            ) by {
                if i >= here.len() {
                    assert(sent[i] == later[i - here.len()]);
                }
            }
        }
    }
}

proof fn lemma_turn_aligned(sv: SvState, reply: Reply<Found>)
    requires
        sv.env.layout.page_size > 0,
        crate::trace::mmap_events::aligned(sv.mmap_events, sv.env.layout.page_size),
        sv.maps(reply) matches Some(run) ==> run.len() > 0 ==> run[0] % sv.env.layout.page_size
            == 0,
        sv.unmaps(reply) matches Some(run) ==> run.len() > 0 ==> run[0] % sv.env.layout.page_size
            == 0,
    ensures
        sv.next(reply).step matches Step::Ask(next) ==> crate::trace::mmap_events::aligned(
            next.mmap_events,
            sv.env.layout.page_size,
        ),
{
    let page_size = sv.env.layout.page_size;
    if let Step::Ask(next) = sv.next(reply).step {
        match sv.mode {
            SvMode::Mmap { count, wait, .. } => {
                if let Step::Done(Ok(regs)) = wait.next::<Found>(reply) {
                    if crate::regs::signed(regs.rax) >= 0 {
                        lemma_run_recorded(sv.mmap_events, regs.rax, count, page_size);
                    }
                }
            },
            SvMode::Munmap { addr, count, wait, .. } => {
                if let Step::Done(Ok(regs)) = wait.next::<Found>(reply) {
                    if regs.rax == 0 {
                        lemma_run_recorded(sv.mmap_events, addr, count, page_size);
                    }
                }
            },
            _ => {},
        }
    }
}

/// Putting a run of pages on record keeps all that is there aligned.
proof fn lemma_run_recorded(events: Seq<MmapEvent>, addr: usize, count: usize, page_size: usize)
    requires
        page_size > 0,
        crate::pages::run_fits(addr, count, page_size),
        crate::trace::mmap_events::aligned(events, page_size),
        count > 0 ==> crate::pages::page_run(addr, count, page_size)[0] % page_size == 0,
    ensures
        ({
            let run = crate::pages::page_run(addr, count, page_size);
            &&& crate::trace::mmap_events::aligned(
                crate::trace::mmap_events::after_mmap(events, run),
                page_size,
            )
            &&& crate::trace::mmap_events::aligned(
                crate::trace::mmap_events::after_munmap(events, run),
                page_size,
            )
        }),
{
    if count > 0 {
        crate::pages::lemma_run_index(addr, 0, count, page_size);
        crate::trace::mmap_events::law_aligned(events, addr, count, page_size);
    } else {
        let none = crate::pages::page_run(addr, 0, page_size);
        assert(none =~= crate::pages::page_run(0, 0, page_size));
        crate::trace::mmap_events::law_aligned(events, 0, 0, page_size);
    }
}

} // verus!
