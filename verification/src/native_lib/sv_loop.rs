//! The main loop of the supervisor.
use vstd::prelude::*;

use crate::arch::{Arch, BREAKPT_INSTR};
use crate::disasm::{DisasmError, Disassembler};
use crate::messages::ExecEvent;
use crate::native_lib::access::{capstone_disassemble, Found};
use crate::native_lib::libc_fns::LibcFn;
use crate::native_lib::listener::ChildListener;
use crate::native_lib::segfault::{SegfaultHandler, SegfaultPhase, SegfaultState};
use crate::native_lib::sigtrap::{SigtrapHandler, SigtrapPhase, SigtrapState, SvEnv};
use crate::native_lib::wait::{InitialCont, WaitForSignal};
use crate::native_lib::{AccessEvent, ExecEnd, MemEvents};
use crate::regs::UserRegs;
use crate::tracee::{Command, Note, Outbox, Pid, Query, Reply, Signal, Step, Turn};
use crate::words::{some_read, to_bytes};

verus! {

/// What a supervisor is in the middle of. `F` handles a fault, and `T` a breakpoint.
#[derive(Debug)]
pub enum SvMode<F, T> {
    /// The child has yet to stop for the first time.
    Starting(WaitForSignal),
    /// Nothing; it looks for what happens to the children.
    Listening,
    /// The child is about to call foreign code.
    Beginning(WaitForSignal),
    /// A fault is being handled.
    Segfault(F),
    /// A breakpoint is being handled.
    Sigtrap(T),
    /// The thread is being let run on past a signal that means nothing here.
    Resuming(Pid),
}

impl<F: View, T: View> View for SvMode<F, T> {
    type V = SvMode<F::V, T::V>;

    open spec fn view(&self) -> SvMode<F::V, T::V> {
        match *self {
            SvMode::Starting(wait) => SvMode::Starting(wait),
            SvMode::Listening => SvMode::Listening,
            SvMode::Beginning(wait) => SvMode::Beginning(wait),
            SvMode::Segfault(handler) => SvMode::Segfault(handler@),
            SvMode::Sigtrap(handler) => SvMode::Sigtrap(handler@),
            SvMode::Resuming(pid) => SvMode::Resuming(pid),
        }
    }
}

/// The main loop of the supervisor process.
pub struct SvLoop {
    env: SvEnv,
    listener: ChildListener,
    curr_pid: Pid,
    mode: SvMode<SegfaultHandler, SigtrapHandler>,
    ch_pages: Vec<usize>,
    ch_stack: Option<usize>,
    acc_events: Vec<AccessEvent>,
}

/// The state of the main loop, as plain values.
pub ghost struct SvState {
    pub env: SvEnv,
    pub listener: ChildListener,
    /// The process that the last call of foreign code was begun in.
    pub curr_pid: Pid,
    pub mode: SvMode<SegfaultState, SigtrapState>,
    /// The pages that foreign code was given.
    pub ch_pages: Seq<usize>,
    /// The stack that was set aside, during a call of foreign code.
    pub ch_stack: Option<usize>,
    /// The accesses that are on record and not yet handed over.
    pub acc_events: Seq<AccessEvent>,
}

impl View for SvLoop {
    type V = SvState;

    closed spec fn view(&self) -> SvState {
        SvState {
            env: self.env,
            listener: self.listener,
            curr_pid: self.curr_pid,
            mode: self.mode@,
            ch_pages: self.ch_pages@,
            ch_stack: self.ch_stack,
            acc_events: self.acc_events@,
        }
    }
}

/// What one turn of the main loop comes to. The loop ends only with the children.
pub type SvTurn = Turn<Seq<AccessEvent>, SvState, ExecEnd>;

impl SvState {
    /// The loop as it begins.
    pub open spec fn initial(listener: ChildListener, init_pid: Pid, env: SvEnv) -> SvState {
        SvState {
            env,
            listener,
            curr_pid: init_pid,
            mode: SvMode::Starting(WaitForSignal::fresh(Some(init_pid), Signal::Stop)),
            ch_pages: seq![],
            ch_stack: None,
            acc_events: seq![],
        }
    }

    /// Whether the state is one that the loop can be in.
    pub open spec fn wf(self) -> bool {
        &&& self.env.fault.layout.page_size > 0
        &&& match self.mode {
            SvMode::Segfault(handler) => self.ch_stack is Some && handler.wf(
                self.env.fault,
                self.ch_stack->0,
            ),
            SvMode::Sigtrap(handler) => self.ch_stack is Some && handler.wf(
                self.env,
                self.ch_stack->0,
            ),
            _ => true,
        }
    }

    /// What the loop hangs on.
    pub open spec fn asks(self) -> Query {
        match self.mode {
            SvMode::Starting(wait) => wait.asks(),
            SvMode::Listening => self.listener.asks(),
            SvMode::Beginning(wait) => wait.asks(),
            SvMode::Segfault(handler) => handler.asks(),
            SvMode::Sigtrap(handler) => handler.asks(self.env),
            SvMode::Resuming(pid) => Query::TrySyscall(pid),
        }
    }

    /// The registers that a thread faulted with, while its instruction is read.
    pub open spec fn fault_regs(self) -> Option<UserRegs> {
        match self.mode {
            SvMode::Segfault(handler) => handler.fault_regs(),
            SvMode::Sigtrap(handler) => handler.fault_regs(),
            _ => None,
        }
    }

    /// The loop goes over to another mode.
    pub open spec fn enter(
        self,
        mode: SvMode<SegfaultState, SigtrapState>,
        cmds: Seq<Command<Seq<AccessEvent>>>,
    ) -> SvTurn {
        Turn { cmds, step: Step::Ask(SvState { mode, ..self }) }
    }

    /// The loop goes back to looking for what happens to the children.
    pub open spec fn listen(self, cmds: Seq<Command<Seq<AccessEvent>>>) -> SvTurn {
        self.enter(SvMode::Listening, cmds)
    }

    /// A procedure is over that could fail.
    pub open spec fn recover(
        self,
        result: Result<(), ExecEnd>,
        cmds: Seq<Command<Seq<AccessEvent>>>,
    ) -> SvTurn {
        match result {
            Ok(()) => self.listen(cmds),
            Err(end) => Turn { cmds, step: Step::Done(end) },
        }
    }

    /// What an event leads to.
    pub open spec fn on_event(self, event: ExecEvent) -> SvTurn {
        match event {
            ExecEvent::Start(info) => (SvState {
                ch_pages: info.page_ptrs@,
                ch_stack: Some(info.stack_ptr),
                ..self
            }).enter(
                SvMode::Beginning(WaitForSignal::fresh(None, Signal::Stop)),
                seq![Command::Confirm],
            ),
            ExecEvent::End => (SvState { ch_stack: None, acc_events: seq![], ..self }).listen(
                self.env.libc.fixing(self.curr_pid) + seq![
                    Command::SendEvents(self.acc_events),
                    Command::Cont(self.curr_pid, None),
                ],
            ),
            ExecEvent::Status(pid, Signal::Segv) => if self.ch_stack is None {
                Turn { cmds: seq![], step: Step::Abort }
            } else {
                self.enter(
                    SvMode::Segfault(
                        SegfaultState { pid, phase: SegfaultPhase::GettingRegs, spans: seq![] },
                    ),
                    seq![],
                )
            },
            ExecEvent::Status(pid, Signal::Trap) => if self.ch_stack is None {
                Turn { cmds: seq![], step: Step::Abort }
            } else {
                self.enter(
                    SvMode::Sigtrap(SigtrapState { pid, phase: SigtrapPhase::GettingRegs }),
                    seq![],
                )
            },
            ExecEvent::Status(pid, signal) => self.enter(
                SvMode::Resuming(pid),
                seq![Command::Note(Note::UnexpectedSignal(signal))],
            ),
            ExecEvent::Syscall(pid) => self.listen(seq![Command::Syscall(pid)]),
            ExecEvent::Died(code) => Turn { cmds: seq![], step: Step::Done(ExecEnd(code)) },
        }
    }

    /// What a reply leads to.
    pub open spec fn next(self, reply: Reply<Found>) -> SvTurn {
        match self.mode {
            SvMode::Starting(wait) => {
                let turn = wait.next::<Seq<AccessEvent>, Found>(reply);
                match turn.step {
                    Step::Ask(wait) => self.enter(SvMode::Starting(wait), turn.cmds),
                    Step::Done(Ok(_)) => self.listen(
                        turn.cmds + seq![Command::Cont(self.curr_pid, None)],
                    ),
                    Step::Done(Err(end)) => Turn { cmds: turn.cmds, step: Step::Done(end) },
                    Step::Abort => Turn { cmds: turn.cmds, step: Step::Abort },
                }
            },
            SvMode::Listening => {
                let turn = self.listener.next::<Seq<AccessEvent>, Found>(reply);
                match turn.step {
                    Step::Ask(listener) => (SvState { listener, ..self }).listen(turn.cmds),
                    Step::Done((listener, event)) => (SvState { listener, ..self }).on_event(event),
                    Step::Abort => Turn { cmds: turn.cmds, step: Step::Abort },
                }
            },
            SvMode::Beginning(wait) => {
                let turn = wait.next::<Seq<AccessEvent>, Found>(reply);
                match turn.step {
                    Step::Ask(wait) => self.enter(SvMode::Beginning(wait), turn.cmds),
                    Step::Done(Ok(pid)) => (SvState { curr_pid: pid, ..self }).listen(
                        turn.cmds + self.env.libc.trapping(pid) + seq![Command::Syscall(pid)],
                    ),
                    _ => Turn { cmds: turn.cmds, step: Step::Abort },
                }
            },
            SvMode::Segfault(handler) => {
                let turn = handler.next::<Seq<AccessEvent>>(
                    self.env.fault,
                    self.ch_pages,
                    self.ch_stack->0,
                    reply,
                );
                let logged = SvState { acc_events: self.acc_events + self.logs(reply), ..self };
                match turn.step {
                    Step::Ask(handler) => logged.enter(SvMode::Segfault(handler), turn.cmds),
                    Step::Done(result) => logged.recover(result, turn.cmds),
                    Step::Abort => Turn { cmds: turn.cmds, step: Step::Abort },
                }
            },
            SvMode::Sigtrap(handler) => {
                let turn = handler.next(
                    self.env,
                    self.ch_pages,
                    self.ch_stack->0,
                    self.acc_events,
                    reply,
                );
                let updated = SvState {
                    ch_pages: handler.pages_after(self.env, self.ch_pages, reply),
                    acc_events: handler.acc_after(
                        self.env,
                        self.ch_pages,
                        self.acc_events,
                        reply,
                    ),
                    ..self
                };
                match turn.step {
                    Step::Ask(handler) => updated.enter(SvMode::Sigtrap(handler), turn.cmds),
                    Step::Done(result) => updated.recover(result, turn.cmds),
                    Step::Abort => Turn { cmds: turn.cmds, step: Step::Abort },
                }
            },
            SvMode::Resuming(pid) => match reply {
                // It may be that the thread is not traced.
                Reply::Success(false) => self.listen(seq![Command::Raise(pid, Signal::Cont)]),
                _ => self.listen(seq![]),
            },
        }
    }

    /// The accesses that a reply puts on record.
    pub open spec fn logs(self, reply: Reply<Found>) -> Seq<AccessEvent> {
        let page_size = self.env.fault.layout.page_size;
        match self.mode {
            SvMode::Segfault(handler) => handler.logs(self.ch_pages, page_size, reply),
            SvMode::Sigtrap(handler) => match handler.phase {
                SigtrapPhase::InShim { shim, .. } => shim.logs(self.ch_pages, page_size, reply),
                _ => seq![],
            },
            _ => seq![],
        }
    }

    /// Whether `settled` is the reply with the bytes of an instruction of this architecture
    /// decoded. Where nothing could be read of the instruction, decoding has failed. What else it came to is given
    /// by Capstone unless that failed.
    pub open spec fn decodes_to(self, arch: Arch, reply: Reply<Found>, settled: Reply<Found>) -> bool {
        match reply {
            Reply::Words(words) => {
                &&& settled matches Reply::Decoded(found)
                &&& !crate::words::any_read(words@) ==> found is Err
                &&& match found {
                    Ok(events) => self.fault_regs() is Some
                        && crate::native_lib::access::same_events(
                        events,
                        crate::native_lib::access::disassembly(
                            arch,
                            crate::words::bytes_of(words@),
                            self.fault_regs()->0,
                        ),
                    ),
                    Err(e) => e == (DisasmError { arch }),
                }
            },
            _ => settled == reply,
        }
    }
}

/// Begins the main loop of the supervisor process. There is an initial stop of the
/// child to deal with.
pub fn sv_loop(listener: ChildListener, init_pid: Pid, env: SvEnv) -> (sv: SvLoop)
    requires
        env.fault.layout.page_size > 0,
    ensures
        sv@ == SvState::initial(listener, init_pid, env),
        sv@.wf(),
{
    // The child is not let run first, so this gives no commands.
    let mut out: Outbox<MemEvents> = Outbox::new();
    let wait = WaitForSignal::wait_for_signal(
        Some(init_pid),
        Signal::Stop,
        InitialCont::No,
        &mut out,
    );
    SvLoop {
        env,
        listener,
        curr_pid: init_pid,
        mode: SvMode::Starting(wait),
        ch_pages: Vec::new(),
        ch_stack: None,
        acc_events: Vec::new(),
    }
}

impl SvLoop {
    /// What the loop hangs on.
    pub fn query(&self) -> (query: Query)
        ensures
            query == self@.asks(),
    {
        match &self.mode {
            SvMode::Starting(wait) => wait.query(),
            SvMode::Listening => self.listener.query(),
            SvMode::Beginning(wait) => wait.query(),
            SvMode::Segfault(handler) => handler.query(),
            SvMode::Sigtrap(handler) => handler.query(&self.env),
            SvMode::Resuming(pid) => Query::TrySyscall(*pid),
        }
    }

    /// The registers that a thread faulted with, while its instruction is read.
    pub fn regs_at_fault(&self) -> (regs: Option<UserRegs>)
        ensures
            regs == self@.fault_regs(),
    {
        match &self.mode {
            SvMode::Segfault(handler) => handler.regs_at_fault(),
            SvMode::Sigtrap(handler) => handler.regs_at_fault(),
            _ => None,
        }
    }

    fn enter(self, mode: SvMode<SegfaultHandler, SigtrapHandler>) -> (step: Step<SvLoop, ExecEnd>)
        ensures
            step@ == self@.enter(mode@, seq![]).step,
    {
        let mut sv = self;
        sv.mode = mode;
        Step::Ask(sv)
    }

    fn recover(self, result: Result<(), ExecEnd>) -> (step: Step<SvLoop, ExecEnd>)
        ensures
            step@ == self@.recover(result, seq![]).step,
    {
        match result {
            Ok(()) => self.enter(SvMode::Listening),
            Err(end) => Step::Done(end),
        }
    }

    fn on_event(self, event: ExecEvent, out: &mut Outbox<MemEvents>) -> (step: Step<SvLoop, ExecEnd>)
        requires
            self@.env.fault.layout.page_size > 0,
        ensures
            final(out)@ == old(out)@ + self@.on_event(event).cmds,
            step@ == self@.on_event(event).step,
            step matches Step::Ask(next) ==> next@.wf(),
    {
        proof {
            assert(out@ + Seq::<Command<Seq<AccessEvent>>>::empty() =~= out@);
        }
        let ghost before = self@;
        let mut sv = self;
        match event {
            ExecEvent::Start(info) => {
                // All the pages that foreign code is "allowed to" access.
                sv.ch_pages = info.page_ptrs;
                // And the stack for us to use later.
                sv.ch_stack = Some(info.stack_ptr);
                out.push(Command::Confirm);
                let wait = WaitForSignal::wait_for_signal(
                    None,
                    Signal::Stop,
                    InitialCont::No,
                    out,
                );
                assert(out@ =~= old(out)@ + before.on_event(event).cmds);
                sv.enter(SvMode::Beginning(wait))
            },
            ExecEvent::End => {
                sv.env.libc.fixup_libc(sv.curr_pid, out);
                out.push(Command::SendEvents(MemEvents { acc_events: sv.acc_events }));
                sv.acc_events = Vec::new();
                sv.ch_stack = None;
                // System calls no longer matter.
                out.push(Command::Cont(sv.curr_pid, None));
                assert(out@ =~= old(out)@ + before.on_event(event).cmds);
                sv.enter(SvMode::Listening)
            },
            ExecEvent::Status(pid, signal) => match signal {
                Signal::Segv => {
                    if sv.ch_stack.is_none() {
                        return Step::Abort;
                    }
                    sv.enter(SvMode::Segfault(SegfaultHandler::handle_segfault(pid)))
                },
                Signal::Trap => {
                    if sv.ch_stack.is_none() {
                        return Step::Abort;
                    }
                    sv.enter(SvMode::Sigtrap(SigtrapHandler::handle_sigtrap(pid)))
                },
                _ => {
                    out.push(Command::Note(Note::UnexpectedSignal(signal)));
                    sv.enter(SvMode::Resuming(pid))
                },
            },
            ExecEvent::Syscall(pid) => {
                out.push(Command::Syscall(pid));
                sv.enter(SvMode::Listening)
            },
            ExecEvent::Died(code) => Step::Done(ExecEnd(code)),
        }
    }

    /// Takes the reply to `query`, with the bytes of an instruction decoded.
    pub fn advance(self, reply: Reply<Found>, out: &mut Outbox<MemEvents>) -> (step: Step<
        SvLoop,
        ExecEnd,
    >)
        requires
            self@.wf(),
            self@.asks().settled_by(reply),
        ensures
            final(out)@ == old(out)@ + self@.next(reply).cmds,
            step@ == self@.next(reply).step,
            step matches Step::Ask(next) ==> next@.wf(),
    {
        proof {
            assert(out@ + Seq::<Command<Seq<AccessEvent>>>::empty() =~= out@);
        }
        let ghost before = self@;
        let SvLoop { env, listener, curr_pid, mode, mut ch_pages, ch_stack, mut acc_events } = self;
        match mode {
            SvMode::Starting(wait) => {
                let mode = match wait.advance(reply, out) {
                    Step::Ask(wait) => SvMode::Starting(wait),
                    Step::Done(Ok(_)) => {
                        out.push(Command::Cont(curr_pid, None));
                        assert(out@ =~= old(out)@ + before.next(reply).cmds);
                        SvMode::Listening
                    },
                    Step::Done(Err(end)) => return Step::Done(end),
                    Step::Abort => return Step::Abort,
                };
                Step::Ask(
                    SvLoop { env, listener, curr_pid, mode, ch_pages, ch_stack, acc_events },
                )
            },
            SvMode::Listening => match listener.advance(reply, out) {
                Step::Ask(listener) => Step::Ask(
                    SvLoop {
                        env,
                        listener,
                        curr_pid,
                        mode: SvMode::Listening,
                        ch_pages,
                        ch_stack,
                        acc_events,
                    },
                ),
                Step::Done((listener, event)) => {
                    let sv = SvLoop {
                        env,
                        listener,
                        curr_pid,
                        mode: SvMode::Listening,
                        ch_pages,
                        ch_stack,
                        acc_events,
                    };
                    sv.on_event(event, out)
                },
                Step::Abort => Step::Abort,
            },
            SvMode::Beginning(wait) => match wait.advance(reply, out) {
                Step::Ask(wait) => Step::Ask(
                    SvLoop {
                        env,
                        listener,
                        curr_pid,
                        mode: SvMode::Beginning(wait),
                        ch_pages,
                        ch_stack,
                        acc_events,
                    },
                ),
                Step::Done(Ok(pid)) => {
                    // Intercept libc events we care about.
                    env.libc.trap_libc(pid, out);
                    out.push(Command::Syscall(pid));
                    assert(out@ =~= old(out)@ + before.next(reply).cmds);
                    Step::Ask(
                        SvLoop {
                            env,
                            listener,
                            curr_pid: pid,
                            mode: SvMode::Listening,
                            ch_pages,
                            ch_stack,
                            acc_events,
                        },
                    )
                },
                _ => Step::Abort,
            },
            SvMode::Segfault(handler) => {
                let stack: usize = match ch_stack {
                    Some(stack) => stack,
                    None => return Step::Abort,
                };
                let step = handler.advance(
                    &env.fault,
                    &ch_pages,
                    stack,
                    reply,
                    &mut acc_events,
                    out,
                );
                let sv = SvLoop {
                    env,
                    listener,
                    curr_pid,
                    mode: SvMode::Listening,
                    ch_pages,
                    ch_stack,
                    acc_events,
                };
                match step {
                    Step::Ask(handler) => sv.enter(SvMode::Segfault(handler)),
                    Step::Done(result) => sv.recover(result),
                    Step::Abort => Step::Abort,
                }
            },
            SvMode::Sigtrap(handler) => {
                let stack: usize = match ch_stack {
                    Some(stack) => stack,
                    None => return Step::Abort,
                };
                let step = handler.advance(
                    &env,
                    &mut ch_pages,
                    stack,
                    reply,
                    &mut acc_events,
                    out,
                );
                let sv = SvLoop {
                    env,
                    listener,
                    curr_pid,
                    mode: SvMode::Listening,
                    ch_pages,
                    ch_stack,
                    acc_events,
                };
                match step {
                    Step::Ask(handler) => sv.enter(SvMode::Sigtrap(handler)),
                    Step::Done(result) => sv.recover(result),
                    Step::Abort => Step::Abort,
                }
            },
            SvMode::Resuming(pid) => {
                if let Reply::Success(false) = reply {
                    out.push(Command::Raise(pid, Signal::Cont));
                }
                Step::Ask(
                    SvLoop {
                        env,
                        listener,
                        curr_pid,
                        mode: SvMode::Listening,
                        ch_pages,
                        ch_stack,
                        acc_events,
                    },
                )
            },
        }
    }

    /// Takes the reply to `query`. The bytes of an instruction are decoded first.
    pub fn step(self, disasm: &Disassembler, reply: Reply<Found>, out: &mut Outbox<MemEvents>) -> (
    step: Step<SvLoop, ExecEnd>)
        requires
            self@.wf(),
            self@.asks().answered_by(reply),
        ensures
            exists|settled: Reply<Found>| #[trigger]
                self@.decodes_to(disasm.arch(), reply, settled) && final(out)@ == old(out)@ + self@.next(
                    settled,
                ).cmds && step@ == self@.next(settled).step,
            step matches Step::Ask(next) ==> next@.wf(),
    {
        let settled: Reply<Found> = match reply {
            Reply::Words(words) => match self.regs_at_fault() {
                Some(regs) => if some_read(&words) {
                    Reply::Decoded(capstone_disassemble(&to_bytes(&words), disasm, &regs))
                } else {
                    Reply::Decoded(Err(DisasmError { arch: disasm.architecture() }))
                },
                None => return Step::Abort,
            },
            reply => reply,
        };
        assert(self@.decodes_to(disasm.arch(), reply, settled));
        self.advance(settled, out)
    }
}

impl SvState {
    /// What a series of replies leads to.
    pub open spec fn run(self, replies: Seq<Reply<Found>>) -> SvTurn
        decreases replies.len(),
    {
        if replies.len() == 0 {
            Turn { cmds: seq![], step: Step::Ask(self) }
        } else {
            let turn = self.next(replies[0]);
            match turn.step {
                Step::Ask(next) => {
                    let rest = next.run(replies.skip(1));
                    Turn { cmds: turn.cmds + rest.cmds, step: rest.step }
                },
                _ => turn,
            }
        }
    }

    /// The accesses that a series of replies puts on record.
    pub open spec fn logs_all(self, replies: Seq<Reply<Found>>) -> Seq<AccessEvent>
        decreases replies.len(),
    {
        if replies.len() == 0 {
            seq![]
        } else {
            self.logs(replies[0]) + match self.next(replies[0]).step {
                Step::Ask(next) => next.logs_all(replies.skip(1)),
                _ => seq![],
            }
        }
    }

    /// Whether there is a stack to use exactly while foreign code is being called.
    pub open spec fn coherent(self) -> bool {
        self.ch_stack is Some <==> self.listener.attached
    }
}

/// The accesses that commands hand over to the child, in order.
pub open spec fn handed_over(cmds: Seq<Command<Seq<AccessEvent>>>) -> Seq<AccessEvent>
    decreases cmds.len(),
{
    if cmds.len() == 0 {
        seq![]
    } else {
        let before = handed_over(cmds.drop_last());
        match cmds.last() {
            Command::SendEvents(events) => before + events,
            _ => before,
        }
    }
}

/// Whether none of the commands hands anything over.
pub open spec fn keeps_quiet(cmds: Seq<Command<Seq<AccessEvent>>>) -> bool {
    forall|i: int| 0 <= i < cmds.len() ==> !(#[trigger] cmds[i] is SendEvents)
}

proof fn lemma_handed_over_add(
    first: Seq<Command<Seq<AccessEvent>>>,
    then: Seq<Command<Seq<AccessEvent>>>,
)
    ensures
        handed_over(first + then) == handed_over(first) + handed_over(then),
    decreases then.len(),
{
    if then.len() == 0 {
        assert(first + then =~= first);
        assert(handed_over(first) + handed_over(then) =~= handed_over(first));
    } else {
        assert((first + then).drop_last() =~= first + then.drop_last());
        lemma_handed_over_add(first, then.drop_last());
        assert(handed_over(first + then) =~= handed_over(first) + handed_over(then));
    }
}

proof fn lemma_nothing_handed_over(cmds: Seq<Command<Seq<AccessEvent>>>)
    requires
        keeps_quiet(cmds),
    ensures
        handed_over(cmds) == Seq::<AccessEvent>::empty(),
    decreases cmds.len(),
{
    if cmds.len() > 0 {
        assert(!(cmds[cmds.len() - 1] is SendEvents));
        assert forall|i: int| 0 <= i < cmds.drop_last().len() implies !(
        #[trigger] cmds.drop_last()[i] is SendEvents) by {
            assert(cmds.drop_last()[i] == cmds[i]);
        }
        lemma_nothing_handed_over(cmds.drop_last());
    }
}

/// Handling a fault hands nothing over.
proof fn lemma_fault_keeps_quiet(
    handler: SegfaultState,
    env: SvEnv,
    pages: Seq<usize>,
    ch_stack: usize,
    reply: Reply<Found>,
)
    ensures
        keeps_quiet(handler.next::<Seq<AccessEvent>>(env.fault, pages, ch_stack, reply).cmds),
{
}

/// What one turn hands over, together with what is then on record, is what was on record
/// and what the turn has put there.
proof fn lemma_turn_conserves(sv: SvState, reply: Reply<Found>)
    ensures
        sv.next(reply).step matches Step::Ask(next) ==> handed_over(sv.next(reply).cmds)
            + next.acc_events == sv.acc_events + sv.logs(reply),
{
    let turn = sv.next(reply);
    if let Step::Ask(next) = turn.step {
        assert(sv.acc_events + Seq::<AccessEvent>::empty() =~= sv.acc_events);
        match sv.mode {
            SvMode::Listening => {
                let heard = sv.listener.next::<Seq<AccessEvent>, Found>(reply);
                if let Step::Done((_, ExecEvent::End)) = heard.step {
                    let fixed = sv.env.libc.fixing::<Seq<AccessEvent>>(sv.curr_pid);
                    let sent = seq![
                        Command::SendEvents(sv.acc_events),
                        Command::Cont(sv.curr_pid, None),
                    ];
                    assert(turn.cmds == fixed + sent);
                    lemma_handed_over_add(fixed, sent);
                    lemma_nothing_handed_over(fixed);
                    reveal_with_fuel(handed_over, 3);
                    assert(handed_over(turn.cmds) =~= sv.acc_events);
                    assert(handed_over(turn.cmds) + next.acc_events =~= sv.acc_events);
                } else {
                    lemma_nothing_handed_over(turn.cmds);
                    assert(handed_over(turn.cmds) + next.acc_events =~= sv.acc_events);
                }
            },
            SvMode::Segfault(handler) => {
                lemma_fault_keeps_quiet(handler, sv.env, sv.ch_pages, sv.ch_stack->0, reply);
                lemma_nothing_handed_over(turn.cmds);
                assert(handed_over(turn.cmds) + next.acc_events =~= sv.acc_events + sv.logs(reply));
            },
            SvMode::Sigtrap(handler) => match handler.phase {
                SigtrapPhase::ReadingFlag { f, regs, ret_is_libc, .. } => {
                    if let Reply::Word(word) = reply {
                        reveal_with_fuel(handed_over, 5);
                        let cmds = handler.shimming(
                            sv.env,
                            f,
                            regs,
                            ret_is_libc,
                            word,
                            sv.acc_events,
                        );
                        assert(turn.cmds == cmds);
                        assert(cmds.drop_last().last() is SetRegs);
                        assert(cmds.drop_last().drop_last().last() == Command::SendEvents(
                            sv.acc_events,
                        ));
                        assert(cmds.drop_last().drop_last().drop_last().last() is Write);
                        assert(handed_over(cmds) =~= sv.acc_events);
                        assert(handed_over(cmds) + next.acc_events =~= sv.acc_events);
                    }
                },
                SigtrapPhase::InShim { shim, .. } => {
                    if let Some(fault) = shim.fault {
                        lemma_fault_keeps_quiet(fault, sv.env, sv.ch_pages, sv.ch_stack->0, reply);
                    }
                    lemma_nothing_handed_over(turn.cmds);
                    assert(handed_over(turn.cmds) + next.acc_events =~= sv.acc_events + sv.logs(
                        reply,
                    ));
                },
                _ => {
                    lemma_nothing_handed_over(turn.cmds);
                    assert(handed_over(turn.cmds) + next.acc_events =~= sv.acc_events);
                },
            },
            _ => {
                lemma_nothing_handed_over(turn.cmds);
                assert(handed_over(turn.cmds) + next.acc_events =~= sv.acc_events);
            },
        }
    }
}

/// What two stretches hand over and leave is what there was and what they have added.
proof fn lemma_chain<A>(
    sent: Seq<A>,
    sent_later: Seq<A>,
    left: Seq<A>,
    middle: Seq<A>,
    added_later: Seq<A>,
    before: Seq<A>,
    added: Seq<A>,
)
    requires
        sent + middle == before + added,
        sent_later + left == middle + added_later,
    ensures
        (sent + sent_later) + left == before + (added + added_later),
{
    assert((sent + sent_later) + left =~= sent + (sent_later + left));
    assert(sent + (middle + added_later) =~= (sent + middle) + added_later);
    assert((before + added) + added_later =~= before + (added + added_later));
}

/// Every access that is put on record is handed over exactly once and in order, or is
/// still on record.
pub proof fn law_no_access_is_lost(sv: SvState, replies: Seq<Reply<Found>>)
    ensures
        sv.run(replies).step matches Step::Ask(end) ==> handed_over(sv.run(replies).cmds)
            + end.acc_events == sv.acc_events + sv.logs_all(replies),
    decreases replies.len(),
{
    if replies.len() == 0 {
        assert(sv.acc_events + sv.logs_all(replies) =~= sv.acc_events);
        assert(handed_over(seq![]) + sv.acc_events =~= sv.acc_events);
    } else {
        let turn = sv.next(replies[0]);
        if let Step::Ask(next) = turn.step {
            let rest = replies.skip(1);
            law_no_access_is_lost(next, rest);
            lemma_turn_conserves(sv, replies[0]);
            let after = next.run(rest);
            lemma_handed_over_add(turn.cmds, after.cmds);
            if let Step::Ask(end) = after.step {
                lemma_chain(
                    handed_over(turn.cmds),
                    handed_over(after.cmds),
                    end.acc_events,
                    next.acc_events,
                    next.logs_all(rest),
                    sv.acc_events,
                    sv.logs(replies[0]),
                );
            }
        }
    }
}

/// Nothing is left on record when a call of foreign code ends, or when a shim begins.
pub proof fn law_record_is_emptied(sv: SvState, reply: Reply<Found>)
    ensures
        sv.next(reply).step matches Step::Ask(next) ==> {
            &&& sv.listener.attached && !next.listener.attached ==> next.acc_events == Seq::<
                AccessEvent,
            >::empty()
            &&& next.mode matches SvMode::Sigtrap(handler) ==> handler.phase is InShim ==> (
            sv.mode matches SvMode::Sigtrap(before) && (before.phase is InShim || next.acc_events
                == Seq::<AccessEvent>::empty()))
        },
{
}

/// While foreign code is called there is always a stack to use, so that neither a fault
/// nor a breakpoint ever brings the supervisor down for want of one.
pub proof fn law_stack_during_calls(sv: SvState, reply: Reply<Found>)
    requires
        sv.coherent(),
    ensures
        sv.next(reply).step matches Step::Ask(next) ==> next.coherent(),
        sv.mode is Listening ==> match sv.listener.next::<Seq<AccessEvent>, Found>(reply).step {
            Step::Done((_, ExecEvent::Status(_, Signal::Segv))) => (sv.next(
                reply,
            ).step matches Step::Ask(next) && next.mode is Segfault),
            Step::Done((_, ExecEvent::Status(_, Signal::Trap))) => (sv.next(
                reply,
            ).step matches Step::Ask(next) && next.mode is Sigtrap),
            _ => true,
        },
        forall|init_pid: Pid, env: SvEnv| #[trigger]
            SvState::initial(
                ChildListener {
                    attached: false,
                    override_retcode: None,
                    last_code: None,
                    receiving: false,
                },
                init_pid,
                env,
            ).coherent(),
{
}

/// When a call of foreign code begins, the allocation functions are made to trap before
/// the child runs on. When it ends, they begin with their own code again before the
/// child runs on.
pub proof fn law_functions_trap_during_calls(sv: SvState, reply: Reply<Found>, f: LibcFn)
    requires
        sv.env.libc.addrs.distinct(),
    ensures
        ({
            let turn = sv.next(reply);
            let at = sv.env.libc.addrs.of(f);
            &&& turn.step matches Step::Ask(next) ==> {
                &&& sv.mode is Beginning && next.mode is Listening ==> {
                    &&& turn.cmds.last() == Command::<Seq<AccessEvent>>::Syscall(next.curr_pid)
                    &&& crate::script::last_write(turn.cmds, next.curr_pid, at) == Some(
                        BREAKPT_INSTR,
                    )
                }
                &&& sv.listener.attached && !next.listener.attached ==> {
                    &&& turn.cmds.last() == Command::<Seq<AccessEvent>>::Cont(sv.curr_pid, None)
                    &&& crate::script::last_write(turn.cmds, sv.curr_pid, at) == Some(
                        sv.env.libc.words.of(f),
                    )
                }
            }
        }),
{
    reveal_with_fuel(crate::script::last_write, 3);
    let table = sv.env.libc;
    let at = table.addrs.of(f);
    let turn = sv.next(reply);
    if let Step::Ask(next) = turn.step {
        if sv.mode is Beginning && next.mode is Listening {
            let pid = next.curr_pid;
            let traps = table.trapping::<Seq<AccessEvent>>(pid);
            let run_on = seq![Command::<Seq<AccessEvent>>::Syscall(pid)];
            crate::native_lib::libc_fns::lemma_writing::<Seq<AccessEvent>>(
                table,
                pid,
                crate::native_lib::libc_fns::breakpoints(),
            );
            assert(turn.cmds =~= traps + run_on);
            crate::script::lemma_last_write_add(traps, run_on, pid, at);
        }
        if sv.listener.attached && !next.listener.attached {
            let pid = sv.curr_pid;
            let fixed = table.fixing::<Seq<AccessEvent>>(pid);
            let run_on = seq![Command::SendEvents(sv.acc_events), Command::Cont(pid, None)];
            crate::native_lib::libc_fns::lemma_writing::<Seq<AccessEvent>>(
                table,
                pid,
                table.words,
            );
            assert(turn.cmds =~= fixed + run_on);
            crate::script::lemma_last_write_add(fixed, run_on, pid, at);
        }
    }
}

/// Where nothing could be read of an instruction that faulted the supervisor gives up, and
/// puts nothing on record.
pub proof fn law_unreadable_instruction(
    sv: SvState,
    arch: Arch,
    words: Vec<Option<usize>>,
    settled: Reply<Found>,
)
    requires
        sv.asks() is ReadWords,
        !crate::words::any_read(words@),
        sv.decodes_to(arch, Reply::Words(words), settled),
    ensures
        sv.next(settled).step is Abort,
        sv.next(settled).cmds == Seq::<Command<Seq<AccessEvent>>>::empty(),
        sv.logs(settled) == Seq::<AccessEvent>::empty(),
{
}

/// What commands hand over to the child, one message after the other.
pub open spec fn messages(cmds: Seq<Command<Seq<AccessEvent>>>) -> Seq<Seq<AccessEvent>>
    decreases cmds.len(),
{
    if cmds.len() == 0 {
        seq![]
    } else {
        let before = messages(cmds.drop_last());
        match cmds.last() {
            Command::SendEvents(events) => before.push(events),
            _ => before,
        }
    }
}

/// The accesses that were reported, message by message, and those that were not yet.
pub ghost struct Tally {
    pub reported: Seq<Seq<AccessEvent>>,
    pub pending: Seq<AccessEvent>,
}

impl SvState {
    /// Whether a reply ends a call of foreign code.
    pub open spec fn ends(self, reply: Reply<Found>) -> bool {
        self.mode is Listening && (self.listener.next::<Seq<AccessEvent>, Found>(
            reply,
        ).step matches Step::Done((_, ExecEvent::End)))
    }

    /// Whether a reply sends a thread into a shim.
    pub open spec fn enters_shim(self, reply: Reply<Found>) -> bool {
        (self.mode matches SvMode::Sigtrap(handler) && handler.phase is ReadingFlag) && reply is Word
    }

    /// What a series of replies tells, if `pending` is not reported yet: each message is made
    /// up of the replies since the one before, and of nothing else.
    pub open spec fn tally(
        self,
        replies: Seq<Reply<Found>>,
        pending: Seq<AccessEvent>,
    ) -> Tally
        decreases replies.len(),
    {
        if replies.len() == 0 {
            Tally { reported: seq![], pending }
        } else {
            let first = if self.ends(replies[0]) || self.enters_shim(replies[0]) {
                Tally { reported: seq![pending], pending: seq![] }
            } else {
                Tally { reported: seq![], pending: pending + self.logs(replies[0]) }
            };
            match self.next(replies[0]).step {
                Step::Ask(next) => {
                    let rest = next.tally(replies.skip(1), first.pending);
                    Tally { reported: first.reported + rest.reported, pending: rest.pending }
                },
                _ => first,
            }
        }
    }

    /// How many calls of foreign code a series of replies ends.
    pub open spec fn calls_ended(self, replies: Seq<Reply<Found>>) -> nat
        decreases replies.len(),
    {
        if replies.len() == 0 {
            0
        } else {
            let first: nat = if self.ends(replies[0]) {
                1
            } else {
                0
            };
            match self.next(replies[0]).step {
                Step::Ask(next) => first + next.calls_ended(replies.skip(1)),
                _ => first,
            }
        }
    }

    /// How many times a series of replies sends a thread into a shim.
    pub open spec fn shims_entered(self, replies: Seq<Reply<Found>>) -> nat
        decreases replies.len(),
    {
        if replies.len() == 0 {
            0
        } else {
            let first: nat = if self.enters_shim(replies[0]) {
                1
            } else {
                0
            };
            match self.next(replies[0]).step {
                Step::Ask(next) => first + next.shims_entered(replies.skip(1)),
                _ => first,
            }
        }
    }
}

proof fn lemma_messages_add(
    first: Seq<Command<Seq<AccessEvent>>>,
    then: Seq<Command<Seq<AccessEvent>>>,
)
    ensures
        messages(first + then) == messages(first) + messages(then),
    decreases then.len(),
{
    if then.len() == 0 {
        assert(first + then =~= first);
        assert(messages(first) + messages(then) =~= messages(first));
    } else {
        assert((first + then).drop_last() =~= first + then.drop_last());
        lemma_messages_add(first, then.drop_last());
        assert(messages(first + then) =~= messages(first) + messages(then));
    }
}

proof fn lemma_no_messages(cmds: Seq<Command<Seq<AccessEvent>>>)
    requires
        keeps_quiet(cmds),
    ensures
        messages(cmds) == Seq::<Seq<AccessEvent>>::empty(),
    decreases cmds.len(),
{
    if cmds.len() > 0 {
        assert(!(cmds[cmds.len() - 1] is SendEvents));
        assert forall|i: int| 0 <= i < cmds.drop_last().len() implies !(
        #[trigger] cmds.drop_last()[i] is SendEvents) by {
            assert(cmds.drop_last()[i] == cmds[i]);
        }
        lemma_no_messages(cmds.drop_last());
    }
}

/// What one turn hands over, and what is on record after it.
proof fn lemma_turn_reports(sv: SvState, reply: Reply<Found>)
    ensures
        messages(sv.next(reply).cmds) == (if sv.ends(reply) || sv.enters_shim(reply) {
            seq![sv.acc_events]
        } else {
            seq![]
        }),
        sv.ends(reply) || sv.enters_shim(reply) ==> sv.next(reply).step is Ask,
        sv.next(reply).step matches Step::Ask(next) ==> next.acc_events == (if sv.ends(reply)
            || sv.enters_shim(reply) {
            seq![]
        } else {
            sv.acc_events + sv.logs(reply)
        }),
{
    let turn = sv.next(reply);
    assert(sv.acc_events + Seq::<AccessEvent>::empty() =~= sv.acc_events);
    reveal_with_fuel(messages, 5);
    match sv.mode {
        SvMode::Listening => {
            if sv.ends(reply) {
                let fixed = sv.env.libc.fixing::<Seq<AccessEvent>>(sv.curr_pid);
                let sent = seq![
                    Command::SendEvents(sv.acc_events),
                    Command::Cont(sv.curr_pid, None),
                ];
                assert(turn.cmds == fixed + sent);
                lemma_messages_add(fixed, sent);
                lemma_no_messages(fixed);
                assert(sent.drop_last() =~= seq![Command::SendEvents(sv.acc_events)]);
                assert(messages(sent) =~= seq![sv.acc_events]);
                assert(messages(turn.cmds) =~= seq![sv.acc_events]);
            } else {
                lemma_no_messages(turn.cmds);
            }
        },
        SvMode::Segfault(handler) => {
            lemma_fault_keeps_quiet(handler, sv.env, sv.ch_pages, sv.ch_stack->0, reply);
            lemma_no_messages(turn.cmds);
        },
        SvMode::Sigtrap(handler) => match handler.phase {
            SigtrapPhase::ReadingFlag { f, regs, ret_is_libc, .. } => {
                if let Reply::Word(word) = reply {
                    let cmds = handler.shimming(
                        sv.env,
                        f,
                        regs,
                        ret_is_libc,
                        word,
                        sv.acc_events,
                    );
                    assert(turn.cmds == cmds);
                    assert(cmds.last() is Cont);
                    assert(cmds.drop_last().last() is SetRegs);
                    let most = cmds.drop_last().drop_last();
                    assert(most.last() == Command::SendEvents(sv.acc_events));
                    assert(most.drop_last().last() is Write);
                    assert(messages(cmds) =~= seq![sv.acc_events]);
                } else {
                    lemma_no_messages(turn.cmds);
                }
            },
            SigtrapPhase::InShim { shim, .. } => {
                if let Some(fault) = shim.fault {
                    lemma_fault_keeps_quiet(fault, sv.env, sv.ch_pages, sv.ch_stack->0, reply);
                }
                lemma_no_messages(turn.cmds);
            },
            _ => {
                lemma_no_messages(turn.cmds);
            },
        },
        _ => {
            lemma_no_messages(turn.cmds);
        },
    }
}

/// The child gets exactly one message for each call of foreign code that ends, and one
/// before each shim begins. What is sent is exactly what was put on record since the
/// message before, in order: nothing shows up twice or is lost. What came since the last
/// message is still on record.
pub proof fn law_each_message_is_sent_once(sv: SvState, replies: Seq<Reply<Found>>)
    ensures
        messages(sv.run(replies).cmds) == sv.tally(replies, sv.acc_events).reported,
        messages(sv.run(replies).cmds).len() == sv.calls_ended(replies) + sv.shims_entered(replies),
        sv.run(replies).step matches Step::Ask(end) ==> end.acc_events == sv.tally(
            replies,
            sv.acc_events,
        ).pending,
    decreases replies.len(),
{
    if replies.len() > 0 {
        let turn = sv.next(replies[0]);
        lemma_turn_reports(sv, replies[0]);
        if let Step::Ask(next) = turn.step {
            let rest = replies.skip(1);
            law_each_message_is_sent_once(next, rest);
            lemma_messages_add(turn.cmds, next.run(rest).cmds);
        }
    }
}

} // verus!
