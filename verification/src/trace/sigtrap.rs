//! What happens when the child hits the breakpoint at the start of an allocation
//! function.
use vstd::prelude::*;

use crate::arch::{BREAKPT_INSTR, BREAKPT_INSTR_SIZE};
use crate::regs::UserRegs;
use crate::trace::libc_events::{record_free, record_malloc, MagicLibcValues};
use crate::trace::wait::WaitForSignal;
use crate::trace::{ExecError, LibcEvent};
use crate::tracee::{Command, Note, Outbox, Pid, Query, Reply, Signal, Step, Turn};

verus! {

/// How far the interception of a call has come.
#[derive(Debug, Clone, Copy, PartialEq, Eq, Structural)]
pub enum InterceptPhase {
    /// The return address is being read from the stack.
    ReadingStack,
    /// The code at the return address is being read.
    ReadingReturn { ret_addr: usize },
    /// The function runs, and traps where it returns to.
    Returning { ret_addr: usize, ret_bytes: usize, wait: WaitForSignal },
    /// The function has returned.
    Returned { ret_addr: usize, ret_bytes: usize },
}

/// Lets a libc function run undisturbed and gets hold of the value it returns.
#[derive(Debug, Clone, Copy, PartialEq, Eq, Structural)]
pub struct Intercept {
    pub pid: Pid,
    /// The registers that the function is entered with.
    pub regs: UserRegs,
    /// The address of the function.
    pub fn_addr: usize,
    /// The word it originally started with.
    pub fn_bytes: usize,
    pub phase: InterceptPhase,
}

impl View for Intercept {
    type V = Intercept;

    open spec fn view(&self) -> Intercept {
        *self
    }
}

impl Intercept {
    /// The interception as it begins, for a thread that trapped with these registers.
    pub open spec fn fresh(
        pid: Pid,
        regs: UserRegs,
        fn_addr: usize,
        fn_bytes: usize,
    ) -> Intercept {
        Intercept {
            pid,
            regs: crate::regs::before_breakpoint(regs),
            fn_addr,
            fn_bytes,
            phase: InterceptPhase::ReadingStack,
        }
    }

    /// The commands that let the function run until it returns: a breakpoint goes to
    /// the return address, and the function gets back its own code.
    pub open spec fn releasing<E>(self, ret_addr: usize) -> Seq<Command<E>> {
        seq![
            Command::Write(self.pid, ret_addr, BREAKPT_INSTR),
            Command::Write(self.pid, self.fn_addr, self.fn_bytes),
            Command::SetRegs(self.pid, self.regs),
        ] + WaitForSignal::opening(self.pid, true)
    }

    /// The commands for when the function has returned: it traps as before, the code
    /// that it returned into is repaired, and the thread runs on.
    pub open spec fn retrapping<E>(self, ret_addr: usize, ret_bytes: usize, regs: UserRegs) -> Seq<
        Command<E>,
    > {
        seq![
            Command::Write(self.pid, self.fn_addr, BREAKPT_INSTR),
            Command::Write(self.pid, ret_addr, ret_bytes),
            Command::SetRegs(self.pid, crate::regs::before_breakpoint(regs)),
            Command::Syscall(self.pid),
        ]
    }

    /// What the interception hangs on.
    pub open spec fn asks(self) -> Query {
        match self.phase {
            InterceptPhase::ReadingStack => Query::TryRead(self.pid, self.regs.rsp),
            InterceptPhase::ReadingReturn { ret_addr } => Query::Read(self.pid, ret_addr),
            InterceptPhase::Returning { wait, .. } => wait.asks(),
            InterceptPhase::Returned { .. } => Query::GetRegs(self.pid),
        }
    }

    /// What a reply leads to.
    pub open spec fn next<E, D>(self, reply: Reply<D>) -> Turn<
        E,
        Intercept,
        Result<isize, ExecError>,
    > {
        match (self.phase, reply) {
            (InterceptPhase::ReadingStack, Reply::MaybeWord(Some(ret_addr))) => Turn {
                cmds: seq![],
                step: Step::Ask(
                    Intercept { phase: InterceptPhase::ReadingReturn { ret_addr }, ..self },
                ),
            },
            (InterceptPhase::ReadingStack, Reply::MaybeWord(None)) => Turn {
                cmds: seq![],
                step: Step::Done(Err(ExecError::Shrug)),
            },
            (InterceptPhase::ReadingReturn { ret_addr }, Reply::Word(ret_bytes)) => Turn {
                cmds: self.releasing(ret_addr),
                step: Step::Ask(
                    Intercept {
                        phase: InterceptPhase::Returning {
                            ret_addr,
                            ret_bytes,
                            wait: WaitForSignal::fresh(self.pid, Signal::Trap),
                        },
                        ..self
                    },
                ),
            },
            (InterceptPhase::Returning { ret_addr, ret_bytes, wait }, _) => {
                let turn = wait.next::<E, D>(reply);
                Turn {
                    cmds: turn.cmds,
                    step: match turn.step {
                        Step::Ask(wait) => Step::Ask(
                            Intercept {
                                phase: InterceptPhase::Returning { ret_addr, ret_bytes, wait },
                                ..self
                            },
                        ),
                        Step::Done(Ok(())) => Step::Ask(
                            Intercept {
                                phase: InterceptPhase::Returned { ret_addr, ret_bytes },
                                ..self
                            },
                        ),
                        Step::Done(Err(e)) => Step::Done(Err(e)),
                        Step::Abort => Step::Abort,
                    },
                }
            },
            (InterceptPhase::Returned { ret_addr, ret_bytes }, Reply::Regs(regs)) => if regs.rip
                < BREAKPT_INSTR_SIZE {
                Turn { cmds: seq![], step: Step::Abort }
            } else {
                Turn {
                    cmds: self.retrapping(ret_addr, ret_bytes, regs),
                    step: Step::Done(Ok(crate::regs::signed(regs.rax) as isize)),
                }
            },
            _ => Turn { cmds: seq![], step: Step::Abort },
        }
    }

    /// What a series of replies leads to.
    pub open spec fn run<E, D>(self, replies: Seq<Reply<D>>) -> Turn<
        E,
        Intercept,
        Result<isize, ExecError>,
    >
        decreases replies.len(),
    {
        if replies.len() == 0 {
            Turn { cmds: seq![], step: Step::Ask(self) }
        } else {
            let turn = self.next::<E, D>(replies[0]);
            match turn.step {
                Step::Ask(next) => {
                    let rest = next.run::<E, D>(replies.skip(1));
                    Turn { cmds: turn.cmds + rest.cmds, step: rest.step }
                },
                _ => turn,
            }
        }
    }

    /// Begins to intercept the call of the function at `fn_addr`, whose breakpoint the
    /// thread has just hit with these registers.
    pub fn intercept_retptr(pid: Pid, regs: UserRegs, fn_addr: usize, fn_bytes: usize) -> (call:
        Intercept)
        requires
            regs.rip >= BREAKPT_INSTR_SIZE,
        ensures
            call == Intercept::fresh(pid, regs, fn_addr, fn_bytes),
    {
        let mut regs = regs;
        regs.set_ip(regs.ip() - BREAKPT_INSTR_SIZE);
        Intercept { pid, regs, fn_addr, fn_bytes, phase: InterceptPhase::ReadingStack }
    }

    /// What the interception hangs on.
    pub fn query(&self) -> (query: Query)
        ensures
            query == self.asks(),
    {
        match self.phase {
            InterceptPhase::ReadingStack => Query::TryRead(self.pid, self.regs.sp()),
            InterceptPhase::ReadingReturn { ret_addr } => Query::Read(self.pid, ret_addr),
            InterceptPhase::Returning { wait, .. } => wait.query(),
            InterceptPhase::Returned { .. } => Query::GetRegs(self.pid),
        }
    }

    fn at(&self, phase: InterceptPhase) -> (call: Intercept)
        ensures
            call == (Intercept { phase, ..*self }),
    {
        Intercept {
            pid: self.pid,
            regs: self.regs,
            fn_addr: self.fn_addr,
            fn_bytes: self.fn_bytes,
            phase,
        }
    }

    /// Takes the reply to `query`.
    pub fn advance<E: View, D>(self, reply: Reply<D>, out: &mut Outbox<E>) -> (step: Step<
        Intercept,
        Result<isize, ExecError>,
    >)
        requires
            self.asks().settled_by(reply),
        ensures
            final(out)@ == old(out)@ + self.next::<E::V, D>(reply).cmds,
            step == self.next::<E::V, D>(reply).step,
    {
        proof {
            assert(out@ + Seq::<Command<E::V>>::empty() =~= out@);
        }
        match self.phase {
            InterceptPhase::ReadingStack => match reply {
                Reply::MaybeWord(Some(ret_addr)) => Step::Ask(
                    self.at(InterceptPhase::ReadingReturn { ret_addr }),
                ),
                _ => Step::Done(Err(ExecError::Shrug)),
            },
            InterceptPhase::ReadingReturn { ret_addr } => match reply {
                Reply::Word(ret_bytes) => {
                    out.push(Command::Write(self.pid, ret_addr, BREAKPT_INSTR));
                    out.push(Command::Write(self.pid, self.fn_addr, self.fn_bytes));
                    out.push(Command::SetRegs(self.pid, self.regs));
                    let wait = WaitForSignal::wait_for_signal(self.pid, Signal::Trap, true, out);
                    assert(out@ =~= old(out)@ + self.releasing(ret_addr));
                    Step::Ask(self.at(InterceptPhase::Returning { ret_addr, ret_bytes, wait }))
                },
                _ => Step::Abort,
            },
            InterceptPhase::Returning { ret_addr, ret_bytes, wait } => match wait.advance(
                reply,
                out,
            ) {
                Step::Ask(wait) => Step::Ask(
                    self.at(InterceptPhase::Returning { ret_addr, ret_bytes, wait }),
                ),
                Step::Done(Ok(())) => Step::Ask(
                    self.at(InterceptPhase::Returned { ret_addr, ret_bytes }),
                ),
                Step::Done(Err(e)) => Step::Done(Err(e)),
                Step::Abort => Step::Abort,
            },
            InterceptPhase::Returned { ret_addr, ret_bytes } => match reply {
                Reply::Regs(regs) => {
                    let mut regs = regs;
                    let ghost seen = regs;
                    if regs.ip() < BREAKPT_INSTR_SIZE {
                        return Step::Abort;
                    }
                    let ptr: isize = regs.retval();
                    regs.set_ip(regs.ip() - BREAKPT_INSTR_SIZE);
                    out.push(Command::Write(self.pid, self.fn_addr, BREAKPT_INSTR));
                    out.push(Command::Write(self.pid, ret_addr, ret_bytes));
                    out.push(Command::SetRegs(self.pid, regs));
                    out.push(Command::Syscall(self.pid));
                    assert(out@ =~= old(out)@ + self.retrapping(ret_addr, ret_bytes, seen));
                    Step::Done(Ok(ptr))
                },
                _ => Step::Abort,
            },
        }
    }
}

/// Handles the breakpoint that a thread has hit: logs the allocation or release
/// behind it down, once the function has done its work.
#[derive(Debug, Clone, Copy, PartialEq, Eq, Structural)]
pub enum SigtrapHandler {
    /// The registers are being looked at.
    GettingRegs(Pid),
    /// `malloc` was called for so many bytes.
    Malloc { size: usize, call: Intercept },
    /// `realloc` was called to move a pointer to so many bytes.
    Realloc { old_ptr: usize, size: usize, call: Intercept },
    /// `free` was called.
    Free { call: Intercept },
}

impl View for SigtrapHandler {
    type V = SigtrapHandler;

    open spec fn view(&self) -> SigtrapHandler {
        *self
    }
}

/// Whether the range of an allocation would end past the last address.
pub open spec fn overflows(ptr: isize, size: usize) -> bool {
    ptr >= 0 && ptr + size > usize::MAX
}

impl SigtrapHandler {
    /// What the handler hangs on.
    pub open spec fn asks(self) -> Query {
        match self {
            SigtrapHandler::GettingRegs(pid) => Query::TryGetRegs(pid),
            SigtrapHandler::Malloc { call, .. } => call.asks(),
            SigtrapHandler::Realloc { call, .. } => call.asks(),
            SigtrapHandler::Free { call } => call.asks(),
        }
    }

    /// What a reply leads to.
    pub open spec fn next<E, D>(self, vals: MagicLibcValues, reply: Reply<D>) -> Turn<
        E,
        SigtrapHandler,
        Result<(), ExecError>,
    > {
        match self {
            SigtrapHandler::GettingRegs(pid) => match reply {
                Reply::MaybeRegs(Some(regs)) => if regs.rip < BREAKPT_INSTR_SIZE {
                    Turn { cmds: seq![], step: Step::Abort }
                } else {
                    let at = crate::regs::before_breakpoint(regs).rip;
                    if at == vals.malloc_addr {
                        Turn {
                            cmds: seq![],
                            step: Step::Ask(
                                SigtrapHandler::Malloc {
                                    size: regs.rdi,
                                    call: Intercept::fresh(
                                        pid,
                                        regs,
                                        vals.malloc_addr,
                                        vals.malloc_bytes,
                                    ),
                                },
                            ),
                        }
                    } else if at == vals.realloc_addr {
                        Turn {
                            cmds: seq![],
                            step: Step::Ask(
                                SigtrapHandler::Realloc {
                                    old_ptr: regs.rdi,
                                    size: regs.rsi,
                                    call: Intercept::fresh(
                                        pid,
                                        regs,
                                        vals.realloc_addr,
                                        vals.realloc_bytes,
                                    ),
                                },
                            ),
                        }
                    } else if at == vals.free_addr {
                        Turn {
                            cmds: seq![],
                            step: Step::Ask(
                                SigtrapHandler::Free {
                                    call: Intercept::fresh(
                                        pid,
                                        regs,
                                        vals.free_addr,
                                        vals.free_bytes,
                                    ),
                                },
                            ),
                        }
                    } else {
                        Turn {
                            cmds: seq![
                                Command::Note(Note::UnexpectedTrap(at)),
                                Command::Syscall(pid),
                            ],
                            step: Step::Done(Ok(())),
                        }
                    }
                },
                _ => Turn { cmds: seq![], step: Step::Done(Err(ExecError::Shrug)) },
            },
            SigtrapHandler::Malloc { size, call } => {
                let turn = call.next::<E, D>(reply);
                Turn {
                    cmds: turn.cmds,
                    step: match turn.step {
                        Step::Ask(call) => Step::Ask(SigtrapHandler::Malloc { size, call }),
                        Step::Done(Ok(ptr)) => if overflows(ptr, size) {
                            Step::Abort
                        } else {
                            Step::Done(Ok(()))
                        },
                        Step::Done(Err(e)) => Step::Done(Err(e)),
                        Step::Abort => Step::Abort,
                    },
                }
            },
            SigtrapHandler::Realloc { old_ptr, size, call } => {
                let turn = call.next::<E, D>(reply);
                Turn {
                    cmds: turn.cmds,
                    step: match turn.step {
                        Step::Ask(call) => Step::Ask(
                            SigtrapHandler::Realloc { old_ptr, size, call },
                        ),
                        Step::Done(Ok(ptr)) => if overflows(ptr, size) {
                            Step::Abort
                        } else {
                            Step::Done(Ok(()))
                        },
                        Step::Done(Err(e)) => Step::Done(Err(e)),
                        Step::Abort => Step::Abort,
                    },
                }
            },
            SigtrapHandler::Free { call } => {
                let turn = call.next::<E, D>(reply);
                Turn {
                    cmds: turn.cmds,
                    step: match turn.step {
                        Step::Ask(call) => Step::Ask(SigtrapHandler::Free { call }),
                        Step::Done(Ok(_)) => Step::Done(Ok(())),
                        Step::Done(Err(e)) => Step::Done(Err(e)),
                        Step::Abort => Step::Abort,
                    },
                }
            },
        }
    }

    /// The record of allocations after a reply. A release goes on record when `free` is
    /// entered, an allocation when the function has returned a pointer: neither zero nor
    /// a negative value is one. A `realloc` that returns none has failed and left the old
    /// pointer as it was, unless it was called for no bytes and returned zero: then it
    /// has freed the old pointer, and allocated nothing.
    pub open spec fn record_after<D>(
        self,
        vals: MagicLibcValues,
        reply: Reply<D>,
        events: Seq<LibcEvent>,
    ) -> Seq<LibcEvent> {
        match self {
            SigtrapHandler::GettingRegs(pid) => match reply {
                Reply::MaybeRegs(Some(regs)) => {
                    let at = crate::regs::before_breakpoint(regs).rip;
                    if regs.rip >= BREAKPT_INSTR_SIZE && at == vals.free_addr && at
                        != vals.malloc_addr && at != vals.realloc_addr {
                        crate::trace::libc_events::after_free(events, regs.rdi)
                    } else {
                        events
                    }
                },
                _ => events,
            },
            SigtrapHandler::Malloc { size, call } => match call.next::<(), D>(reply).step {
                Step::Done(Ok(ptr)) => if ptr > 0 && !overflows(ptr, size) {
                    crate::trace::libc_events::after_malloc(events, ptr as usize, size)
                } else {
                    events
                },
                _ => events,
            },
            SigtrapHandler::Realloc { old_ptr, size, call } => match call.next::<(), D>(
                reply,
            ).step {
                Step::Done(Ok(ptr)) => if ptr > 0 && !overflows(ptr, size) {
                    crate::trace::libc_events::after_realloc(events, old_ptr, ptr as usize, size)
                } else if ptr == 0 && size == 0 {
                    crate::trace::libc_events::after_free(events, old_ptr)
                } else {
                    events
                },
                _ => events,
            },
            SigtrapHandler::Free { .. } => events,
        }
    }

    /// Begins to handle the trap that stopped the thread.
    pub fn handle_sigtrap(pid: Pid) -> (handler: SigtrapHandler)
        ensures
            handler == SigtrapHandler::GettingRegs(pid),
    {
        SigtrapHandler::GettingRegs(pid)
    }

    /// What the handler hangs on.
    pub fn query(&self) -> (query: Query)
        ensures
            query == self.asks(),
    {
        match *self {
            SigtrapHandler::GettingRegs(pid) => Query::TryGetRegs(pid),
            SigtrapHandler::Malloc { call, .. } => call.query(),
            SigtrapHandler::Realloc { call, .. } => call.query(),
            SigtrapHandler::Free { call } => call.query(),
        }
    }

    /// Takes the reply to `query`.
    pub fn advance<E: View, D>(
        self,
        vals: &MagicLibcValues,
        reply: Reply<D>,
        libc_events: &mut Vec<LibcEvent>,
        out: &mut Outbox<E>,
    ) -> (step: Step<SigtrapHandler, Result<(), ExecError>>)
        requires
            self.asks().settled_by(reply),
        ensures
            final(out)@ == old(out)@ + self.next::<E::V, D>(*vals, reply).cmds,
            step == self.next::<E::V, D>(*vals, reply).step,
            final(libc_events)@ == self.record_after(*vals, reply, old(libc_events)@),
    {
        proof {
            assert(out@ + Seq::<Command<E::V>>::empty() =~= out@);
            if !(self is GettingRegs) {
                lemma_same_step::<E::V, D>(self.call(), reply);
            }
        }
        match self {
            SigtrapHandler::GettingRegs(pid) => match reply {
                Reply::MaybeRegs(Some(regs)) => {
                    if regs.ip() < BREAKPT_INSTR_SIZE {
                        return Step::Abort;
                    }
                    let at: usize = regs.ip() - BREAKPT_INSTR_SIZE;
                    if at == vals.malloc_addr {
                        let call = Intercept::intercept_retptr(
                            pid,
                            regs,
                            vals.malloc_addr,
                            vals.malloc_bytes,
                        );
                        Step::Ask(SigtrapHandler::Malloc { size: regs.arg1(), call })
                    } else if at == vals.realloc_addr {
                        let call = Intercept::intercept_retptr(
                            pid,
                            regs,
                            vals.realloc_addr,
                            vals.realloc_bytes,
                        );
                        Step::Ask(
                            SigtrapHandler::Realloc {
                                old_ptr: regs.arg1(),
                                size: regs.arg2(),
                                call,
                            },
                        )
                    } else if at == vals.free_addr {
                        // This can lead to double frees, but these are on the foreign code.
                        record_free(libc_events, regs.arg1());
                        let call = Intercept::intercept_retptr(
                            pid,
                            regs,
                            vals.free_addr,
                            vals.free_bytes,
                        );
                        Step::Ask(SigtrapHandler::Free { call })
                    } else {
                        out.push(Command::Note(Note::UnexpectedTrap(at)));
                        out.push(Command::Syscall(pid));
                        assert(out@ =~= old(out)@ + self.next::<E::V, D>(*vals, reply).cmds);
                        Step::Done(Ok(()))
                    }
                },
                _ => Step::Done(Err(ExecError::Shrug)),
            },
            SigtrapHandler::Malloc { size, call } => match call.advance(reply, out) {
                Step::Ask(call) => Step::Ask(SigtrapHandler::Malloc { size, call }),
                Step::Done(Ok(ptr)) => {
                    // The size only counts if the call was successful.
                    if ptr > 0 {
                        if (ptr as usize).checked_add(size).is_none() {
                            return Step::Abort;
                        }
                        record_malloc(libc_events, ptr as usize, size);
                    }
                    Step::Done(Ok(()))
                },
                Step::Done(Err(e)) => Step::Done(Err(e)),
                Step::Abort => Step::Abort,
            },
            SigtrapHandler::Realloc { old_ptr, size, call } => match call.advance(reply, out) {
                Step::Ask(call) => Step::Ask(SigtrapHandler::Realloc { old_ptr, size, call }),
                Step::Done(Ok(ptr)) => {
                    if ptr > 0 {
                        if (ptr as usize).checked_add(size).is_none() {
                            return Step::Abort;
                        }
                        record_free(libc_events, old_ptr);
                        // This goes at the end.
                        record_malloc(libc_events, ptr as usize, size);
                    } else if ptr == 0 && size == 0 {
                        record_free(libc_events, old_ptr);
                    }
                    Step::Done(Ok(()))
                },
                Step::Done(Err(e)) => Step::Done(Err(e)),
                Step::Abort => Step::Abort,
            },
            SigtrapHandler::Free { call } => match call.advance(reply, out) {
                Step::Ask(call) => Step::Ask(SigtrapHandler::Free { call }),
                Step::Done(Ok(_)) => Step::Done(Ok(())),
                Step::Done(Err(e)) => Step::Done(Err(e)),
                Step::Abort => Step::Abort,
            },
        }
    }

    /// The interception that is under way.
    pub open spec fn call(self) -> Intercept {
        match self {
            SigtrapHandler::Malloc { call, .. } => call,
            SigtrapHandler::Realloc { call, .. } => call,
            SigtrapHandler::Free { call } => call,
            SigtrapHandler::GettingRegs(_) => arbitrary(),
        }
    }
}

/// What an interception does next does not depend on what events are made of.
proof fn lemma_same_step<E, D>(call: Intercept, reply: Reply<D>)
    ensures
        call.next::<E, D>(reply).step == call.next::<(), D>(reply).step,
{
}

proof fn lemma_run_from_return<E, D>(call: Intercept, replies: Seq<Reply<D>>)
    requires
        call.phase is Returning || call.phase is Returned,
        call.run::<E, D>(replies).step matches Step::Done(Ok(_)),
    ensures
        ({
            let cmds = call.run::<E, D>(replies).cmds;
            let (ret_addr, ret_bytes) = match call.phase {
                InterceptPhase::Returning { ret_addr, ret_bytes, .. } => (ret_addr, ret_bytes),
                InterceptPhase::Returned { ret_addr, ret_bytes } => (ret_addr, ret_bytes),
                _ => arbitrary(),
            };
            &&& cmds.len() > 0
            &&& cmds.last() == Command::<E>::Syscall(call.pid)
            &&& crate::script::last_write(cmds, call.pid, ret_addr) == Some(ret_bytes)
            &&& ret_addr != call.fn_addr ==> crate::script::last_write(cmds, call.pid, call.fn_addr)
                == Some(BREAKPT_INSTR)
            &&& forall|pid: Pid, addr: usize|
                pid != call.pid || (addr != ret_addr && addr != call.fn_addr)
                    ==> #[trigger] crate::script::last_write(cmds, pid, addr) is None
        }),
    decreases replies.len(),
{
    reveal_with_fuel(crate::script::last_write, 5);
    if replies.len() > 0 {
        let turn = call.next::<E, D>(replies[0]);
        match turn.step {
            Step::Ask(next) => {
                lemma_run_from_return::<E, D>(next, replies.skip(1));
                let rest = next.run::<E, D>(replies.skip(1)).cmds;
                assert forall|pid: Pid, addr: usize| #[trigger]
                    crate::script::last_write(turn.cmds + rest, pid, addr)
                        == crate::script::last_write(rest, pid, addr) by {
                    crate::script::lemma_last_write_add(turn.cmds, rest, pid, addr);
                    assert(crate::script::last_write(turn.cmds, pid, addr) is None);
                }
            },
            _ => {},
        }
    }
}

/// An interception that comes to its end leaves the child's code as it found it: the
/// code that was returned into is what was read there, the function traps again,
/// and no other address was written to. The thread runs on at the very end only.
pub proof fn law_intercept_repairs<E, D>(
    pid: Pid,
    regs: UserRegs,
    fn_addr: usize,
    fn_bytes: usize,
    replies: Seq<Reply<D>>,
)
    requires
        Intercept::fresh(pid, regs, fn_addr, fn_bytes).run::<E, D>(replies).step
            matches Step::Done(Ok(_)),
    ensures
        ({
            let cmds = Intercept::fresh(pid, regs, fn_addr, fn_bytes).run::<E, D>(replies).cmds;
            &&& replies.len() >= 2
            &&& replies[0] matches Reply::MaybeWord(Some(ret_addr))
            &&& replies[1] matches Reply::Word(ret_bytes)
            &&& crate::script::last_write(cmds, pid, ret_addr) == Some(ret_bytes)
            &&& ret_addr != fn_addr ==> crate::script::last_write(cmds, pid, fn_addr) == Some(
                BREAKPT_INSTR,
            )
            &&& forall|p: Pid, addr: usize|
                p != pid || (addr != ret_addr && addr != fn_addr)
                    ==> #[trigger] crate::script::last_write(cmds, p, addr) is None
            &&& cmds.last() == Command::<E>::Syscall(pid)
        }),
{
    reveal_with_fuel(crate::script::last_write, 5);
    reveal_with_fuel(Intercept::run, 3);
    let call = Intercept::fresh(pid, regs, fn_addr, fn_bytes);
    assert(replies.len() > 0);
    let first = call.next::<E, D>(replies[0]);
    assert(first.step is Ask);
    let reading = first.step->Ask_0;
    let replies1 = replies.skip(1);
    assert(replies1.len() > 0);
    assert(replies1[0] == replies[1]);
    let second = reading.next::<E, D>(replies1[0]);
    let returning = second.step->Ask_0;
    lemma_run_from_return::<E, D>(returning, replies1.skip(1));
    let rest = returning.run::<E, D>(replies1.skip(1)).cmds;
    let cmds = call.run::<E, D>(replies).cmds;
    assert(cmds =~= second.cmds + rest);
    assert forall|p: Pid, addr: usize| #[trigger] crate::script::last_write(cmds, p, addr) == (
    match crate::script::last_write(rest, p, addr) {
        Some(word) => Some(word),
        None => crate::script::last_write(second.cmds, p, addr),
    }) by {
        crate::script::lemma_last_write_add(second.cmds, rest, p, addr);
    }
}

} // verus!
