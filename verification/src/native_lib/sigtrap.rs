//! What happens when the child hits the breakpoint at the start of an allocation
//! function.
use vstd::prelude::*;

use crate::arch::{BREAKPT_INSTR, BREAKPT_INSTR_SIZE};
use crate::native_lib::access::Found;
use crate::native_lib::catching::{CatchingState, CatchingWait};
use crate::native_lib::libc_fns::{LibcFn, LibcTable};
use crate::native_lib::maps::is_in_libc;
use crate::native_lib::segfault::FaultEnv;
use crate::native_lib::wait::{InitialCont, WaitForSignal};
use crate::native_lib::{AccessEvent, ExecEnd, MemEvents};
use crate::pages::{add_pages, check_run, del_pages};
use crate::regs::UserRegs;
use crate::tracee::{Command, Note, Outbox, Pid, Query, Reply, Signal, Step, Turn};
use crate::words::with_first_byte;

verus! {

/// What stays the same for as long as a supervisor runs.
#[derive(Debug, Clone, Copy, PartialEq, Eq, Structural)]
pub struct SvEnv {
    pub fault: FaultEnv,
    pub libc: LibcTable,
    /// The address of libc's `exit`.
    pub exit_addr: usize,
    /// The variable that tells a shim whether it was called by libc itself.
    pub ret_is_libc_at: usize,
    /// The variables in which a shim leaves the pages that it allocated.
    pub new_pages_addr_at: usize,
    pub new_pages_count_at: usize,
    /// The variables in which a shim leaves the pages that it deallocated.
    pub del_pages_addr_at: usize,
    pub del_pages_count_at: usize,
}

/// How far the handling of a breakpoint has come. `W` is a wait for the end of a shim.
#[derive(Debug)]
pub enum SigtrapPhase<W> {
    /// The registers are being looked at.
    GettingRegs,
    /// The return address is being read from the stack.
    ReadingStack { f: LibcFn, regs: UserRegs },
    /// The memory mappings of the process are being looked at.
    Mapping { f: LibcFn, regs: UserRegs, ret_addr: usize },
    /// The word that holds the flag for the shim is being read.
    ReadingFlag { f: LibcFn, regs: UserRegs, ret_addr: usize, ret_is_libc: bool },
    /// The shim runs.
    InShim { ret_addr: usize, shim: W },
    /// The code at the return address is being read.
    ReadingReturn { ret_addr: usize },
    /// The shim returns, and traps where it returns to.
    Returning { ret_addr: usize, ret_bytes: usize, wait: WaitForSignal },
    /// The shim has returned; the registers are being looked at.
    Returned,
    /// The address of the first new page is being read.
    NewAddr,
    /// The number of new pages is being read.
    NewCount { addr: usize },
    /// The address of the first deallocated page is being read.
    DelAddr,
    /// The number of deallocated pages is being read.
    DelCount { addr: usize },
}

impl<W: View> View for SigtrapPhase<W> {
    type V = SigtrapPhase<W::V>;

    open spec fn view(&self) -> SigtrapPhase<W::V> {
        match *self {
            SigtrapPhase::GettingRegs => SigtrapPhase::GettingRegs,
            SigtrapPhase::ReadingStack { f, regs } => SigtrapPhase::ReadingStack { f, regs },
            SigtrapPhase::Mapping { f, regs, ret_addr } => SigtrapPhase::Mapping {
                f,
                regs,
                ret_addr,
            },
            SigtrapPhase::ReadingFlag { f, regs, ret_addr, ret_is_libc } =>
                SigtrapPhase::ReadingFlag { f, regs, ret_addr, ret_is_libc },
            SigtrapPhase::InShim { ret_addr, shim } => SigtrapPhase::InShim {
                ret_addr,
                shim: shim@,
            },
            SigtrapPhase::ReadingReturn { ret_addr } => SigtrapPhase::ReadingReturn { ret_addr },
            SigtrapPhase::Returning { ret_addr, ret_bytes, wait } => SigtrapPhase::Returning {
                ret_addr,
                ret_bytes,
                wait,
            },
            SigtrapPhase::Returned => SigtrapPhase::Returned,
            SigtrapPhase::NewAddr => SigtrapPhase::NewAddr,
            SigtrapPhase::NewCount { addr } => SigtrapPhase::NewCount { addr },
            SigtrapPhase::DelAddr => SigtrapPhase::DelAddr,
            SigtrapPhase::DelCount { addr } => SigtrapPhase::DelCount { addr },
        }
    }
}

/// Determines what libc function was called that hit a breakpoint, giving control
/// to our shims to handle it instead.
#[derive(Debug)]
pub struct SigtrapHandler {
    pub pid: Pid,
    pub phase: SigtrapPhase<CatchingWait>,
}

/// The state of a handler, as plain values.
pub ghost struct SigtrapState {
    pub pid: Pid,
    pub phase: SigtrapPhase<CatchingState>,
}

impl View for SigtrapHandler {
    type V = SigtrapState;

    open spec fn view(&self) -> SigtrapState {
        SigtrapState { pid: self.pid, phase: self.phase@ }
    }
}

/// What one turn of a handler comes to.
pub type SigtrapTurn = Turn<Seq<AccessEvent>, SigtrapState, Result<(), ExecEnd>>;

/// The word that holds the flag for the shim, with the flag set or not. The flag is a
/// single byte; what stands next to it stays.
pub open spec fn flag_word(word: usize, flag: bool) -> usize {
    crate::words::first_byte_set(
        word,
        if flag {
            1
        } else {
            0
        },
    )
}

impl SigtrapState {
    /// What the handler hangs on.
    pub open spec fn asks(self, env: SvEnv) -> Query {
        match self.phase {
            SigtrapPhase::GettingRegs => Query::GetRegs(self.pid),
            SigtrapPhase::ReadingStack { regs, .. } => Query::Read(self.pid, regs.rsp),
            SigtrapPhase::Mapping { .. } => Query::Maps(self.pid),
            SigtrapPhase::ReadingFlag { .. } => Query::Read(self.pid, env.ret_is_libc_at),
            SigtrapPhase::InShim { shim, .. } => shim.asks(),
            SigtrapPhase::ReadingReturn { ret_addr } => Query::Read(self.pid, ret_addr),
            SigtrapPhase::Returning { wait, .. } => wait.asks(),
            SigtrapPhase::Returned => Query::GetRegs(self.pid),
            SigtrapPhase::NewAddr => Query::Read(self.pid, env.new_pages_addr_at),
            SigtrapPhase::NewCount { .. } => Query::Read(self.pid, env.new_pages_count_at),
            SigtrapPhase::DelAddr => Query::Read(self.pid, env.del_pages_addr_at),
            SigtrapPhase::DelCount { .. } => Query::Read(self.pid, env.del_pages_count_at),
        }
    }

    /// Whether the state is one that the handler can be in.
    pub open spec fn wf(self, env: SvEnv, ch_stack: usize) -> bool {
        &&& env.fault.layout.page_size > 0
        &&& self.phase matches SigtrapPhase::InShim { shim, .. } ==> shim.wf(env.fault, ch_stack)
    }

    /// The registers that a thread faulted with, while its instruction is read.
    pub open spec fn fault_regs(self) -> Option<UserRegs> {
        match self.phase {
            SigtrapPhase::InShim { shim, .. } => shim.fault_regs(),
            _ => None,
        }
    }

    /// The handler goes over to another phase.
    pub open spec fn enter(
        self,
        phase: SigtrapPhase<CatchingState>,
        cmds: Seq<Command<Seq<AccessEvent>>>,
    ) -> SigtrapTurn {
        Turn { cmds, step: Step::Ask(SigtrapState { phase, ..self }) }
    }

    /// The handler is done: the functions trap again, and the thread runs on.
    pub open spec fn finish(self, env: SvEnv) -> SigtrapTurn {
        Turn {
            cmds: env.libc.trapping(self.pid) + seq![Command::Syscall(self.pid)],
            step: Step::Done(Ok(())),
        }
    }

    /// The handler must give up.
    pub open spec fn abort(self) -> SigtrapTurn {
        Turn { cmds: seq![], step: Step::Abort }
    }

    /// What follows when the thread has trapped with these registers.
    pub open spec fn on_trap(self, env: SvEnv, regs: UserRegs) -> SigtrapTurn {
        if regs.rip < BREAKPT_INSTR_SIZE {
            self.abort()
        } else {
            match env.libc.fn_at(crate::regs::before_breakpoint(regs).rip) {
                // The shims may want to call the functions, so these must be working.
                Some(f) => self.enter(
                    SigtrapPhase::ReadingStack { f, regs },
                    env.libc.fixing(self.pid),
                ),
                // This trap is unrelated to our code.
                None => Turn {
                    cmds: seq![
                        Command::Note(Note::UnexpectedTrap(regs.rip)),
                        Command::Syscall(self.pid),
                    ],
                    step: Step::Done(Ok(())),
                },
            }
        }
    }

    /// The commands that send the thread into the shim: it is told whether libc called
    /// it, and the accesses so far are handed over before it begins.
    pub open spec fn shimming(
        self,
        env: SvEnv,
        f: LibcFn,
        regs: UserRegs,
        ret_is_libc: bool,
        word: usize,
        acc_events: Seq<AccessEvent>,
    ) -> Seq<Command<Seq<AccessEvent>>> {
        seq![
            Command::Write(self.pid, env.ret_is_libc_at, flag_word(word, ret_is_libc)),
            Command::SendEvents(acc_events),
            Command::SetRegs(self.pid, UserRegs { rip: env.libc.shims.of(f), ..regs }),
        ] + WaitForSignal::opening(Some(self.pid), InitialCont::Yes)
    }

    /// What a reply leads to, if foreign code was given these pages, `ch_stack` is the
    /// address of the stack that was set aside, and `acc_events` are on record.
    pub open spec fn next(
        self,
        env: SvEnv,
        pages: Seq<usize>,
        ch_stack: usize,
        acc_events: Seq<AccessEvent>,
        reply: Reply<Found>,
    ) -> SigtrapTurn {
        let page_size = env.fault.layout.page_size;
        match (self.phase, reply) {
            (SigtrapPhase::GettingRegs, Reply::Regs(regs)) => self.on_trap(env, regs),
            (SigtrapPhase::ReadingStack { f, regs }, Reply::Word(ret_addr)) => self.enter(
                SigtrapPhase::Mapping { f, regs, ret_addr },
                seq![],
            ),
            (SigtrapPhase::Mapping { f, regs, ret_addr }, Reply::Maps(maps)) => match (
            crate::native_lib::maps::in_libc(maps@, env.exit_addr, ret_addr)) {
                Some(ret_is_libc) => self.enter(
                    SigtrapPhase::ReadingFlag { f, regs, ret_addr, ret_is_libc },
                    seq![],
                ),
                None => self.abort(),
            },
            (
                SigtrapPhase::ReadingFlag { f, regs, ret_addr, ret_is_libc },
                Reply::Word(word),
            ) => self.enter(
                SigtrapPhase::InShim {
                    ret_addr,
                    shim: CatchingState::fresh(self.pid, Signal::Stop),
                },
                self.shimming(env, f, regs, ret_is_libc, word, acc_events),
            ),
            (SigtrapPhase::InShim { ret_addr, shim }, _) => {
                let turn = shim.next::<Seq<AccessEvent>>(env.fault, pages, ch_stack, reply);
                match turn.step {
                    Step::Ask(shim) => self.enter(
                        SigtrapPhase::InShim { ret_addr, shim },
                        turn.cmds,
                    ),
                    Step::Done(Ok(_)) => self.enter(
                        SigtrapPhase::ReadingReturn { ret_addr },
                        turn.cmds,
                    ),
                    Step::Done(Err(e)) => Turn { cmds: turn.cmds, step: Step::Done(Err(e)) },
                    Step::Abort => Turn { cmds: turn.cmds, step: Step::Abort },
                }
            },
            (SigtrapPhase::ReadingReturn { ret_addr }, Reply::Word(ret_bytes)) => self.enter(
                SigtrapPhase::Returning {
                    ret_addr,
                    ret_bytes,
                    wait: WaitForSignal::fresh(Some(self.pid), Signal::Trap),
                },
                seq![Command::Write(self.pid, ret_addr, BREAKPT_INSTR)] + WaitForSignal::opening(
                    Some(self.pid),
                    InitialCont::Yes,
                ),
            ),
            (SigtrapPhase::Returning { ret_addr, ret_bytes, wait }, _) => {
                let turn = wait.next::<Seq<AccessEvent>, Found>(reply);
                match turn.step {
                    Step::Ask(wait) => self.enter(
                        SigtrapPhase::Returning { ret_addr, ret_bytes, wait },
                        turn.cmds,
                    ),
                    Step::Done(Ok(_)) => self.enter(
                        SigtrapPhase::Returned,
                        turn.cmds + seq![Command::Write(self.pid, ret_addr, ret_bytes)],
                    ),
                    _ => Turn { cmds: turn.cmds, step: Step::Abort },
                }
            },
            (SigtrapPhase::Returned, Reply::Regs(regs)) => if regs.rip < BREAKPT_INSTR_SIZE {
                self.abort()
            } else {
                self.enter(
                    SigtrapPhase::NewAddr,
                    seq![Command::SetRegs(self.pid, crate::regs::before_breakpoint(regs))],
                )
            },
            (SigtrapPhase::NewAddr, Reply::Word(addr)) => self.enter(
                if addr == 0 {
                    SigtrapPhase::DelAddr
                } else {
                    SigtrapPhase::NewCount { addr }
                },
                seq![],
            ),
            (SigtrapPhase::NewCount { addr }, Reply::Word(count)) => if crate::pages::run_fits(
                addr,
                count,
                page_size,
            ) {
                self.enter(SigtrapPhase::DelAddr, seq![])
            } else {
                self.abort()
            },
            (SigtrapPhase::DelAddr, Reply::Word(addr)) => if addr == 0 {
                self.finish(env)
            } else {
                self.enter(SigtrapPhase::DelCount { addr }, seq![])
            },
            (SigtrapPhase::DelCount { addr }, Reply::Word(count)) => if crate::pages::run_fits(
                addr,
                count,
                page_size,
            ) && crate::pages::without(
                pages,
                crate::pages::page_run(addr, count, page_size),
            ) is Some {
                self.finish(env)
            } else {
                self.abort()
            },
            _ => self.abort(),
        }
    }

    /// The accesses that are on record after a reply.
    pub open spec fn acc_after(
        self,
        env: SvEnv,
        pages: Seq<usize>,
        acc_events: Seq<AccessEvent>,
        reply: Reply<Found>,
    ) -> Seq<AccessEvent> {
        match (self.phase, reply) {
            // They have been handed over.
            (SigtrapPhase::ReadingFlag { .. }, Reply::Word(_)) => seq![],
            (SigtrapPhase::InShim { shim, .. }, _) => acc_events + shim.logs(
                pages,
                env.fault.layout.page_size,
                reply,
            ),
            _ => acc_events,
        }
    }

    /// The pages of foreign code after a reply that did not make the handler give up.
    pub open spec fn pages_after(self, env: SvEnv, pages: Seq<usize>, reply: Reply<Found>) -> Seq<
        usize,
    > {
        let page_size = env.fault.layout.page_size;
        match (self.phase, reply) {
            (SigtrapPhase::NewCount { addr }, Reply::Word(count)) => pages + crate::pages::page_run(
                addr,
                count,
                page_size,
            ),
            (SigtrapPhase::DelCount { addr }, Reply::Word(count)) => crate::pages::without(
                pages,
                crate::pages::page_run(addr, count, page_size),
            )->0,
            _ => pages,
        }
    }
}

impl SigtrapHandler {
    /// Begins to handle the trap that stopped the thread.
    pub fn handle_sigtrap(pid: Pid) -> (handler: SigtrapHandler)
        ensures
            handler@ == (SigtrapState { pid, phase: SigtrapPhase::GettingRegs }),
    {
        SigtrapHandler { pid, phase: SigtrapPhase::GettingRegs }
    }

    /// What the handler hangs on.
    pub fn query(&self, env: &SvEnv) -> (query: Query)
        ensures
            query == self@.asks(*env),
    {
        match &self.phase {
            SigtrapPhase::GettingRegs => Query::GetRegs(self.pid),
            SigtrapPhase::ReadingStack { regs, .. } => Query::Read(self.pid, regs.sp()),
            SigtrapPhase::Mapping { .. } => Query::Maps(self.pid),
            SigtrapPhase::ReadingFlag { .. } => Query::Read(self.pid, env.ret_is_libc_at),
            SigtrapPhase::InShim { shim, .. } => shim.query(),
            SigtrapPhase::ReadingReturn { ret_addr } => Query::Read(self.pid, *ret_addr),
            SigtrapPhase::Returning { wait, .. } => wait.query(),
            SigtrapPhase::Returned => Query::GetRegs(self.pid),
            SigtrapPhase::NewAddr => Query::Read(self.pid, env.new_pages_addr_at),
            SigtrapPhase::NewCount { .. } => Query::Read(self.pid, env.new_pages_count_at),
            SigtrapPhase::DelAddr => Query::Read(self.pid, env.del_pages_addr_at),
            SigtrapPhase::DelCount { .. } => Query::Read(self.pid, env.del_pages_count_at),
        }
    }

    /// The registers that a thread faulted with, while its instruction is read.
    pub fn regs_at_fault(&self) -> (regs: Option<UserRegs>)
        ensures
            regs == self@.fault_regs(),
    {
        match &self.phase {
            SigtrapPhase::InShim { shim, .. } => shim.regs_at_fault(),
            _ => None,
        }
    }

    fn enter(pid: Pid, phase: SigtrapPhase<CatchingWait>) -> (step: Step<
        SigtrapHandler,
        Result<(), ExecEnd>,
    >)
        ensures
            step@ == Step::<_, Result<(), ExecEnd>>::Ask(SigtrapState { pid, phase: phase@ }),
    {
        Step::Ask(SigtrapHandler { pid, phase })
    }

    fn finish(pid: Pid, env: &SvEnv, out: &mut Outbox<MemEvents>) -> (step: Step<
        SigtrapHandler,
        Result<(), ExecEnd>,
    >)
        ensures
            step@ == Step::<SigtrapState, Result<(), ExecEnd>>::Done(Ok(())),
            final(out)@ == old(out)@ + (env.libc.trapping(pid) + seq![
                Command::<Seq<AccessEvent>>::Syscall(pid),
            ]),
    {
        // Now reenable stopping the process on libc calls.
        env.libc.trap_libc(pid, out);
        out.push(Command::Syscall(pid));
        assert(out@ =~= old(out)@ + (env.libc.trapping(pid) + seq![
            Command::<Seq<AccessEvent>>::Syscall(pid),
        ]));
        Step::Done(Ok(()))
    }

    fn on_trap(pid: Pid, env: &SvEnv, regs: UserRegs, out: &mut Outbox<MemEvents>) -> (step: Step<
        SigtrapHandler,
        Result<(), ExecEnd>,
    >)
        ensures
            ({
                let turn = (SigtrapState { pid, phase: SigtrapPhase::GettingRegs }).on_trap(
                    *env,
                    regs,
                );
                &&& final(out)@ == old(out)@ + turn.cmds
                &&& step@ == turn.step
            }),
    {
        proof {
            assert(out@ + Seq::<Command<Seq<AccessEvent>>>::empty() =~= out@);
        }
        if regs.ip() < BREAKPT_INSTR_SIZE {
            return Step::Abort;
        }
        match env.libc.get_libc_fn(regs.ip()) {
            Some(f) => {
                env.libc.fixup_libc(pid, out);
                SigtrapHandler::enter(pid, SigtrapPhase::ReadingStack { f, regs })
            },
            None => {
                out.push(Command::Note(Note::UnexpectedTrap(regs.ip())));
                out.push(Command::Syscall(pid));
                assert(out@ =~= old(out)@ + seq![
                    Command::Note(Note::UnexpectedTrap(regs.rip)),
                    Command::Syscall(pid),
                ]);
                Step::Done(Ok(()))
            },
        }
    }

    fn enter_shim(
        pid: Pid,
        env: &SvEnv,
        f: LibcFn,
        regs: UserRegs,
        ret_addr: usize,
        ret_is_libc: bool,
        word: usize,
        acc_events: &mut Vec<AccessEvent>,
        out: &mut Outbox<MemEvents>,
    ) -> (step: Step<SigtrapHandler, Result<(), ExecEnd>>)
        requires
            env.fault.layout.page_size > 0,
        ensures
            ({
                let state = SigtrapState {
                    pid,
                    phase: SigtrapPhase::ReadingFlag { f, regs, ret_addr, ret_is_libc },
                };
                &&& final(out)@ == old(out)@ + state.shimming(
                    *env,
                    f,
                    regs,
                    ret_is_libc,
                    word,
                    old(acc_events)@,
                )
                &&& step@ == Step::<_, Result<(), ExecEnd>>::Ask(
                    SigtrapState {
                        pid,
                        phase: SigtrapPhase::InShim {
                            ret_addr,
                            shim: CatchingState::fresh(pid, Signal::Stop),
                        },
                    },
                )
            }),
            final(acc_events)@ == Seq::<AccessEvent>::empty(),
    {
        let byte: u8 = if ret_is_libc {
            1
        } else {
            0
        };
        // The flag is only a single byte, and what stands next to it must stay.
        out.push(Command::Write(pid, env.ret_is_libc_at, with_first_byte(word, byte)));
        // The shims have to know what happened before them.
        let mut sent: Vec<AccessEvent> = Vec::new();
        sent.append(acc_events);
        out.push(Command::SendEvents(MemEvents { acc_events: sent }));
        let mut regs = regs;
        regs.set_ip(f.shim_addr(&env.libc));
        out.push(Command::SetRegs(pid, regs));
        let shim = CatchingWait::wait_for_signal(pid, Signal::Stop, out);
        assert(sent@ =~= old(acc_events)@);
        assert(acc_events@ =~= Seq::<AccessEvent>::empty());
        SigtrapHandler::enter(pid, SigtrapPhase::InShim { ret_addr, shim })
    }

    /// Takes the reply to `query`, with the bytes of an instruction decoded.
    pub fn advance(
        self,
        env: &SvEnv,
        pages: &mut Vec<usize>,
        ch_stack: usize,
        reply: Reply<Found>,
        acc_events: &mut Vec<AccessEvent>,
        out: &mut Outbox<MemEvents>,
    ) -> (step: Step<SigtrapHandler, Result<(), ExecEnd>>)
        requires
            self@.wf(*env, ch_stack),
            self@.asks(*env).settled_by(reply),
        ensures
            ({
                let turn = self@.next(*env, old(pages)@, ch_stack, old(acc_events)@, reply);
                &&& final(out)@ == old(out)@ + turn.cmds
                &&& step@ == turn.step
                &&& !(step is Abort) ==> final(pages)@ == self@.pages_after(
                    *env,
                    old(pages)@,
                    reply,
                )
            }),
            final(acc_events)@ == self@.acc_after(*env, old(pages)@, old(acc_events)@, reply),
            step matches Step::Ask(next) ==> next@.wf(*env, ch_stack),
    {
        proof {
            assert(out@ + Seq::<Command<Seq<AccessEvent>>>::empty() =~= out@);
        }
        let pid: Pid = self.pid;
        let page_size: usize = env.fault.layout.page_size;
        match self.phase {
            SigtrapPhase::GettingRegs => match reply {
                Reply::Regs(regs) => SigtrapHandler::on_trap(pid, env, regs, out),
                _ => Step::Abort,
            },
            SigtrapPhase::ReadingStack { f, regs } => match reply {
                Reply::Word(ret_addr) => SigtrapHandler::enter(
                    pid,
                    SigtrapPhase::Mapping { f, regs, ret_addr },
                ),
                _ => Step::Abort,
            },
            SigtrapPhase::Mapping { f, regs, ret_addr } => match reply {
                Reply::Maps(maps) => match is_in_libc(&maps, env.exit_addr, ret_addr) {
                    Some(ret_is_libc) => SigtrapHandler::enter(
                        pid,
                        SigtrapPhase::ReadingFlag { f, regs, ret_addr, ret_is_libc },
                    ),
                    None => Step::Abort,
                },
                _ => Step::Abort,
            },
            SigtrapPhase::ReadingFlag { f, regs, ret_addr, ret_is_libc } => match reply {
                Reply::Word(word) => SigtrapHandler::enter_shim(
                    pid,
                    env,
                    f,
                    regs,
                    ret_addr,
                    ret_is_libc,
                    word,
                    acc_events,
                    out,
                ),
                _ => Step::Abort,
            },
            SigtrapPhase::InShim { ret_addr, shim } => match shim.advance(
                &env.fault,
                pages,
                ch_stack,
                reply,
                acc_events,
                out,
            ) {
                Step::Ask(shim) => SigtrapHandler::enter(
                    pid,
                    SigtrapPhase::InShim { ret_addr, shim },
                ),
                Step::Done(Ok(_)) => SigtrapHandler::enter(
                    pid,
                    SigtrapPhase::ReadingReturn { ret_addr },
                ),
                Step::Done(Err(e)) => Step::Done(Err(e)),
                Step::Abort => Step::Abort,
            },
            SigtrapPhase::ReadingReturn { ret_addr } => match reply {
                Reply::Word(ret_bytes) => {
                    out.push(Command::Write(pid, ret_addr, BREAKPT_INSTR));
                    let wait = WaitForSignal::wait_for_signal(
                        Some(pid),
                        Signal::Trap,
                        InitialCont::Yes,
                        out,
                    );
                    assert(out@ =~= old(out)@ + self@.next(
                        *env,
                        pages@,
                        ch_stack,
                        acc_events@,
                        reply,
                    ).cmds);
                    SigtrapHandler::enter(
                        pid,
                        SigtrapPhase::Returning { ret_addr, ret_bytes, wait },
                    )
                },
                _ => Step::Abort,
            },
            SigtrapPhase::Returning { ret_addr, ret_bytes, wait } => match wait.advance(
                reply,
                out,
            ) {
                Step::Ask(wait) => SigtrapHandler::enter(
                    pid,
                    SigtrapPhase::Returning { ret_addr, ret_bytes, wait },
                ),
                Step::Done(Ok(_)) => {
                    // Unset the breakpoint from above.
                    out.push(Command::Write(pid, ret_addr, ret_bytes));
                    assert(out@ =~= old(out)@ + self@.next(
                        *env,
                        pages@,
                        ch_stack,
                        acc_events@,
                        reply,
                    ).cmds);
                    SigtrapHandler::enter(pid, SigtrapPhase::Returned)
                },
                _ => Step::Abort,
            },
            SigtrapPhase::Returned => match reply {
                Reply::Regs(regs) => {
                    let mut regs = regs;
                    if regs.ip() < BREAKPT_INSTR_SIZE {
                        return Step::Abort;
                    }
                    regs.set_ip(regs.ip() - BREAKPT_INSTR_SIZE);
                    out.push(Command::SetRegs(pid, regs));
                    SigtrapHandler::enter(pid, SigtrapPhase::NewAddr)
                },
                _ => Step::Abort,
            },
            SigtrapPhase::NewAddr => match reply {
                Reply::Word(addr) => SigtrapHandler::enter(
                    pid,
                    if addr == 0 {
                        SigtrapPhase::DelAddr
                    } else {
                        SigtrapPhase::NewCount { addr }
                    },
                ),
                _ => Step::Abort,
            },
            SigtrapPhase::NewCount { addr } => match reply {
                Reply::Word(count) => {
                    if !check_run(addr, count, page_size) {
                        return Step::Abort;
                    }
                    add_pages(pages, addr, count, page_size);
                    SigtrapHandler::enter(pid, SigtrapPhase::DelAddr)
                },
                _ => Step::Abort,
            },
            SigtrapPhase::DelAddr => match reply {
                Reply::Word(addr) => if addr == 0 {
                    SigtrapHandler::finish(pid, env, out)
                } else {
                    SigtrapHandler::enter(pid, SigtrapPhase::DelCount { addr })
                },
                _ => Step::Abort,
            },
            SigtrapPhase::DelCount { addr } => match reply {
                Reply::Word(count) => {
                    if !check_run(addr, count, page_size) || !del_pages(
                        pages,
                        addr,
                        count,
                        page_size,
                    ) {
                        return Step::Abort;
                    }
                    SigtrapHandler::finish(pid, env, out)
                },
                _ => Step::Abort,
            },
        }
    }
}

/// What a series of replies comes to: the commands and what the handler does after them,
/// the pages of foreign code, and the accesses on record.
pub ghost struct SigtrapRun {
    pub turn: SigtrapTurn,
    pub pages: Seq<usize>,
    pub acc_events: Seq<AccessEvent>,
}

impl SigtrapState {
    /// What a series of replies leads to.
    pub open spec fn run(
        self,
        env: SvEnv,
        pages: Seq<usize>,
        ch_stack: usize,
        acc_events: Seq<AccessEvent>,
        replies: Seq<Reply<Found>>,
    ) -> SigtrapRun
        decreases replies.len(),
    {
        if replies.len() == 0 {
            SigtrapRun { turn: Turn { cmds: seq![], step: Step::Ask(self) }, pages, acc_events }
        } else {
            let turn = self.next(env, pages, ch_stack, acc_events, replies[0]);
            let pages_after = self.pages_after(env, pages, replies[0]);
            let acc_after = self.acc_after(env, pages, acc_events, replies[0]);
            match turn.step {
                Step::Ask(next) => {
                    let rest = next.run(env, pages_after, ch_stack, acc_after, replies.skip(1));
                    SigtrapRun {
                        turn: Turn { cmds: turn.cmds + rest.turn.cmds, step: rest.turn.step },
                        ..rest
                    }
                },
                _ => SigtrapRun { turn, pages: pages_after, acc_events: acc_after },
            }
        }
    }

    /// The address that the function was called from, as soon as it is known.
    spec fn called_from(self) -> Option<usize> {
        match self.phase {
            SigtrapPhase::Mapping { ret_addr, .. } => Some(ret_addr),
            SigtrapPhase::ReadingFlag { ret_addr, .. } => Some(ret_addr),
            SigtrapPhase::InShim { ret_addr, .. } => Some(ret_addr),
            SigtrapPhase::ReadingReturn { ret_addr } => Some(ret_addr),
            SigtrapPhase::Returning { ret_addr, .. } => Some(ret_addr),
            _ => None,
        }
    }

    proof fn lemma_end_of_run(
        self,
        env: SvEnv,
        pages: Seq<usize>,
        ch_stack: usize,
        acc_events: Seq<AccessEvent>,
        replies: Seq<Reply<Found>>,
    )
        requires
            env.libc.addrs.distinct(),
            !(self.phase is GettingRegs),
            self.run(env, pages, ch_stack, acc_events, replies).turn.step matches Step::Done(Ok(_)),
        ensures
            ({
                let cmds = self.run(env, pages, ch_stack, acc_events, replies).turn.cmds;
                &&& cmds.len() > 0
                &&& cmds.last() == Command::<Seq<AccessEvent>>::Syscall(self.pid)
                &&& forall|f: LibcFn|
                    crate::script::last_write(cmds, self.pid, #[trigger] env.libc.addrs.of(f))
                        == Some(BREAKPT_INSTR)
                &&& self.called_from() matches Some(ret_addr) ==> env.libc.fn_at(ret_addr) is None
                    ==> match self.phase {
                    SigtrapPhase::Returning { ret_bytes, .. } => crate::script::last_write(
                        cmds,
                        self.pid,
                        ret_addr,
                    ) == Some(ret_bytes),
                    _ => was_read(
                        replies,
                        crate::script::last_write(cmds, self.pid, ret_addr),
                    ),
                }
            }),
        decreases replies.len(),
    {
        reveal_with_fuel(crate::script::last_write, 3);
        let turn = self.next(env, pages, ch_stack, acc_events, replies[0]);
        let pages_after = self.pages_after(env, pages, replies[0]);
        let acc_after = self.acc_after(env, pages, acc_events, replies[0]);
        let cmds = self.run(env, pages, ch_stack, acc_events, replies).turn.cmds;
        match turn.step {
            Step::Ask(next) => {
                let rest_replies = replies.skip(1);
                next.lemma_end_of_run(env, pages_after, ch_stack, acc_after, rest_replies);
                let rest = next.run(env, pages_after, ch_stack, acc_after, rest_replies).turn.cmds;
                assert(cmds == turn.cmds + rest);
                assert(cmds.last() == rest.last());
                assert forall|addr: usize| #[trigger]
                    crate::script::last_write(cmds, self.pid, addr) == (
                match crate::script::last_write(rest, self.pid, addr) {
                    Some(word) => Some(word),
                    None => crate::script::last_write(turn.cmds, self.pid, addr),
                }) by {
                    crate::script::lemma_last_write_add(turn.cmds, rest, self.pid, addr);
                }
                if let Some(ret_addr) = self.called_from() {
                    if env.libc.fn_at(ret_addr) is None {
                        if self.phase is Returning {
                            if next.phase is Returned {
                                next.lemma_leaves_alone(
                                    env,
                                    pages_after,
                                    ch_stack,
                                    acc_after,
                                    rest_replies,
                                    ret_addr,
                                );
                            }
                        } else if next.phase is Returning {
                            assert(replies[0] == Reply::<Found>::Word(
                                crate::script::last_write(cmds, self.pid, ret_addr)->0,
                            ));
                        } else {
                            let found = crate::script::last_write(rest, self.pid, ret_addr);
                            let k = choose|k: int|
                                0 <= k < rest_replies.len() && #[trigger] rest_replies[k]
                                    == Reply::<Found>::Word(found->0);
                            assert(replies[k + 1] == rest_replies[k]);
                        }
                    }
                }
            },
            _ => {
                crate::native_lib::libc_fns::lemma_writing::<Seq<AccessEvent>>(
                    env.libc,
                    self.pid,
                    crate::native_lib::libc_fns::breakpoints(),
                );
                let traps = env.libc.trapping::<Seq<AccessEvent>>(self.pid);
                let run_on = seq![Command::<Seq<AccessEvent>>::Syscall(self.pid)];
                assert(cmds == traps + run_on);
                assert forall|f: LibcFn|
                    crate::script::last_write(cmds, self.pid, #[trigger] env.libc.addrs.of(f))
                        == Some(BREAKPT_INSTR) by {
                    crate::script::lemma_last_write_add(
                        traps,
                        run_on,
                        self.pid,
                        env.libc.addrs.of(f),
                    );
                }
            },
        }
    }

    /// Once the shim has returned, only the functions are written to.
    proof fn lemma_leaves_alone(
        self,
        env: SvEnv,
        pages: Seq<usize>,
        ch_stack: usize,
        acc_events: Seq<AccessEvent>,
        replies: Seq<Reply<Found>>,
        addr: usize,
    )
        requires
            env.libc.addrs.distinct(),
            self.phase is Returned || self.phase is NewAddr || self.phase is NewCount || self.phase
                is DelAddr || self.phase is DelCount,
            env.libc.fn_at(addr) is None,
        ensures
            crate::script::last_write(
                self.run(env, pages, ch_stack, acc_events, replies).turn.cmds,
                self.pid,
                addr,
            ) is None,
        decreases replies.len(),
    {
        reveal_with_fuel(crate::script::last_write, 2);
        if replies.len() > 0 {
            let turn = self.next(env, pages, ch_stack, acc_events, replies[0]);
            let pages_after = self.pages_after(env, pages, replies[0]);
            let acc_after = self.acc_after(env, pages, acc_events, replies[0]);
            match turn.step {
                Step::Ask(next) => {
                    let rest_replies = replies.skip(1);
                    next.lemma_leaves_alone(
                        env,
                        pages_after,
                        ch_stack,
                        acc_after,
                        rest_replies,
                        addr,
                    );
                    let rest = next.run(
                        env,
                        pages_after,
                        ch_stack,
                        acc_after,
                        rest_replies,
                    ).turn.cmds;
                    crate::script::lemma_last_write_add(turn.cmds, rest, self.pid, addr);
                },
                _ => {
                    crate::native_lib::libc_fns::lemma_writing::<Seq<AccessEvent>>(
                        env.libc,
                        self.pid,
                        crate::native_lib::libc_fns::breakpoints(),
                    );
                    let traps = env.libc.trapping::<Seq<AccessEvent>>(self.pid);
                    let run_on = seq![Command::<Seq<AccessEvent>>::Syscall(self.pid)];
                    crate::script::lemma_last_write_add(traps, run_on, self.pid, addr);
                },
            }
        }
    }
}

/// Whether the word is one that was read from the thread.
pub open spec fn was_read(replies: Seq<Reply<Found>>, word: Option<usize>) -> bool {
    &&& word is Some
    &&& exists|k: int|
        0 <= k < replies.len() && #[trigger] replies[k] == Reply::<Found>::Word(word->0)
}

/// A call that was intercepted leaves the child's code as it was: all of the functions
/// trap again, and the code that was returned into is what was read there, unless it
/// is the start of one of the functions. The thread runs on at the very end.
pub proof fn law_intercept_repairs(
    pid: Pid,
    env: SvEnv,
    pages: Seq<usize>,
    ch_stack: usize,
    acc_events: Seq<AccessEvent>,
    regs: UserRegs,
    ret_addr: usize,
    replies: Seq<Reply<Found>>,
)
    requires
        env.libc.addrs.distinct(),
        regs.rip >= BREAKPT_INSTR_SIZE,
        env.libc.fn_at(crate::regs::before_breakpoint(regs).rip) is Some,
    ensures
        ({
            let start = SigtrapState { pid, phase: SigtrapPhase::GettingRegs };
            let learned: Seq<Reply<Found>> = seq![Reply::Regs(regs), Reply::Word(ret_addr)];
            let turn = start.run(env, pages, ch_stack, acc_events, learned + replies).turn;
            turn.step matches Step::Done(Ok(_)) ==> {
                &&& turn.cmds.last() == Command::<Seq<AccessEvent>>::Syscall(pid)
                &&& forall|f: LibcFn|
                    crate::script::last_write(turn.cmds, pid, #[trigger] env.libc.addrs.of(f))
                        == Some(BREAKPT_INSTR)
                &&& env.libc.fn_at(ret_addr) is None ==> was_read(
                    replies,
                    crate::script::last_write(turn.cmds, pid, ret_addr),
                )
            }
        }),
{
    let start = SigtrapState { pid, phase: SigtrapPhase::GettingRegs };
    let learned: Seq<Reply<Found>> = seq![Reply::Regs(regs), Reply::Word(ret_addr)];
    let all = learned + replies;
    reveal_with_fuel(SigtrapState::run, 3);
    assert(all[0] == learned[0]);
    assert(all.skip(1)[0] == learned[1]);
    assert(all.skip(1).skip(1) =~= replies);
    let first = start.next(env, pages, ch_stack, acc_events, all[0]);
    let reading = first.step->Ask_0;
    let second = reading.next(env, pages, ch_stack, acc_events, learned[1]);
    let mapping = second.step->Ask_0;
    let run = start.run(env, pages, ch_stack, acc_events, all);
    let rest = mapping.run(env, pages, ch_stack, acc_events, replies);
    assert(run.turn.cmds =~= first.cmds + rest.turn.cmds);
    if run.turn.step matches Step::Done(Ok(_)) {
        mapping.lemma_end_of_run(env, pages, ch_stack, acc_events, replies);
        assert forall|addr: usize| #[trigger]
            crate::script::last_write(run.turn.cmds, pid, addr) == (match crate::script::last_write(
            rest.turn.cmds,
            pid,
            addr,
        ) {
            Some(word) => Some(word),
            None => crate::script::last_write(first.cmds, pid, addr),
        }) by {
            crate::script::lemma_last_write_add(first.cmds, rest.turn.cmds, pid, addr);
        }
    }
}

/// The replies about a block of pages that a shim has left in its variables. The address
/// zero means that there is none, and then nobody asks how many they are.
pub open spec fn left_behind(addr: usize, count: usize) -> Seq<Reply<Found>> {
    if addr == 0 {
        seq![Reply::Word(0)]
    } else {
        seq![Reply::Word(addr), Reply::Word(count)]
    }
}

/// The pages of a block that a shim has left in its variables.
pub open spec fn block(addr: usize, count: usize, page_size: usize) -> Seq<usize> {
    if addr == 0 {
        seq![]
    } else {
        crate::pages::page_run(addr, count, page_size)
    }
}

proof fn lemma_new_pages(
    pid: Pid,
    env: SvEnv,
    pages: Seq<usize>,
    ch_stack: usize,
    acc_events: Seq<AccessEvent>,
    addr: usize,
    count: usize,
    rest: Seq<Reply<Found>>,
)
    requires
        crate::pages::run_fits(addr, count, env.fault.layout.page_size),
    ensures
        ({
            let start = SigtrapState { pid, phase: SigtrapPhase::NewAddr };
            let then = SigtrapState { pid, phase: SigtrapPhase::DelAddr };
            let run = start.run(env, pages, ch_stack, acc_events, left_behind(addr, count) + rest);
            let after = then.run(
                env,
                pages + block(addr, count, env.fault.layout.page_size),
                ch_stack,
                acc_events,
                rest,
            );
            run.turn.step == after.turn.step && run.pages == after.pages
        }),
{
    let start = SigtrapState { pid, phase: SigtrapPhase::NewAddr };
    let all = left_behind(addr, count) + rest;
    assert(pages + Seq::<usize>::empty() =~= pages);
    assert(all[0] == Reply::<Found>::Word(addr));
    if addr == 0 {
        assert(all.skip(1) =~= rest);
    } else {
        let counting = SigtrapState { pid, phase: SigtrapPhase::NewCount { addr } };
        assert(all.skip(1)[0] == Reply::<Found>::Word(count));
        assert(all.skip(1).skip(1) =~= rest);
        assert(start.run(env, pages, ch_stack, acc_events, all).turn.step == counting.run(
            env,
            pages,
            ch_stack,
            acc_events,
            all.skip(1),
        ).turn.step);
    }
}

proof fn lemma_del_pages(
    pid: Pid,
    env: SvEnv,
    pages: Seq<usize>,
    ch_stack: usize,
    acc_events: Seq<AccessEvent>,
    addr: usize,
    count: usize,
)
    requires
        crate::pages::run_fits(addr, count, env.fault.layout.page_size),
    ensures
        ({
            let start = SigtrapState { pid, phase: SigtrapPhase::DelAddr };
            let run = start.run(env, pages, ch_stack, acc_events, left_behind(addr, count));
            match crate::pages::without(pages, block(addr, count, env.fault.layout.page_size)) {
                Some(left) => (run.turn.step matches Step::Done(Ok(_))) && run.pages == left,
                None => run.turn.step is Abort,
            }
        }),
{
    let start = SigtrapState { pid, phase: SigtrapPhase::DelAddr };
    let all = left_behind(addr, count);
    assert(all[0] == Reply::<Found>::Word(addr));
    if addr != 0 {
        let counting = SigtrapState { pid, phase: SigtrapPhase::DelCount { addr } };
        assert(all.skip(1)[0] == Reply::<Found>::Word(count));
        let run = start.run(env, pages, ch_stack, acc_events, all);
        let rest = counting.run(env, pages, ch_stack, acc_events, all.skip(1));
        assert(run.turn.step == rest.turn.step);
        assert(run.pages == rest.pages);
    }
}

/// What a shim leaves behind is what becomes of the list of pages: the pages that it
/// allocated are added, and those that it deallocated are then removed. It is a fault to
/// deallocate a page that is not on the list.
pub proof fn law_pages_follow_the_shim(
    pid: Pid,
    env: SvEnv,
    pages: Seq<usize>,
    ch_stack: usize,
    acc_events: Seq<AccessEvent>,
    new_addr: usize,
    new_count: usize,
    del_addr: usize,
    del_count: usize,
)
    requires
        crate::pages::run_fits(new_addr, new_count, env.fault.layout.page_size),
        crate::pages::run_fits(del_addr, del_count, env.fault.layout.page_size),
    ensures
        ({
            let page_size = env.fault.layout.page_size;
            let start = SigtrapState { pid, phase: SigtrapPhase::NewAddr };
            let run = start.run(
                env,
                pages,
                ch_stack,
                acc_events,
                left_behind(new_addr, new_count) + left_behind(del_addr, del_count),
            );
            match crate::pages::without(
                pages + block(new_addr, new_count, page_size),
                block(del_addr, del_count, page_size),
            ) {
                Some(left) => (run.turn.step matches Step::Done(Ok(_))) && run.pages == left,
                None => run.turn.step is Abort,
            }
        }),
{
    let grown = pages + block(new_addr, new_count, env.fault.layout.page_size);
    lemma_new_pages(
        pid,
        env,
        pages,
        ch_stack,
        acc_events,
        new_addr,
        new_count,
        left_behind(del_addr, del_count),
    );
    lemma_del_pages(pid, env, grown, ch_stack, acc_events, del_addr, del_count);
}

/// When a shim is entered, the byte of its flag says whether the call came from libc, and
/// the other bytes of that word are what was read there.
pub proof fn law_flag_is_one_byte(
    pid: Pid,
    env: SvEnv,
    pages: Seq<usize>,
    ch_stack: usize,
    acc_events: Seq<AccessEvent>,
    f: LibcFn,
    regs: UserRegs,
    ret_addr: usize,
    ret_is_libc: bool,
    word: usize,
)
    ensures
        ({
            let start = SigtrapState {
                pid,
                phase: SigtrapPhase::ReadingFlag { f, regs, ret_addr, ret_is_libc },
            };
            let turn = start.next(env, pages, ch_stack, acc_events, Reply::Word(word));
            &&& crate::script::last_write(turn.cmds, pid, env.ret_is_libc_at) matches Some(w)
            &&& crate::words::byte_of(w, 0) == (if ret_is_libc {
                1u8
            } else {
                0u8
            })
            &&& forall|i: int|
                1 <= i < crate::arch::ARCH_WORD_SIZE ==> #[trigger] crate::words::byte_of(w, i)
                    == crate::words::byte_of(word, i)
        }),
{
    reveal_with_fuel(crate::script::last_write, 5);
    crate::words::law_only_the_first_byte_changes(
        word,
        if ret_is_libc {
            1
        } else {
            0
        },
    );
    let start = SigtrapState {
        pid,
        phase: SigtrapPhase::ReadingFlag { f, regs, ret_addr, ret_is_libc },
    };
    let cmds = start.next(env, pages, ch_stack, acc_events, Reply::Word(word)).cmds;
    assert(cmds.last() is Cont);
    assert(cmds.drop_last().last() is SetRegs);
    assert(cmds.drop_last().drop_last().last() is SendEvents);
    assert(cmds.drop_last().drop_last().drop_last().last() is Write);
}

} // verus!
