//! Waiting for one thing to happen to the child.
use vstd::prelude::*;

use crate::regs::UserRegs;
use crate::trace::ExecError;
use crate::tracee::{Command, Outbox, Pid, Query, Reply, Signal, Step, Turn, WaitId, WaitStatus};

verus! {

/// Waits until a thread is stopped by a given signal, letting it run on past
/// everything else.
#[derive(Debug, Clone, Copy, PartialEq, Eq, Structural)]
pub struct WaitForSignal {
    pub pid: Pid,
    pub signal: Signal,
    /// Whether the thread is being let run on past another signal.
    pub resuming: bool,
}

impl View for WaitForSignal {
    type V = WaitForSignal;

    open spec fn view(&self) -> WaitForSignal {
        *self
    }
}

impl WaitForSignal {
    /// The commands that a wait begins with.
    pub open spec fn opening<E>(pid: Pid, init_cont: bool) -> Seq<Command<E>> {
        if init_cont {
            seq![Command::Cont(pid, None)]
        } else {
            seq![]
        }
    }

    /// The wait as it stands before anything was heard.
    pub open spec fn fresh(pid: Pid, signal: Signal) -> WaitForSignal {
        WaitForSignal { pid, signal, resuming: false }
    }

    /// What the wait hangs on.
    pub open spec fn asks(self) -> Query {
        if self.resuming {
            Query::TryCont(self.pid, None)
        } else {
            Query::Wait(WaitId::Pid(self.pid))
        }
    }

    /// What a reply leads to. A thread that cannot be waited for or let run on is
    /// taken for dead, as is one that was killed; of these no return code is known.
    pub open spec fn next<E, D>(self, reply: Reply<D>) -> Turn<
        E,
        WaitForSignal,
        Result<(), ExecError>,
    > {
        let waiting = WaitForSignal { resuming: false, ..self };
        match reply {
            Reply::Success(true) => Turn { cmds: seq![], step: Step::Ask(waiting) },
            Reply::Status(Some(WaitStatus::Exited(_, code))) => Turn {
                cmds: seq![],
                step: Step::Done(Err(ExecError::Died(Some(code)))),
            },
            Reply::Status(Some(WaitStatus::Stopped(_, signal)))
            | Reply::Status(Some(WaitStatus::PtraceEvent(_, signal, _))) => if signal
                == self.signal {
                Turn { cmds: seq![], step: Step::Done(Ok(())) }
            } else {
                Turn {
                    cmds: seq![],
                    step: Step::Ask(WaitForSignal { resuming: true, ..self }),
                }
            },
            Reply::Status(Some(WaitStatus::PtraceSyscall(_)))
            | Reply::Status(Some(WaitStatus::Continued(_)))
            | Reply::Status(Some(WaitStatus::StillAlive)) => Turn {
                cmds: seq![Command::Cont(self.pid, None)],
                step: Step::Ask(waiting),
            },
            _ => Turn { cmds: seq![], step: Step::Done(Err(ExecError::Died(None))) },
        }
    }

    /// Begins to wait for `signal`. With `init_cont` the thread is first let run.
    pub fn wait_for_signal<E: View>(
        pid: Pid,
        signal: Signal,
        init_cont: bool,
        out: &mut Outbox<E>,
    ) -> (wait: WaitForSignal)
        ensures
            wait == WaitForSignal::fresh(pid, signal),
            final(out)@ == old(out)@ + WaitForSignal::opening(pid, init_cont),
    {
        if init_cont {
            out.push(Command::Cont(pid, None));
        }
        assert(out@ =~= old(out)@ + WaitForSignal::opening(pid, init_cont));
        WaitForSignal { pid, signal, resuming: false }
    }

    /// What the wait hangs on.
    pub fn query(&self) -> (query: Query)
        ensures
            query == self.asks(),
    {
        if self.resuming {
            Query::TryCont(self.pid, None)
        } else {
            Query::Wait(WaitId::Pid(self.pid))
        }
    }

    /// Takes the reply to `query`.
    pub fn advance<E: View, D>(self, reply: Reply<D>, out: &mut Outbox<E>) -> (step: Step<
        WaitForSignal,
        Result<(), ExecError>,
    >)
        requires
            self.asks().settled_by(reply),
        ensures
            final(out)@ == old(out)@ + self.next::<E::V, D>(reply).cmds,
            step == self.next::<E::V, D>(reply).step,
    {
        proof {
            assert(out@ + Seq::<Command<E::V>>::empty() =~= out@);
        }
        let waiting = WaitForSignal { pid: self.pid, signal: self.signal, resuming: false };
        match reply {
            Reply::Success(true) => Step::Ask(waiting),
            Reply::Status(Some(status)) => match status {
                WaitStatus::Exited(_, code) => Step::Done(Err(ExecError::Died(Some(code)))),
                WaitStatus::Signaled(_, _, _) => Step::Done(Err(ExecError::Died(None))),
                WaitStatus::Stopped(_, signal) | WaitStatus::PtraceEvent(_, signal, _) => {
                    if signal == self.signal {
                        Step::Done(Ok(()))
                    } else {
                        Step::Ask(
                            WaitForSignal { pid: self.pid, signal: self.signal, resuming: true },
                        )
                    }
                },
                _ => {
                    out.push(Command::Cont(self.pid, None));
                    Step::Ask(waiting)
                },
            },
            _ => Step::Done(Err(ExecError::Died(None))),
        }
    }
}

/// Waits until a thread that is inside of a system call leaves it, and gets hold of
/// its registers then.
#[derive(Debug, Clone, Copy, PartialEq, Eq, Structural)]
pub struct WaitForSyscall {
    pub pid: Pid,
    /// The number of the system call.
    pub syscall: isize,
    /// The thread that was seen to leave a system call.
    pub left: Option<Pid>,
}

impl View for WaitForSyscall {
    type V = WaitForSyscall;

    open spec fn view(&self) -> WaitForSyscall {
        *self
    }
}

impl WaitForSyscall {
    /// The wait as it stands before anything was heard.
    pub open spec fn fresh(pid: Pid, syscall: isize) -> WaitForSyscall {
        WaitForSyscall { pid, syscall, left: None }
    }

    /// What the wait hangs on.
    pub open spec fn asks(self) -> Query {
        match self.left {
            Some(pid) => Query::GetRegs(pid),
            None => Query::Wait(WaitId::Pid(self.pid)),
        }
    }

    /// What a reply leads to. No command is ever given. It is a fault for the thread
    /// to be stopped by a signal, or to leave another system call than expected.
    pub open spec fn next<D>(self, reply: Reply<D>) -> Step<
        WaitForSyscall,
        Result<UserRegs, ExecError>,
    > {
        match reply {
            Reply::Regs(regs) => if crate::regs::signed(regs.orig_rax) == self.syscall {
                Step::Done(Ok(regs))
            } else {
                Step::Abort
            },
            Reply::Status(None) | Reply::Status(Some(WaitStatus::Signaled(_, _, _))) => Step::Done(
                Err(ExecError::Died(None)),
            ),
            Reply::Status(Some(WaitStatus::Exited(_, code))) => Step::Done(
                Err(ExecError::Died(Some(code))),
            ),
            Reply::Status(Some(WaitStatus::PtraceSyscall(pid))) => Step::Ask(
                WaitForSyscall { left: Some(pid), ..self },
            ),
            _ => Step::Abort,
        }
    }

    /// Begins to wait for the thread to leave the system call that it has entered.
    pub fn wait_for_syscall<E: View>(pid: Pid, syscall: isize, out: &mut Outbox<E>) -> (wait:
        WaitForSyscall)
        ensures
            wait == WaitForSyscall::fresh(pid, syscall),
            final(out)@ == old(out)@ + seq![Command::<E::V>::Syscall(pid)],
    {
        out.push(Command::Syscall(pid));
        WaitForSyscall { pid, syscall, left: None }
    }

    /// What the wait hangs on.
    pub fn query(&self) -> (query: Query)
        ensures
            query == self.asks(),
    {
        match self.left {
            Some(pid) => Query::GetRegs(pid),
            None => Query::Wait(WaitId::Pid(self.pid)),
        }
    }

    /// Takes the reply to `query`.
    pub fn advance<D>(self, reply: Reply<D>) -> (step: Step<
        WaitForSyscall,
        Result<UserRegs, ExecError>,
    >)
        requires
            self.asks().settled_by(reply),
        ensures
            step == self.next::<D>(reply),
    {
        match reply {
            Reply::Regs(regs) => if regs.syscall_nr() == self.syscall {
                Step::Done(Ok(regs))
            } else {
                Step::Abort
            },
            Reply::Status(Some(status)) => match status {
                WaitStatus::Exited(_, code) => Step::Done(Err(ExecError::Died(Some(code)))),
                WaitStatus::Signaled(_, _, _) => Step::Done(Err(ExecError::Died(None))),
                WaitStatus::PtraceSyscall(pid) => Step::Ask(
                    WaitForSyscall { pid: self.pid, syscall: self.syscall, left: Some(pid) },
                ),
                _ => Step::Abort,
            },
            Reply::Status(None) => Step::Done(Err(ExecError::Died(None))),
            _ => Step::Abort,
        }
    }
}

} // verus!
