//! Waiting for one signal to stop the child.
use vstd::prelude::*;

use crate::native_lib::ExecEnd;
use crate::tracee::{Command, Outbox, Pid, Query, Reply, Signal, Step, Turn, WaitId, WaitStatus};

verus! {

/// Whether to let the thread run before waiting.
#[derive(Debug, Clone, Copy, PartialEq, Eq, Structural)]
pub enum InitialCont {
    Yes,
    No,
}

/// How far a wait has come.
#[derive(Debug, Clone, Copy, PartialEq, Eq, Structural)]
pub enum WaitPhase {
    /// Something is yet to be heard.
    Waiting,
    /// A thread is being let run on past another signal.
    Resuming { pid: Pid, signal: Signal },
}

/// Waits until a thread is stopped by a given signal, letting it run on past everything
/// else. Without a pid any thread will do, and only one wait is done.
#[derive(Debug, Clone, Copy, PartialEq, Eq, Structural)]
pub struct WaitForSignal {
    pub pid: Option<Pid>,
    pub signal: Signal,
    pub phase: WaitPhase,
}

impl View for WaitForSignal {
    type V = WaitForSignal;

    open spec fn view(&self) -> WaitForSignal {
        *self
    }
}

impl WaitForSignal {
    /// The commands that a wait begins with.
    pub open spec fn opening<E>(pid: Option<Pid>, init_cont: InitialCont) -> Seq<Command<E>> {
        match (pid, init_cont) {
            (Some(pid), InitialCont::Yes) => seq![Command::Cont(pid, None)],
            _ => seq![],
        }
    }

    /// The wait as it stands before anything was heard.
    pub open spec fn fresh(pid: Option<Pid>, signal: Signal) -> WaitForSignal {
        WaitForSignal { pid, signal, phase: WaitPhase::Waiting }
    }

    /// What the wait hangs on.
    pub open spec fn asks(self) -> Query {
        match (self.phase, self.pid) {
            (WaitPhase::Resuming { pid, signal }, _) => Query::TryCont(pid, Some(signal)),
            (WaitPhase::Waiting, Some(pid)) => Query::Wait(WaitId::Pid(pid)),
            (WaitPhase::Waiting, None) => Query::Wait(WaitId::All),
        }
    }

    /// What a reply leads to. The thread that was stopped comes out in the end. A thread
    /// that cannot be waited for or let run on is taken for dead, as is one that was
    /// killed; of these no return code is known.
    pub open spec fn next<E, D>(self, reply: Reply<D>) -> Turn<
        E,
        WaitForSignal,
        Result<Pid, ExecEnd>,
    > {
        let waiting = WaitForSignal { phase: WaitPhase::Waiting, ..self };
        match reply {
            Reply::Success(true) => if self.pid is Some {
                Turn { cmds: seq![], step: Step::Ask(waiting) }
            } else {
                Turn { cmds: seq![], step: Step::Done(Err(ExecEnd(None))) }
            },
            Reply::Status(Some(WaitStatus::Exited(_, code))) => Turn {
                cmds: seq![],
                step: Step::Done(Err(ExecEnd(Some(code)))),
            },
            Reply::Status(Some(WaitStatus::Stopped(pid, signal)))
            | Reply::Status(Some(WaitStatus::PtraceEvent(pid, signal, _))) => if signal
                == self.signal {
                Turn { cmds: seq![], step: Step::Done(Ok(pid)) }
            } else {
                Turn {
                    cmds: seq![],
                    step: Step::Ask(
                        WaitForSignal { phase: WaitPhase::Resuming { pid, signal }, ..self },
                    ),
                }
            },
            Reply::Status(Some(WaitStatus::PtraceSyscall(_)))
            | Reply::Status(Some(WaitStatus::Continued(_)))
            | Reply::Status(Some(WaitStatus::StillAlive)) => match self.pid {
                Some(pid) => Turn {
                    cmds: seq![Command::Cont(pid, None)],
                    step: Step::Ask(waiting),
                },
                // There is no telling which thread to let run on.
                None => Turn { cmds: seq![], step: Step::Abort },
            },
            _ => Turn { cmds: seq![], step: Step::Done(Err(ExecEnd(None))) },
        }
    }

    /// Begins to wait for `wait_signal`. If `init_cont`, the thread is first let run. We
    /// want to avoid that in some cases, like at the beginning of FFI.
    ///
    /// If `pid` is `None`, only one wait will be done and `init_cont` should be `No`.
    pub fn wait_for_signal<E: View>(
        pid: Option<Pid>,
        wait_signal: Signal,
        init_cont: InitialCont,
        out: &mut Outbox<E>,
    ) -> (wait: WaitForSignal)
        requires
            init_cont is Yes ==> pid is Some,
        ensures
            wait == WaitForSignal::fresh(pid, wait_signal),
            final(out)@ == old(out)@ + WaitForSignal::opening(pid, init_cont),
    {
        if let (Some(pid), InitialCont::Yes) = (pid, init_cont) {
            out.push(Command::Cont(pid, None));
        }
        assert(out@ =~= old(out)@ + WaitForSignal::opening(pid, init_cont));
        WaitForSignal { pid, signal: wait_signal, phase: WaitPhase::Waiting }
    }

    /// What the wait hangs on.
    pub fn query(&self) -> (query: Query)
        ensures
            query == self.asks(),
    {
        match (self.phase, self.pid) {
            (WaitPhase::Resuming { pid, signal }, _) => Query::TryCont(pid, Some(signal)),
            (WaitPhase::Waiting, Some(pid)) => Query::Wait(WaitId::Pid(pid)),
            (WaitPhase::Waiting, None) => Query::Wait(WaitId::All),
        }
    }

    fn at(&self, phase: WaitPhase) -> (wait: WaitForSignal)
        ensures
            wait == (WaitForSignal { phase, ..*self }),
    {
        WaitForSignal { pid: self.pid, signal: self.signal, phase }
    }

    /// Takes the reply to `query`.
    pub fn advance<E: View, D>(self, reply: Reply<D>, out: &mut Outbox<E>) -> (step: Step<
        WaitForSignal,
        Result<Pid, ExecEnd>,
    >)
        requires
            self.asks().settled_by(reply),
        ensures
            final(out)@ == old(out)@ + self.next::<E::V, D>(reply).cmds,
            step == self.next::<E::V, D>(reply).step,
    {
        proof {
            assert(out@ + Seq::<Command<E::V>>::empty() =~= out@);
        }
        match reply {
            Reply::Success(true) => if self.pid.is_some() {
                Step::Ask(self.at(WaitPhase::Waiting))
            } else {
                Step::Done(Err(ExecEnd(None)))
            },
            Reply::Status(Some(status)) => match status {
                // Report the cause of death, if we know it.
                WaitStatus::Exited(_, code) => Step::Done(Err(ExecEnd(Some(code)))),
                WaitStatus::Signaled(_, _, _) => Step::Done(Err(ExecEnd(None))),
                WaitStatus::Stopped(pid, signal) | WaitStatus::PtraceEvent(pid, signal, _) => {
                    if signal == self.signal {
                        Step::Done(Ok(pid))
                    } else {
                        Step::Ask(self.at(WaitPhase::Resuming { pid, signal }))
                    }
                },
                _ => match self.pid {
                    Some(pid) => {
                        out.push(Command::Cont(pid, None));
                        Step::Ask(self.at(WaitPhase::Waiting))
                    },
                    None => Step::Abort,
                },
            },
            _ => Step::Done(Err(ExecEnd(None))),
        }
    }
}

/// Without a pid a wait that has heard something never waits again.
pub proof fn law_one_wait_without_pid<E, D>(wait: WaitForSignal, reply: Reply<D>)
    requires
        wait.pid is None,
        wait.asks().settled_by(reply),
    ensures
        wait.next::<E, D>(reply).step matches Step::Ask(next) ==> next.pid is None && !(next.asks()
            is Wait) && wait.asks() is Wait,
{
}

} // verus!
