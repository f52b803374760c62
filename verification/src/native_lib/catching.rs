//! Waiting for a signal while faults are still handled.
use vstd::prelude::*;

use crate::native_lib::access::Found;
use crate::native_lib::segfault::{FaultEnv, SegfaultHandler, SegfaultPhase, SegfaultState};
use crate::native_lib::wait::{InitialCont, WaitForSignal, WaitPhase};
use crate::native_lib::{AccessEvent, ExecEnd};
use crate::regs::UserRegs;
use crate::tracee::{Command, Outbox, Pid, Query, Reply, Signal, Step, Turn, WaitStatus};

verus! {

/// Waits until a thread is stopped by a given signal. Faults that occur during the wait
/// are still logged.
#[derive(Debug)]
pub struct CatchingWait {
    pub wait: WaitForSignal,
    /// The fault that is being handled.
    pub fault: Option<SegfaultHandler>,
}

/// The state of a wait, as plain values.
pub ghost struct CatchingState {
    pub wait: WaitForSignal,
    pub fault: Option<SegfaultState>,
}

impl View for CatchingWait {
    type V = CatchingState;

    open spec fn view(&self) -> CatchingState {
        CatchingState {
            wait: self.wait,
            fault: match self.fault {
                Some(handler) => Some(handler@),
                None => None,
            },
        }
    }
}

/// The thread that has stopped on a fault, unless faults are what is waited for.
pub open spec fn caught(wait: WaitForSignal, reply: Reply<Found>) -> Option<Pid> {
    match (wait.phase, reply) {
        (WaitPhase::Waiting, Reply::Status(Some(WaitStatus::Stopped(pid, signal))))
        | (WaitPhase::Waiting, Reply::Status(Some(WaitStatus::PtraceEvent(pid, signal, _)))) => if (
        signal == Signal::Segv && wait.signal != Signal::Segv) {
            Some(pid)
        } else {
            None
        },
        _ => None,
    }
}

impl CatchingState {
    /// The wait as it stands before anything was heard.
    pub open spec fn fresh(pid: Pid, signal: Signal) -> CatchingState {
        CatchingState { wait: WaitForSignal::fresh(Some(pid), signal), fault: None }
    }

    /// What the wait hangs on.
    pub open spec fn asks(self) -> Query {
        match self.fault {
            Some(handler) => handler.asks(),
            None => self.wait.asks(),
        }
    }

    /// Whether the state is one that the wait can be in.
    pub open spec fn wf(self, env: FaultEnv, ch_stack: usize) -> bool {
        &&& env.layout.page_size > 0
        &&& self.fault matches Some(handler) ==> handler.wf(env, ch_stack)
    }

    /// The registers that a thread faulted with, while its instruction is read.
    pub open spec fn fault_regs(self) -> Option<UserRegs> {
        match self.fault {
            Some(handler) => handler.fault_regs(),
            None => None,
        }
    }

    /// What a reply leads to.
    pub open spec fn next<E>(
        self,
        env: FaultEnv,
        pages: Seq<usize>,
        ch_stack: usize,
        reply: Reply<Found>,
    ) -> Turn<E, CatchingState, Result<Pid, ExecEnd>> {
        match self.fault {
            Some(handler) => {
                let turn = handler.next::<E>(env, pages, ch_stack, reply);
                Turn {
                    cmds: turn.cmds,
                    step: match turn.step {
                        Step::Ask(handler) => Step::Ask(
                            CatchingState { fault: Some(handler), ..self },
                        ),
                        Step::Done(Ok(())) => Step::Ask(CatchingState { fault: None, ..self }),
                        Step::Done(Err(e)) => Step::Done(Err(e)),
                        Step::Abort => Step::Abort,
                    },
                }
            },
            None => match caught(self.wait, reply) {
                Some(pid) => Turn {
                    cmds: seq![],
                    step: Step::Ask(
                        CatchingState {
                            fault: Some(
                                SegfaultState {
                                    pid,
                                    phase: SegfaultPhase::GettingRegs,
                                    spans: seq![],
                                },
                            ),
                            ..self
                        },
                    ),
                },
                None => {
                    let turn = self.wait.next::<E, Found>(reply);
                    Turn {
                        cmds: turn.cmds,
                        step: match turn.step {
                            Step::Ask(wait) => Step::Ask(CatchingState { wait, ..self }),
                            Step::Done(result) => Step::Done(result),
                            Step::Abort => Step::Abort,
                        },
                    }
                },
            },
        }
    }

    /// The accesses that a reply puts on record.
    pub open spec fn logs(self, pages: Seq<usize>, page_size: usize, reply: Reply<Found>) -> Seq<
        AccessEvent,
    > {
        match self.fault {
            Some(handler) => handler.logs(pages, page_size, reply),
            None => seq![],
        }
    }
}

impl CatchingWait {
    /// Lets the thread run, and begins to wait for `wait_signal`.
    pub fn wait_for_signal<E: View>(pid: Pid, wait_signal: Signal, out: &mut Outbox<E>) -> (wait:
        CatchingWait)
        ensures
            wait@ == CatchingState::fresh(pid, wait_signal),
            final(out)@ == old(out)@ + WaitForSignal::opening(Some(pid), InitialCont::Yes),
    {
        let wait = WaitForSignal::wait_for_signal(Some(pid), wait_signal, InitialCont::Yes, out);
        CatchingWait { wait, fault: None }
    }

    /// What the wait hangs on.
    pub fn query(&self) -> (query: Query)
        ensures
            query == self@.asks(),
    {
        match &self.fault {
            Some(handler) => handler.query(),
            None => self.wait.query(),
        }
    }

    /// The registers that a thread faulted with, while its instruction is read.
    pub fn regs_at_fault(&self) -> (regs: Option<UserRegs>)
        ensures
            regs == self@.fault_regs(),
    {
        match &self.fault {
            Some(handler) => handler.regs_at_fault(),
            None => None,
        }
    }

    /// Takes the reply to `query`, with the bytes of an instruction decoded.
    pub fn advance<E: View>(
        self,
        env: &FaultEnv,
        pages: &Vec<usize>,
        ch_stack: usize,
        reply: Reply<Found>,
        acc_events: &mut Vec<AccessEvent>,
        out: &mut Outbox<E>,
    ) -> (step: Step<CatchingWait, Result<Pid, ExecEnd>>)
        requires
            self@.wf(*env, ch_stack),
            self@.asks().settled_by(reply),
        ensures
            final(out)@ == old(out)@ + self@.next::<E::V>(*env, pages@, ch_stack, reply).cmds,
            step@ == self@.next::<E::V>(*env, pages@, ch_stack, reply).step,
            final(acc_events)@ == old(acc_events)@ + self@.logs(
                pages@,
                env.layout.page_size,
                reply,
            ),
            step matches Step::Ask(next) ==> next@.wf(*env, ch_stack),
    {
        proof {
            assert(out@ + Seq::<Command<E::V>>::empty() =~= out@);
            assert(acc_events@ + Seq::<AccessEvent>::empty() =~= acc_events@);
        }
        let wait: WaitForSignal = self.wait;
        match self.fault {
            Some(handler) => match handler.advance(env, pages, ch_stack, reply, acc_events, out) {
                Step::Ask(handler) => Step::Ask(CatchingWait { wait, fault: Some(handler) }),
                Step::Done(Ok(())) => Step::Ask(CatchingWait { wait, fault: None }),
                Step::Done(Err(e)) => Step::Done(Err(e)),
                Step::Abort => Step::Abort,
            },
            None => {
                if let (WaitPhase::Waiting, Reply::Status(Some(status))) = (wait.phase, &reply) {
                    if let WaitStatus::Stopped(pid, signal) | WaitStatus::PtraceEvent(
                        pid,
                        signal,
                        _,
                    ) = *status {
                        if signal == Signal::Segv && wait.signal != Signal::Segv {
                            let handler = SegfaultHandler::handle_segfault(pid);
                            return Step::Ask(CatchingWait { wait, fault: Some(handler) });
                        }
                    }
                }
                match wait.advance(reply, out) {
                    Step::Ask(wait) => Step::Ask(CatchingWait { wait, fault: None }),
                    Step::Done(result) => Step::Done(result),
                    Step::Abort => Step::Abort,
                }
            },
        }
    }
}

} // verus!
