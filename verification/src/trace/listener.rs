//! Turning what happens to the child into events.
use vstd::prelude::*;

use crate::messages::{ExecEvent, TraceRequest};
use crate::tracee::{Command, Note, Outbox, Pid, Query, Reply, Signal, Step, Turn, WaitStatus};

verus! {

/// A listener for requests and state changes of the child.
#[derive(Debug, Clone, Copy, PartialEq, Eq, Structural)]
pub struct ChildListener {
    /// The main child process' pid.
    pub pid: Pid,
    /// Whether an FFI call is currently ongoing.
    pub attached: bool,
    /// If `Some`, overrides the return code with the given value.
    pub override_retcode: Option<i32>,
    /// Whether it is requests that are being looked for.
    pub receiving: bool,
}

impl View for ChildListener {
    type V = ChildListener;

    open spec fn view(&self) -> ChildListener {
        *self
    }
}

impl ChildListener {
    /// What the listener hangs on.
    pub open spec fn asks(self) -> Query {
        if self.receiving {
            Query::Recv
        } else {
            Query::Poll
        }
    }

    /// Listening goes on, with a look for requests.
    pub open spec fn then_receive<E>(self, cmds: Seq<Command<E>>) -> Turn<
        E,
        ChildListener,
        (ChildListener, ExecEvent),
    > {
        Turn { cmds, step: Step::Ask(ChildListener { receiving: true, ..self }) }
    }

    /// Listening goes on from the beginning.
    pub open spec fn then_poll<E>(self) -> Turn<E, ChildListener, (ChildListener, ExecEvent)> {
        Turn {
            cmds: seq![Command::Yield],
            step: Step::Ask(ChildListener { receiving: false, ..self }),
        }
    }

    /// An event is passed on.
    pub open spec fn then_report<E>(self, event: ExecEvent) -> Turn<
        E,
        ChildListener,
        (ChildListener, ExecEvent),
    > {
        Turn {
            cmds: seq![],
            step: Step::Done((ChildListener { receiving: false, ..self }, event)),
        }
    }

    /// A thread was stopped by a signal. Outside of an FFI call the signal is passed along:
    /// the child would else act as if it never received it.
    pub open spec fn then_stop<E>(self, pid: Pid, signal: Signal, note: Note) -> Turn<
        E,
        ChildListener,
        (ChildListener, ExecEvent),
    > {
        if !self.attached {
            self.then_receive(seq![Command::Note(note), Command::Raise(pid, signal)])
        } else if signal == Signal::Usr1 {
            (ChildListener { attached: false, ..self }).then_report(ExecEvent::End)
        } else {
            self.then_report(ExecEvent::Status(pid, signal))
        }
    }

    /// What a reply leads to. Stops and system calls count only while an FFI call is
    /// ongoing, and the signal `SIGUSR1` is what ends one. It is a fault to ask for a
    /// second one during the first.
    pub open spec fn next<E, D>(self, reply: Reply<D>) -> Turn<
        E,
        ChildListener,
        (ChildListener, ExecEvent),
    > {
        match reply {
            Reply::Status(None) => self.then_report(ExecEvent::Died(self.override_retcode)),
            Reply::Status(Some(WaitStatus::Exited(_, code))) => self.then_report(
                ExecEvent::Died(
                    Some(
                        match self.override_retcode {
                            Some(over) => over,
                            None => code,
                        },
                    ),
                ),
            ),
            Reply::Status(Some(WaitStatus::Signaled(_, _, _))) => self.then_report(
                ExecEvent::Died(self.override_retcode),
            ),
            Reply::Status(Some(WaitStatus::PtraceSyscall(pid))) => if self.attached {
                self.then_report(ExecEvent::Syscall(pid))
            } else {
                self.then_receive(seq![])
            },
            Reply::Status(Some(WaitStatus::PtraceEvent(pid, signal, _))) => self.then_stop(
                pid,
                signal,
                Note::IgnoringEvent(signal),
            ),
            Reply::Status(Some(WaitStatus::Stopped(pid, signal))) => self.then_stop(
                pid,
                signal,
                Note::IgnoringStop(signal),
            ),
            Reply::Status(Some(_)) => self.then_receive(seq![]),
            Reply::Request(Some(TraceRequest::StartFfi(info))) => if self.attached {
                Turn { cmds: seq![], step: Step::Abort }
            } else {
                (ChildListener { attached: true, ..self }).then_report(ExecEvent::Start(info))
            },
            Reply::Request(Some(TraceRequest::OverrideRetcode(code))) => (ChildListener {
                override_retcode: Some(code),
                ..self
            }).then_poll(),
            Reply::Request(None) => self.then_poll(),
            _ => Turn { cmds: seq![], step: Step::Abort },
        }
    }

    /// A listener for the child with this pid.
    pub fn new(pid: Pid) -> (listener: ChildListener)
        ensures
            listener == (ChildListener {
                pid,
                attached: false,
                override_retcode: None,
                receiving: false,
            }),
    {
        ChildListener { pid, attached: false, override_retcode: None, receiving: false }
    }

    /// What the listener hangs on.
    pub fn query(&self) -> (query: Query)
        ensures
            query == self.asks(),
    {
        if self.receiving {
            Query::Recv
        } else {
            Query::Poll
        }
    }

    /// Takes the reply to `query`.
    pub fn advance<E: View, D>(self, reply: Reply<D>, out: &mut Outbox<E>) -> (step: Step<
        ChildListener,
        (ChildListener, ExecEvent),
    >)
        requires
            self.asks().settled_by(reply),
        ensures
            final(out)@ == old(out)@ + self.next::<E::V, D>(reply).cmds,
            step == self.next::<E::V, D>(reply).step,
    {
        proof {
            assert(out@ + Seq::<Command<E::V>>::empty() =~= out@);
        }
        let mut listener: ChildListener = self;
        listener.receiving = false;
        match reply {
            Reply::Status(Some(status)) => {
                match status {
                    WaitStatus::Exited(_, code) => {
                        let code: i32 = match self.override_retcode {
                            Some(over) => over,
                            None => code,
                        };
                        return Step::Done((listener, ExecEvent::Died(Some(code))));
                    },
                    WaitStatus::Signaled(_, _, _) => {
                        return Step::Done((listener, ExecEvent::Died(self.override_retcode)));
                    },
                    WaitStatus::PtraceSyscall(pid) => {
                        if self.attached {
                            return Step::Done((listener, ExecEvent::Syscall(pid)));
                        }
                    },
                    WaitStatus::PtraceEvent(pid, signal, _) | WaitStatus::Stopped(pid, signal) => {
                        if self.attached {
                            if signal == Signal::Usr1 {
                                listener.attached = false;
                                return Step::Done((listener, ExecEvent::End));
                            }
                            return Step::Done((listener, ExecEvent::Status(pid, signal)));
                        }
                        let note = match status {
                            WaitStatus::Stopped(_, _) => Note::IgnoringStop(signal),
                            _ => Note::IgnoringEvent(signal),
                        };
                        out.push(Command::Note(note));
                        out.push(Command::Raise(pid, signal));
                        assert(out@ =~= old(out)@ + self.next::<E::V, D>(reply).cmds);
                    },
                    _ => {},
                }
                listener.receiving = true;
                Step::Ask(listener)
            },
            Reply::Status(None) => Step::Done((listener, ExecEvent::Died(self.override_retcode))),
            Reply::Request(Some(TraceRequest::StartFfi(info))) => {
                if self.attached {
                    return Step::Abort;
                }
                listener.attached = true;
                Step::Done((listener, ExecEvent::Start(info)))
            },
            Reply::Request(request) => {
                if let Some(TraceRequest::OverrideRetcode(code)) = request {
                    listener.override_retcode = Some(code);
                }
                out.push(Command::Yield);
                Step::Ask(listener)
            },
            _ => Step::Abort,
        }
    }
}

/// An FFI call is begun only when none is ongoing, and ended, or reported on, only when
/// one is. Whether one is ongoing changes with these two events and at no other
/// time.
pub proof fn law_sessions_alternate<E, D>(listener: ChildListener, reply: Reply<D>)
    ensures
        match listener.next::<E, D>(reply).step {
            Step::Ask(next) => next.attached == listener.attached,
            Step::Done((next, event)) => match event {
                ExecEvent::Start(_) => !listener.attached && next.attached,
                ExecEvent::End => listener.attached && !next.attached,
                ExecEvent::Status(_, signal) => listener.attached && next.attached && signal
                    != Signal::Usr1,
                ExecEvent::Syscall(_) => listener.attached && next.attached,
                ExecEvent::Died(_) => next.attached == listener.attached,
            },
            Step::Abort => true,
        },
{
}

/// A return code that the child asked for is kept, and is what its death is reported
/// with in any case.
pub proof fn law_override_wins<E, D>(listener: ChildListener, reply: Reply<D>, code: i32)
    requires
        listener.override_retcode == Some(code),
    ensures
        match listener.next::<E, D>(reply).step {
            Step::Ask(next) => next.override_retcode is Some && (next.override_retcode == Some(code)
                || reply matches Reply::Request(Some(TraceRequest::OverrideRetcode(_)))),
            Step::Done((next, event)) => {
                &&& next.override_retcode == Some(code)
                &&& event matches ExecEvent::Died(died) ==> died == Some(code)
            },
            Step::Abort => true,
        },
{
}

impl ChildListener {
    /// The beginnings (`true`) and ends (`false`) of FFI calls that a series of replies leads
    /// to, in order. After each event listening goes on.
    pub open spec fn boundaries<E, D>(self, replies: Seq<Reply<D>>) -> Seq<bool>
        decreases replies.len(),
    {
        if replies.len() == 0 {
            seq![]
        } else {
            match self.next::<E, D>(replies[0]).step {
                Step::Ask(next) => next.boundaries::<E, D>(replies.skip(1)),
                Step::Done((next, event)) => (match event {
                    ExecEvent::Start(_) => seq![true],
                    ExecEvent::End => seq![false],
                    _ => seq![],
                }) + next.boundaries::<E, D>(replies.skip(1)),
                Step::Abort => seq![],
            }
        }
    }
}

/// Whether beginnings and ends come by turns, an end first if a call is ongoing.
pub open spec fn by_turns(marks: Seq<bool>, attached: bool) -> bool {
    forall|k: int| 0 <= k < marks.len() ==> #[trigger] marks[k] == ((k % 2 == 0) != attached)
}

proof fn lemma_by_turns(mark: bool, later: Seq<bool>)
    requires
        by_turns(later, mark),
    ensures
        by_turns(seq![mark] + later, !mark),
{
    let marks = seq![mark] + later;
    assert forall|k: int| 0 <= k < marks.len() implies #[trigger] marks[k] == ((k % 2 == 0)
        != !mark) by {
        if k > 0 {
            assert(marks[k] == later[k - 1]);
        }
    }
}

/// Whatever replies come, FFI calls begin and end by turns. If none is ongoing at first,
/// the first thing to happen is that one begins.
pub proof fn law_calls_alternate<E, D>(listener: ChildListener, replies: Seq<Reply<D>>)
    ensures
        by_turns(listener.boundaries::<E, D>(replies), listener.attached),
    decreases replies.len(),
{
    if replies.len() > 0 {
        law_sessions_alternate::<E, D>(listener, replies[0]);
        let rest = replies.skip(1);
        match listener.next::<E, D>(replies[0]).step {
            Step::Ask(next) => {
                law_calls_alternate::<E, D>(next, rest);
            },
            Step::Done((next, event)) => {
                law_calls_alternate::<E, D>(next, rest);
                let later = next.boundaries::<E, D>(rest);
                match event {
                    ExecEvent::Start(_) => {
                        lemma_by_turns(true, later);
                    },
                    ExecEvent::End => {
                        lemma_by_turns(false, later);
                    },
                    _ => {
                        assert(Seq::<bool>::empty() + later =~= later);
                    },
                }
            },
            Step::Abort => {},
        }
    }
}

/// An event is passed on without anything being done, and so is a fault of the supervisor.
pub proof fn law_reports_do_nothing<E, D>(listener: ChildListener, reply: Reply<D>)
    ensures
        !(listener.next::<E, D>(reply).step is Ask) ==> listener.next::<E, D>(reply).cmds =~= seq![],
{
}

} // verus!
