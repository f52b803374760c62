//! How the main loop goes, from one look at the children to the next.
use vstd::prelude::*;

use crate::messages::{StartFfiInfo, TraceRequest};
use crate::native_lib::access::Found;
use crate::native_lib::listener::ChildListener;
use crate::native_lib::sigtrap::SvEnv;
use crate::native_lib::sv_loop::{SvMode, SvState, SvTurn};
use crate::native_lib::wait::WaitForSignal;
use crate::native_lib::{AccessEvent, ExecEnd};
use crate::tracee::{Command, Note, Pid, Query, Reply, Signal, Step, WaitId, WaitStatus};

verus! {

/// The loop looks for what happens to the children, and has not looked for requests yet.
pub open spec fn idle(sv: SvState) -> bool {
    sv.mode is Listening && !sv.listener.receiving
}

/// The loop begins by waiting for the child to stop by itself, and then lets it run. If the
/// child dies first, the loop ends with its return code.
pub proof fn law_loop_begins(
    listener: ChildListener,
    init_pid: Pid,
    env: SvEnv,
    stopped: Pid,
    status: WaitStatus,
)
    ensures
        ({
            let sv = SvState::initial(listener, init_pid, env);
            let turn = sv.next(Reply::Status(Some(status)));
            &&& sv.asks() == Query::Wait(WaitId::Pid(init_pid))
            &&& sv.acc_events =~= seq![]
            &&& sv.listener == listener
            &&& sv.env == env
            &&& sv.curr_pid == init_pid
            &&& sv.ch_stack is None
            &&& sv.ch_pages =~= seq![]
            &&& crate::native_lib::conduct::stopped_by(status, stopped, Signal::Stop)
                ==> turn.comes_to(
                seq![Command::Cont(init_pid, None)],
                Step::Ask(SvState { mode: SvMode::Listening, ..sv }),
            )
            &&& status matches WaitStatus::Exited(_, code) ==> turn.comes_to(
                seq![],
                Step::Done(ExecEnd(Some(code))),
            )
            &&& status is Signaled ==> turn.comes_to(seq![], Step::Done(ExecEnd(None)))
            &&& sv.next(Reply::Status(None)).comes_to(seq![], Step::Done(ExecEnd(None)))
        }),
{
}

/// While the loop waits for a child to stop, what is heard changes nothing else.
pub proof fn law_loop_is_patient(sv: SvState, wait: WaitForSignal, reply: Reply<Found>)
    ensures
        ({
            let waited = wait.next::<Seq<AccessEvent>, Found>(reply);
            let starting = SvState { mode: SvMode::Starting(wait), ..sv };
            let beginning = SvState { mode: SvMode::Beginning(wait), ..sv };
            &&& starting.asks() == wait.asks()
            &&& beginning.asks() == wait.asks()
            &&& waited.step matches Step::Ask(w) ==> {
                &&& starting.next(reply).comes_to(
                    waited.cmds,
                    Step::Ask(SvState { mode: SvMode::Starting(w), ..sv }),
                )
                &&& beginning.next(reply).comes_to(
                    waited.cmds,
                    Step::Ask(SvState { mode: SvMode::Beginning(w), ..sv }),
                )
            }
            &&& waited.step matches Step::Done(Err(end)) ==> {
                &&& starting.next(reply).comes_to(waited.cmds, Step::Done(end))
                &&& beginning.next(reply).step is Abort
            }
        }),
{
}

/// A call of foreign code begins like this. The request is confirmed, and the pages and the
/// stack that it names are those that count from then on. The thread that stops next is the
/// one that makes the call: the functions are made to trap in it, and it runs on to its next
/// system call. What is on record stays.
pub proof fn law_call_begins(sv: SvState, info: StartFfiInfo, stopped: Pid, stop: WaitStatus)
    requires
        sv.mode is Listening,
        sv.listener.receiving,
        crate::native_lib::conduct::stopped_by(stop, stopped, Signal::Stop),
    ensures
        ({
            let request = Reply::<Found>::Request(Some(TraceRequest::StartFfi(info)));
            let t0 = sv.next(request);
            let s1 = t0.step->Ask_0;
            let t1 = s1.next(Reply::Status(Some(stop)));
            &&& sv.asks() == Query::Recv
            &&& sv.listener.attached ==> t0.step is Abort
            &&& !sv.listener.attached ==> {
                &&& t0.comes_to(seq![Command::Confirm], Step::Ask(s1))
                &&& s1.asks() == Query::Wait(WaitId::All)
                &&& t1.cmds.len() == 7
                &&& crate::native_lib::conduct::writes_each(
                    t1.cmds.take(6),
                    stopped,
                    sv.env.libc.addrs,
                    crate::native_lib::conduct::all_the_same(0xCC),
                )
                &&& t1.cmds[6] == Command::<Seq<AccessEvent>>::Syscall(stopped)
                &&& t1.step == Step::<SvState, ExecEnd>::Ask(
                    SvState {
                        mode: SvMode::Listening,
                        curr_pid: stopped,
                        ch_pages: info.page_ptrs@,
                        ch_stack: Some(info.stack_ptr),
                        listener: ChildListener {
                            attached: true,
                            receiving: false,
                            ..sv.listener
                        },
                        ..sv
                    },
                )
            }
        }),
{
}

/// A call of foreign code ends like this. The functions get back their own code in the process
/// that the call was made in. All accesses on record are handed over, and the record is empty
/// from then on. Then that process runs on.
pub proof fn law_call_ends(sv: SvState, stopped: Pid, status: WaitStatus)
    requires
        idle(sv),
        sv.listener.attached,
        crate::native_lib::conduct::stopped_by(status, stopped, Signal::Usr1),
    ensures
        ({
            let turn = sv.next(Reply::Status(Some(status)));
            &&& sv.asks() == Query::Poll
            &&& turn.cmds.len() == 8
            &&& crate::native_lib::conduct::writes_each(
                turn.cmds.take(6),
                sv.curr_pid,
                sv.env.libc.addrs,
                sv.env.libc.words,
            )
            &&& turn.cmds[6] == Command::SendEvents(sv.acc_events)
            &&& turn.cmds[7] == Command::<Seq<AccessEvent>>::Cont(sv.curr_pid, None)
            &&& turn.step == Step::<SvState, ExecEnd>::Ask(
                SvState {
                    ch_stack: None,
                    acc_events: seq![],
                    listener: ChildListener { attached: false, ..sv.listener },
                    ..sv
                },
            )
        }),
{
}

/// What stops a thread during a call decides what is done: a fault is looked into, and so is a
/// breakpoint, each in the thread that it happened to. A system call is let through. Any other
/// signal is told, and the thread let run on, or woken up if that does not work.
pub proof fn law_stops_during_calls(sv: SvState, pid: Pid, signal: Signal, event: i32, went: bool)
    requires
        idle(sv),
        sv.listener.attached,
        sv.ch_stack is Some,
        signal != Signal::Usr1,
    ensures
        ({
            let turn = sv.next(Reply::Status(Some(WaitStatus::Stopped(pid, signal))));
            let next = turn.step->Ask_0;
            let called = sv.next(Reply::Status(Some(WaitStatus::PtraceSyscall(pid))));
            &&& sv.next(Reply::Status(Some(WaitStatus::PtraceEvent(pid, signal, event)))).comes_to(
                turn.cmds,
                turn.step,
            )
            &&& turn.step == Step::<SvState, ExecEnd>::Ask(SvState { mode: next.mode, ..sv })
            &&& signal == Signal::Segv ==> turn.cmds.len() == 0 && next.asks() == Query::GetRegs(
                pid,
            ) && next.mode is Segfault
            &&& signal == Signal::Trap ==> turn.cmds.len() == 0 && next.asks() == Query::GetRegs(
                pid,
            ) && next.mode is Sigtrap
            &&& signal != Signal::Segv && signal != Signal::Trap ==> {
                &&& turn.cmds =~= seq![
                    Command::<Seq<AccessEvent>>::Note(Note::UnexpectedSignal(signal)),
                ]
                &&& next.asks() == Query::TrySyscall(pid)
                &&& next.next(Reply::Success(went)).comes_to(
                    if went {
                        seq![]
                    } else {
                        seq![Command::Raise(pid, Signal::Cont)]
                    },
                    Step::Ask(sv),
                )
            }
            &&& called.comes_to(seq![Command::Syscall(pid)], Step::Ask(sv))
        }),
{
}

/// Outside of calls, a thread that was stopped by a signal is let run on with that signal.
/// Nothing else comes of a stop or a system call then: the loop goes on to look for requests.
/// At any time, a child that dies leaves its return code behind.
pub proof fn law_stops_outside_of_calls(sv: SvState, status: WaitStatus)
    requires
        idle(sv),
        !sv.listener.attached || status is Exited || status is Signaled || status is Continued
            || status is StillAlive,
    ensures
        sv.next(Reply::Status(Some(status))).comes_to(
            match status {
                WaitStatus::Stopped(pid, signal) => seq![Command::Cont(pid, Some(signal))],
                WaitStatus::PtraceEvent(pid, signal, _) => seq![Command::Cont(pid, Some(signal))],
                _ => seq![],
            },
            Step::Ask(
                SvState {
                    listener: ChildListener {
                        receiving: true,
                        last_code: match status {
                            WaitStatus::Exited(_, code) => Some(code),
                            WaitStatus::Signaled(_, _, _) => None,
                            _ => sv.listener.last_code,
                        },
                        ..sv.listener
                    },
                    ..sv
                },
            ),
        ),
{
}

/// When there is no request the loop yields and begins anew. A return code that the child asks
/// for is remembered, and the request confirmed.
pub proof fn law_loop_takes_turns(sv: SvState, code: i32)
    requires
        sv.mode is Listening,
        sv.listener.receiving,
    ensures
        ({
            let polling = SvState {
                listener: ChildListener { receiving: false, ..sv.listener },
                ..sv
            };
            &&& polling.asks() == Query::Poll
            &&& sv.asks() == Query::Recv
            &&& sv.next(Reply::Request(None)).comes_to(seq![Command::Yield], Step::Ask(polling))
            &&& sv.next(Reply::Request(Some(TraceRequest::OverrideRetcode(code)))).comes_to(
                seq![Command::Confirm, Command::Yield],
                Step::Ask(
                    SvState {
                        listener: ChildListener {
                            override_retcode: Some(code),
                            ..polling.listener
                        },
                        ..polling
                    },
                ),
            )
        }),
{
}

/// The loop ends when no child is left, with the return code that was asked for, or else with
/// the one that the last of them left behind.
pub proof fn law_loop_ends(sv: SvState)
    requires
        idle(sv),
    ensures
        sv.next(Reply::Status(None)).comes_to(
            seq![],
            Step::Done(
                ExecEnd(
                    match sv.listener.override_retcode {
                        Some(over) => Some(over),
                        None => sv.listener.last_code,
                    },
                ),
            ),
        ),
{
}

/// What the loop goes on with when a handler is over: it ends if the handler was in vain, and
/// listens again otherwise.
pub open spec fn goes_on(
    turn: SvTurn,
    result: Result<(), ExecEnd>,
    cmds: Seq<Command<Seq<AccessEvent>>>,
    sv: SvState,
) -> bool {
    match result {
        Err(end) => turn.comes_to(cmds, Step::Done(end)),
        Ok(_) => turn.comes_to(cmds, Step::Ask(SvState { mode: SvMode::Listening, ..sv })),
    }
}

/// While a fault is handled, the loop asks and does just what its handler does, with the pages
/// and the stack of the call. What it logs is put at the end of the record.
pub proof fn law_loop_handles_faults(sv: SvState, reply: Reply<Found>)
    ensures
        sv.mode matches SvMode::Segfault(handler) ==> (sv.ch_stack matches Some(stack) ==> {
            let handled = handler.next::<Seq<AccessEvent>>(
                sv.env.fault,
                sv.ch_pages,
                stack,
                reply,
            );
            let logged = SvState {
                acc_events: sv.acc_events + handler.logs(
                    sv.ch_pages,
                    sv.env.fault.layout.page_size,
                    reply,
                ),
                ..sv
            };
            let turn = sv.next(reply);
            &&& sv.asks() == handler.asks()
            &&& sv.fault_regs() == handler.fault_regs()
            &&& handled.step matches Step::Ask(h) ==> turn.comes_to(
                handled.cmds,
                Step::Ask(SvState { mode: SvMode::Segfault(h), ..logged }),
            )
            &&& handled.step matches Step::Done(result) ==> goes_on(
                turn,
                result,
                handled.cmds,
                logged,
            )
            &&& handled.step is Abort ==> turn.step is Abort
        }),
{
}

/// While a breakpoint is handled, the loop asks and does just what its handler does, with the
/// pages, the stack and the accesses of the call. The list of pages and the record are what
/// the handler makes of them.
pub proof fn law_loop_handles_breakpoints(sv: SvState, reply: Reply<Found>)
    ensures
        sv.mode matches SvMode::Sigtrap(handler) ==> (sv.ch_stack matches Some(stack) ==> {
            let handled = handler.next(sv.env, sv.ch_pages, stack, sv.acc_events, reply);
            let updated = SvState {
                ch_pages: handler.pages_after(sv.env, sv.ch_pages, reply),
                acc_events: handler.acc_after(sv.env, sv.ch_pages, sv.acc_events, reply),
                ..sv
            };
            let turn = sv.next(reply);
            &&& sv.asks() == handler.asks(sv.env)
            &&& sv.fault_regs() == handler.fault_regs()
            &&& handled.step matches Step::Ask(h) ==> turn.comes_to(
                handled.cmds,
                Step::Ask(SvState { mode: SvMode::Sigtrap(h), ..updated }),
            )
            &&& handled.step matches Step::Done(result) ==> goes_on(
                turn,
                result,
                handled.cmds,
                updated,
            )
            &&& handled.step is Abort ==> turn.step is Abort
        }),
{
}

/// The bytes that are decoded are those of the words that were read, in order, and what comes
/// of it are the accesses that the instruction in them makes with the registers that the thread
/// faulted with, unless Capstone fails. It fails if none of the words could be read. Any other
/// reply is taken as it is.
pub proof fn law_what_is_decoded(
    sv: SvState,
    arch: crate::arch::Arch,
    words: Vec<Option<usize>>,
    reply: Reply<Found>,
    settled: Reply<Found>,
)
    ensures
        sv.decodes_to(arch, Reply::Words(words), settled) ==> (
        settled matches Reply::Decoded(found) && match found {
            Ok(events) => {
                &&& sv.fault_regs() matches Some(regs) && (match events {
                    Some(events) => Some(events@),
                    None => None,
                }) == crate::native_lib::access::disassembly(
                    arch,
                    crate::words::bytes_of(words@),
                    regs,
                )
                &&& exists|i: int| 0 <= i < words@.len() && #[trigger] words@[i] is Some
            },
            Err(e) => e.arch == arch,
        }),
        !(reply is Words) && sv.decodes_to(arch, reply, settled) ==> settled == reply,
{
}

/// What is sent to the child is the whole of the record: nothing of it is hidden or made up.
pub proof fn law_report_is_complete(events: crate::native_lib::MemEvents)
    ensures
        events@ == events.acc_events@,
{
}

/// A fault or a breakpoint without a stack to use is a fault of the supervisor.
pub proof fn law_no_stack_no_call(sv: SvState, pid: Pid, signal: Signal)
    requires
        idle(sv),
        sv.listener.attached,
        sv.ch_stack is None,
        signal == Signal::Segv || signal == Signal::Trap,
    ensures
        sv.next(Reply::Status(Some(WaitStatus::Stopped(pid, signal)))).step is Abort,
{
}

/// A supervisor that gives up does nothing more to the children.
pub proof fn law_gives_up_quietly(sv: SvState, reply: Reply<Found>)
    ensures
        sv.next(reply).step is Abort ==> sv.next(reply).cmds =~= seq![],
{
}

} // verus!
