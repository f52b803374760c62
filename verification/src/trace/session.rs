//! How the main loop goes, from one look at the child to the next.
use vstd::prelude::*;

use crate::messages::{StartFfiInfo, TraceRequest};
use crate::regs::UserRegs;
use crate::trace::listener::ChildListener;
use crate::trace::segfault::Found;
use crate::trace::sv_loop::{MemRecord, SvEnv, SvMode, SvState, SvTurn};
use crate::trace::wait::WaitForSignal;
use crate::trace::{ExecError, MmapEvent};
use crate::tracee::{
    Command, Note, Pid, Query, Reply, Signal, Step, Turn, WaitId, WaitStatus,
};

verus! {

/// The loop looks for what happens to the child, and has not looked for requests yet.
pub open spec fn idle(sv: SvState) -> bool {
    sv.mode is Listening && !sv.listener.receiving
}

/// The replies that go with a system call: the registers that it was entered with, that the
/// thread was seen to leave one, and the registers that it was left with.
pub open spec fn through_syscall(entry: UserRegs, left: Pid, exit: UserRegs) -> Seq<Reply<Found>> {
    seq![
        Reply::Regs(entry),
        Reply::Status(Some(WaitStatus::PtraceSyscall(left))),
        Reply::Regs(exit),
    ]
}

proof fn lemma_through_syscall(sv: SvState, entry: UserRegs, left: Pid, exit: UserRegs)
    ensures
        ({
            let t0 = sv.next(Reply::Regs(entry));
            let s1 = t0.step->Ask_0;
            let t1 = s1.next(Reply::Status(Some(WaitStatus::PtraceSyscall(left))));
            let s2 = t1.step->Ask_0;
            let t2 = s2.next(Reply::Regs(exit));
            t0.step is Ask && t1.step is Ask ==> sv.run(through_syscall(entry, left, exit)).comes_to(
                t0.cmds + t1.cmds + t2.cmds,
                t2.step,
            )
        }),
{
    let all = through_syscall(entry, left, exit);
    let t0 = sv.next(Reply::Regs(entry));
    let s1 = t0.step->Ask_0;
    let t1 = s1.next(Reply::Status(Some(WaitStatus::PtraceSyscall(left))));
    let s2 = t1.step->Ask_0;
    let t2 = s2.next(Reply::Regs(exit));
    if t0.step is Ask && t1.step is Ask {
        assert(all.skip(1)[0] == all[1]);
        assert(all.skip(1).skip(1)[0] == all[2]);
        let last = all.skip(1).skip(1);
        assert(last.skip(1).len() == 0);
        if let Step::Ask(end) = t2.step {
            assert(end.run(last.skip(1)) == (Turn {
                cmds: Seq::<Command<MemRecord>>::empty(),
                step: Step::<SvState, Option<i32>>::Ask(end),
            }));
        }
        assert(s2.run(last).comes_to(t2.cmds, t2.step));
        assert(s1.run(all.skip(1)).comes_to(t1.cmds + t2.cmds, t2.step));
    }
}

/// A thread that unmaps `rsi` bytes from `rdi` on, and succeeds, takes every page in that
/// stretch off the record of mappings. Each of which no mapping was on record is put on record
/// as unmapped. Nothing else on record changes. A call that fails changes nothing at all.
pub proof fn law_munmap_is_recorded(
    sv: SvState,
    pid: Pid,
    entry: UserRegs,
    left: Pid,
    exit: UserRegs,
    i: int,
    e: MmapEvent,
)
    requires
        sv.mode == SvMode::Entering(pid),
        sv.env.layout.page_size > 0,
        sv.env.sys_mmap != sv.env.sys_munmap,
        crate::regs::signed(entry.orig_rax) == sv.env.sys_munmap,
        crate::regs::signed(exit.orig_rax) == sv.env.sys_munmap,
        entry.rsi >= sv.env.layout.page_size ==> entry.rdi + (entry.rsi as int
            / sv.env.layout.page_size as int - 1) * sv.env.layout.page_size <= usize::MAX,
    ensures
        ({
            let turn = sv.run(through_syscall(entry, left, exit));
            let end = turn.step->Ask_0;
            let size = sv.env.layout.page_size as int;
            let first = entry.rdi as int;
            let past = first + size * (entry.rsi as int / size);
            let inside = |pg: usize| first <= pg < past && (pg - first) % size == 0;
            &&& sv.asks() == Query::GetRegs(pid)
            &&& turn.comes_to(
                seq![Command::Syscall(pid), Command::Syscall(pid)],
                Step::Ask(
                    SvState { mode: SvMode::Listening, mmap_events: end.mmap_events, ..sv },
                ),
            )
            &&& exit.rax != 0 ==> end.mmap_events == sv.mmap_events
            &&& exit.rax == 0 && 0 <= i < entry.rsi as int / size ==> {
                let pg = (first + i * size) as usize;
                &&& pg == first + i * size
                &&& !end.mmap_events.contains(MmapEvent::Mmap(pg))
                &&& !sv.mmap_events.contains(MmapEvent::Mmap(pg)) ==> end.mmap_events.contains(
                    MmapEvent::Munmap(pg),
                )
            }
            &&& exit.rax == 0 && sv.mmap_events.contains(e) && !end.mmap_events.contains(e) ==> (
            e matches MmapEvent::Mmap(pg) && inside(pg))
            &&& exit.rax == 0 && !sv.mmap_events.contains(e) && end.mmap_events.contains(e) ==> (
            e matches MmapEvent::Munmap(pg) && inside(pg))
        }),
{
    let size = sv.env.layout.page_size;
    let p = size as int;
    let count = (entry.rsi / size) as usize;
    lemma_through_syscall(sv, entry, left, exit);
    lemma_fewer_bytes(entry.rsi as int, p);
    assert(crate::pages::run_fits(entry.rdi, count, size));
    let run = crate::pages::page_run(entry.rdi, count, size);
    let after = crate::trace::mmap_events::after_munmap(sv.mmap_events, run);
    if 0 <= i < count {
        crate::pages::law_run(entry.rdi, count, size, i);
        assert(run.contains(run[i]));
        crate::trace::mmap_events::law_unmapped(sv.mmap_events, run, run[i]);
    }
    crate::trace::mmap_events::law_unmapping_spares_others(sv.mmap_events, run, e);
    let pg = match e {
        MmapEvent::Mmap(pg) => pg,
        MmapEvent::Munmap(pg) => pg,
    };
    if run.contains(pg) {
        let k = choose|k: int| 0 <= k < run.len() && run[k] == pg;
        crate::pages::law_run(entry.rdi, count, size, k);
        lemma_multiple(k, count as int, p);
    }
}

/// Fewer bytes than a page has make no page.
proof fn lemma_fewer_bytes(n: int, p: int)
    requires
        p > 0,
        n >= 0,
    ensures
        n < p <==> n / p == 0,
{
    assert(n < p <==> n / p == 0) by (nonlinear_arith)
        requires
            p > 0,
            n >= 0,
    ;
}

/// Multiples of a size, and how far they reach.
proof fn lemma_multiple(k: int, n: int, p: int)
    requires
        p > 0,
        0 <= k < n,
    ensures
        0 <= k * p < p * n,
        (k * p) % p == 0,
{
    assert(0 <= k * p < p * n) by (nonlinear_arith)
        requires
            p > 0,
            0 <= k < n,
    ;
    vstd::arithmetic::div_mod::lemma_mod_multiples_basic(k, p);
}

/// A thread that maps `rsi` bytes and is given an address has every page of that many from
/// there on put on record as mapped, in order and behind all else. A call that fails changes
/// nothing.
pub proof fn law_mmap_is_recorded(
    sv: SvState,
    pid: Pid,
    entry: UserRegs,
    left: Pid,
    exit: UserRegs,
    i: int,
)
    requires
        sv.mode == SvMode::Entering(pid),
        sv.env.layout.page_size > 0,
        crate::regs::signed(entry.orig_rax) == sv.env.sys_mmap,
        crate::regs::signed(exit.orig_rax) == sv.env.sys_mmap,
        exit.rax <= isize::MAX && entry.rsi >= sv.env.layout.page_size ==> exit.rax + (
        entry.rsi as int / sv.env.layout.page_size as int - 1) * sv.env.layout.page_size
            <= usize::MAX,
    ensures
        ({
            let turn = sv.run(through_syscall(entry, left, exit));
            let end = turn.step->Ask_0;
            let size = sv.env.layout.page_size as int;
            let n = sv.mmap_events.len() as int;
            let count = entry.rsi as int / size;
            &&& sv.asks() == Query::GetRegs(pid)
            &&& turn.comes_to(
                seq![Command::Syscall(pid), Command::Syscall(pid)],
                Step::Ask(
                    SvState { mode: SvMode::Listening, mmap_events: end.mmap_events, ..sv },
                ),
            )
            &&& exit.rax > isize::MAX ==> end.mmap_events == sv.mmap_events
            &&& exit.rax <= isize::MAX ==> {
                &&& end.mmap_events.len() == n + count
                &&& end.mmap_events.take(n) == sv.mmap_events
                &&& 0 <= i < count ==> (end.mmap_events[n + i] matches MmapEvent::Mmap(pg) && pg
                    == exit.rax + i * size)
            }
        }),
{
    let size = sv.env.layout.page_size;
    let p = size as int;
    let count = (entry.rsi / size) as usize;
    lemma_through_syscall(sv, entry, left, exit);
    crate::regs::law_signed(exit.rax);
    lemma_fewer_bytes(entry.rsi as int, p);
    let run = crate::pages::page_run(exit.rax, count, size);
    if exit.rax <= isize::MAX {
        assert(crate::pages::run_fits(exit.rax, count, size));
        crate::pages::law_run(exit.rax, count, size, i);
        let after = crate::trace::mmap_events::after_mmap(sv.mmap_events, run);
        assert(after.take(sv.mmap_events.len() as int) =~= sv.mmap_events);
    }
}

/// Any other system call is let through, and leaves no trace.
pub proof fn law_other_syscalls_pass(sv: SvState, pid: Pid, entry: UserRegs)
    requires
        sv.mode == SvMode::Entering(pid),
        crate::regs::signed(entry.orig_rax) != sv.env.sys_mmap,
        crate::regs::signed(entry.orig_rax) != sv.env.sys_munmap,
    ensures
        sv.next(Reply::Regs(entry)).comes_to(
            seq![Command::Syscall(pid)],
            Step::Ask(SvState { mode: SvMode::Listening, ..sv }),
        ),
{
}

/// A thread that dies inside of `mmap` or `munmap` ends the loop, with its return code if it
/// has one. Any other thing to happen before it leaves that very system call is a fault of the
/// supervisor.
pub proof fn law_death_inside_of_a_syscall(
    sv: SvState,
    pid: Pid,
    entry: UserRegs,
    status: WaitStatus,
    exit: UserRegs,
)
    requires
        sv.mode == SvMode::Entering(pid),
        crate::regs::signed(entry.orig_rax) == sv.env.sys_mmap || crate::regs::signed(
            entry.orig_rax,
        ) == sv.env.sys_munmap,
    ensures
        sv.next(Reply::Regs(entry)).step matches Step::Ask(inside) ==> {
            &&& status matches WaitStatus::PtraceSyscall(left) ==> {
                let turn = inside.next(Reply::Status(Some(status)));
                let leaving = turn.step->Ask_0;
                &&& turn.comes_to(seq![], Step::Ask(leaving))
                &&& leaving.asks() == Query::GetRegs(left)
                &&& exit.orig_rax != entry.orig_rax ==> leaving.next(Reply::Regs(exit)).step
                    is Abort
            }
            &&& !(status is PtraceSyscall) && !(status is Exited) && !(status is Signaled)
                ==> inside.next(Reply::Status(Some(status))).step is Abort
            &&& inside.asks() == Query::Wait(WaitId::Pid(pid))
            &&& inside.next(Reply::Status(None)).comes_to(seq![], Step::Done(None))
            &&& status is Signaled ==> inside.next(Reply::Status(Some(status))).comes_to(
                seq![],
                Step::Done(None),
            )
            &&& status matches WaitStatus::Exited(_, code) ==> inside.next(
                Reply::Status(Some(status)),
            ).comes_to(seq![], Step::Done(Some(code)))
        },
{
    crate::regs::law_signed(entry.orig_rax);
    crate::regs::law_signed(exit.orig_rax);
}

/// The supervisor gives up on a stretch of pages that does not fit the address space: once it
/// was mapped or unmapped, and at once if it is to be unmapped while any page is on record as
/// mapped.
pub proof fn law_stretch_must_fit(
    sv: SvState,
    pid: Pid,
    entry: UserRegs,
    left: Pid,
    exit: UserRegs,
)
    requires
        sv.mode == SvMode::Entering(pid),
        sv.env.layout.page_size > 0,
        sv.env.sys_mmap != sv.env.sys_munmap,
        exit.orig_rax == entry.orig_rax,
        entry.rsi >= sv.env.layout.page_size,
    ensures
        ({
            let size = sv.env.layout.page_size as int;
            let reach = (entry.rsi as int / size - 1) * size;
            let turn = sv.run(through_syscall(entry, left, exit));
            &&& crate::regs::signed(entry.orig_rax) == sv.env.sys_mmap && exit.rax <= isize::MAX ==> (
            turn.step is Abort <==> exit.rax + reach > usize::MAX)
            &&& crate::regs::signed(entry.orig_rax) == sv.env.sys_munmap && exit.rax == 0 ==> (
            turn.step is Abort <==> entry.rdi + reach > usize::MAX)
            &&& crate::regs::signed(entry.orig_rax) == sv.env.sys_munmap ==> (sv.next(
                Reply::Regs(entry),
            ).step is Abort <==> entry.rdi + reach > usize::MAX && (exists|pg: usize| #[trigger]
                sv.mmap_events.contains(MmapEvent::Mmap(pg))))
        }),
{
    lemma_through_syscall(sv, entry, left, exit);
    crate::trace::mmap_events::law_has_mapping(sv.mmap_events);
    crate::regs::law_signed(exit.rax);
    let size = sv.env.layout.page_size;
    let p = size as int;
    let n = entry.rsi as int;
    assert(n / p >= 1) by (nonlinear_arith)
        requires
            n >= p,
            p > 0,
    ;
}

/// The loop begins by waiting for the child to stop by itself, and then lets it run. If the
/// child dies first, the loop ends with its return code.
pub proof fn law_loop_begins(listener: ChildListener, env: SvEnv, status: WaitStatus)
    ensures
        ({
            let sv = SvState::initial(listener, env);
            let turn = sv.next(Reply::Status(Some(status)));
            &&& sv.asks() == Query::Wait(WaitId::Pid(listener.pid))
            &&& sv.listener == listener
            &&& sv.env == env
            &&& sv.ch_stack is None
            &&& sv.ch_pages =~= seq![]
            &&& sv.record() == (MemRecord {
                acc_events: seq![],
                alloc_cutoff: env.layout.page_size,
                libc_events: seq![],
                mmap_events: seq![],
            })
            &&& crate::trace::conduct::stopped_by(status, Signal::Stop) ==> turn.comes_to(
                seq![Command::Cont(listener.pid, None)],
                Step::Ask(SvState { mode: SvMode::Listening, ..sv }),
            )
            &&& status matches WaitStatus::Exited(_, code) ==> turn.comes_to(
                seq![],
                Step::Done(Some(code)),
            )
            &&& status is Signaled ==> turn.comes_to(seq![], Step::Done(None))
            &&& sv.next(Reply::Status(None)).comes_to(seq![], Step::Done(None))
        }),
{
}

/// While the loop waits for the child to stop, what is heard changes nothing else.
pub proof fn law_loop_is_patient(sv: SvState, wait: WaitForSignal, reply: Reply<Found>)
    ensures
        ({
            let waited = wait.next::<MemRecord, Found>(reply);
            let starting = SvState { mode: SvMode::Starting(wait), ..sv };
            let beginning = SvState { mode: SvMode::Beginning(wait), ..sv };
            &&& starting.asks() == wait.asks()
            &&& beginning.asks() == wait.asks()
            &&& waited.step matches Step::Ask(w) ==> {
                &&& starting.next(reply).comes_to(
                    waited.cmds,
                    Step::Ask(SvState { mode: SvMode::Starting(w), ..sv }),
                )
                &&& beginning.next(reply).comes_to(
                    waited.cmds,
                    Step::Ask(SvState { mode: SvMode::Beginning(w), ..sv }),
                )
            }
            &&& waited.step is Done && !(waited.step matches Step::Done(Ok(_))) ==> beginning.next(
                reply,
            ).step is Abort
        }),
{
}

/// A call of foreign code begins like this. The request is confirmed, and the pages and the
/// stack that it names are those that count from then on. When the child has stopped, the
/// three functions are made to trap, and it runs on to its next system call. What is on record
/// stays.
pub proof fn law_call_begins(sv: SvState, info: StartFfiInfo, stop: WaitStatus)
    requires
        sv.mode is Listening,
        sv.listener.receiving,
        crate::trace::conduct::stopped_by(stop, Signal::Stop),
    ensures
        ({
            let main = sv.listener.pid;
            let vals = sv.env.libc_vals;
            let request = Reply::<Found>::Request(Some(TraceRequest::StartFfi(info)));
            let t0 = sv.next(request);
            let s1 = t0.step->Ask_0;
            &&& sv.asks() == Query::Recv
            &&& sv.listener.attached ==> t0.step is Abort
            &&& !sv.listener.attached ==> {
                &&& t0.comes_to(seq![Command::Confirm], Step::Ask(s1))
                &&& s1.asks() == Query::Wait(WaitId::Pid(main))
                &&& s1.next(Reply::Status(Some(stop))).comes_to(
                    seq![
                        Command::Write(main, vals.malloc_addr, 0xCC),
                        Command::Write(main, vals.realloc_addr, 0xCC),
                        Command::Write(main, vals.free_addr, 0xCC),
                        Command::Syscall(main),
                    ],
                    Step::Ask(
                        SvState {
                            mode: SvMode::Listening,
                            ch_pages: info.page_ptrs@,
                            ch_stack: Some(info.stack_ptr),
                            listener: ChildListener {
                                attached: true,
                                receiving: false,
                                ..sv.listener
                            },
                            ..sv
                        },
                    ),
                )
            }
        }),
{
}

/// A call of foreign code ends like this. All that is on record is handed over, with the page
/// size as the cutoff, and the record is empty from then on. The three functions get back
/// their own code, and the child runs on.
pub proof fn law_call_ends(sv: SvState, status: WaitStatus)
    requires
        idle(sv),
        sv.listener.attached,
        crate::trace::conduct::stopped_by(status, Signal::Usr1),
    ensures
        ({
            let main = sv.listener.pid;
            let vals = sv.env.libc_vals;
            &&& sv.asks() == Query::Poll
            &&& sv.next(Reply::Status(Some(status))).comes_to(
                seq![
                    Command::SendEvents(
                        MemRecord {
                            acc_events: sv.acc_events,
                            alloc_cutoff: sv.env.layout.page_size,
                            libc_events: sv.libc_events,
                            mmap_events: sv.mmap_events,
                        },
                    ),
                    Command::Write(main, vals.malloc_addr, vals.malloc_bytes),
                    Command::Write(main, vals.realloc_addr, vals.realloc_bytes),
                    Command::Write(main, vals.free_addr, vals.free_bytes),
                    Command::Cont(main, None),
                ],
                Step::Ask(
                    SvState {
                        ch_stack: None,
                        acc_events: seq![],
                        libc_events: seq![],
                        mmap_events: seq![],
                        listener: ChildListener { attached: false, ..sv.listener },
                        ..sv
                    },
                ),
            )
        }),
{
}

/// What stops a thread during a call decides what is done: a fault is looked into, and so is a
/// breakpoint and a system call, each in the thread that it happened to. Any other signal is
/// told, and the thread let run on, or woken up if that does not work.
pub proof fn law_stops_during_calls(sv: SvState, pid: Pid, signal: Signal, event: i32, went: bool)
    requires
        idle(sv),
        sv.listener.attached,
        sv.ch_stack is Some,
        signal != Signal::Usr1,
    ensures
        ({
            let turn = sv.next(Reply::Status(Some(WaitStatus::Stopped(pid, signal))));
            let next = turn.step->Ask_0;
            let called = sv.next(Reply::Status(Some(WaitStatus::PtraceSyscall(pid))));
            &&& sv.next(Reply::Status(Some(WaitStatus::PtraceEvent(pid, signal, event)))).comes_to(
                turn.cmds,
                turn.step,
            )
            &&& turn.step == Step::<SvState, Option<i32>>::Ask(SvState { mode: next.mode, ..sv })
            &&& signal == Signal::Segv ==> turn.cmds.len() == 0 && next.asks() == Query::FaultAddr(
                pid,
            )
            &&& signal == Signal::Trap ==> turn.cmds.len() == 0 && next.asks() == Query::TryGetRegs(
                pid,
            )
            &&& signal != Signal::Segv && signal != Signal::Trap ==> {
                &&& turn.cmds =~= seq![
                    Command::<MemRecord>::Note(Note::UnexpectedSignal(signal)),
                ]
                &&& next.asks() == Query::TrySyscall(pid)
                &&& next.next(Reply::Success(went)).comes_to(
                    if went {
                        seq![]
                    } else {
                        seq![Command::Raise(pid, Signal::Cont)]
                    },
                    Step::Ask(sv),
                )
            }
            &&& called.comes_to(
                seq![],
                Step::Ask(SvState { mode: SvMode::Entering(pid), ..sv }),
            )
        }),
{
}

/// Outside of calls, signals are told and passed along to the thread that they stopped.
/// Nothing else comes of a stop or a system call then, nor of anything else but a death: the
/// loop goes on to look for requests.
pub proof fn law_stops_outside_of_calls(sv: SvState, status: WaitStatus)
    requires
        idle(sv),
        !sv.listener.attached,
        !(status is Exited),
        !(status is Signaled),
    ensures
        sv.next(Reply::Status(Some(status))).comes_to(
            match status {
                WaitStatus::Stopped(pid, signal) => seq![
                    Command::Note(Note::IgnoringStop(signal)),
                    Command::Raise(pid, signal),
                ],
                WaitStatus::PtraceEvent(pid, signal, _) => seq![
                    Command::Note(Note::IgnoringEvent(signal)),
                    Command::Raise(pid, signal),
                ],
                _ => seq![],
            },
            Step::Ask(
                SvState { listener: ChildListener { receiving: true, ..sv.listener }, ..sv },
            ),
        ),
{
}

/// When nothing is to be reported the loop looks for requests, and when there is none of these
/// either it yields and begins anew. A return code that the child asks for is remembered.
pub proof fn law_loop_takes_turns(sv: SvState, code: i32, status: WaitStatus)
    requires
        sv.mode is Listening,
        status is StillAlive || status is Continued,
    ensures
        ({
            let polling = SvState {
                listener: ChildListener { receiving: false, ..sv.listener },
                ..sv
            };
            let receiving = SvState {
                listener: ChildListener { receiving: true, ..sv.listener },
                ..sv
            };
            &&& polling.asks() == Query::Poll
            &&& polling.next(Reply::Status(Some(status))).comes_to(seq![], Step::Ask(receiving))
            &&& receiving.asks() == Query::Recv
            &&& receiving.next(Reply::Request(None)).comes_to(
                seq![Command::Yield],
                Step::Ask(polling),
            )
            &&& receiving.next(
                Reply::Request(Some(TraceRequest::OverrideRetcode(code))),
            ).comes_to(
                seq![Command::Yield],
                Step::Ask(
                    SvState {
                        listener: ChildListener {
                            override_retcode: Some(code),
                            ..polling.listener
                        },
                        ..polling
                    },
                ),
            )
        }),
{
}

/// The loop ends when the child is dead, with the return code that the child asked for, or
/// else with the one that it exited with, or with none if it was killed or is nowhere to be
/// found.
pub proof fn law_loop_ends(sv: SvState, pid: Pid, code: i32, signal: Signal, core: bool)
    requires
        idle(sv),
    ensures
        sv.next(Reply::Status(Some(WaitStatus::Exited(pid, code)))).comes_to(
            seq![],
            Step::Done(
                match sv.listener.override_retcode {
                    Some(over) => Some(over),
                    None => Some(code),
                },
            ),
        ),
        sv.next(Reply::Status(Some(WaitStatus::Signaled(pid, signal, core)))).comes_to(
            seq![],
            Step::Done(sv.listener.override_retcode),
        ),
        sv.next(Reply::Status(None)).comes_to(
            seq![],
            Step::Done(sv.listener.override_retcode),
        ),
{
}

/// What the loop goes on with when a handler is over: it ends if the thread has died, and
/// listens again otherwise.
pub open spec fn goes_on(
    turn: SvTurn,
    result: Result<(), ExecError>,
    cmds: Seq<Command<MemRecord>>,
    sv: SvState,
) -> bool {
    match result {
        Err(ExecError::Died(code)) => turn.comes_to(cmds, Step::Done(code)),
        _ => turn.comes_to(cmds, Step::Ask(SvState { mode: SvMode::Listening, ..sv })),
    }
}

/// While a fault is handled, the loop asks and does just what its handler does, with the pages
/// and the stack of the call. What it logs is put at the end of the record.
pub proof fn law_loop_handles_faults(sv: SvState, reply: Reply<Found>)
    ensures
        sv.mode matches SvMode::Segfault(handler) ==> (sv.ch_stack matches Some(stack) ==> {
            let handled = handler.next::<MemRecord>(sv.env.layout, sv.ch_pages, stack, reply);
            let logged = SvState {
                acc_events: sv.acc_events + handler.logs(sv.env.layout.page_size, reply),
                ..sv
            };
            let turn = sv.next(reply);
            &&& sv.asks() == handler.asks()
            &&& handled.step matches Step::Ask(h) ==> turn.comes_to(
                handled.cmds,
                Step::Ask(SvState { mode: SvMode::Segfault(h), ..logged }),
            )
            &&& handled.step matches Step::Done(result) ==> goes_on(
                turn,
                result,
                handled.cmds,
                logged,
            )
            &&& handled.step is Abort ==> turn.step is Abort
        }),
{
}

/// While a breakpoint is handled, the loop asks and does just what its handler does. What it
/// finds goes on the record of allocations.
pub proof fn law_loop_handles_breakpoints(sv: SvState, reply: Reply<Found>)
    ensures
        sv.mode matches SvMode::Sigtrap(handler) ==> {
            let vals = sv.env.libc_vals;
            let handled = handler.next::<MemRecord, Found>(vals, reply);
            let logged = SvState {
                libc_events: handler.record_after(vals, reply, sv.libc_events),
                ..sv
            };
            let turn = sv.next(reply);
            &&& sv.asks() == handler.asks()
            &&& handled.step matches Step::Ask(h) ==> turn.comes_to(
                handled.cmds,
                Step::Ask(SvState { mode: SvMode::Sigtrap(h), ..logged }),
            )
            &&& handled.step matches Step::Done(result) ==> goes_on(
                turn,
                result,
                handled.cmds,
                logged,
            )
            &&& handled.step is Abort ==> turn.step is Abort
        },
{
}

/// The bytes that are decoded are those of the words that were read, in order, and what comes
/// of it is what Capstone finds in them, unless it fails. Any other reply is taken as it is.
pub proof fn law_what_is_decoded(
    arch: crate::arch::Arch,
    words: Vec<Option<usize>>,
    reply: Reply<Found>,
    settled: Reply<Found>,
)
    ensures
        crate::trace::sv_loop::decodes_to(arch, Reply::Words(words), settled) ==> (
        settled matches Reply::Decoded(found) && match found {
            Ok(ops) => crate::disasm::decoded(
                arch,
                crate::words::bytes_of(words@),
                0x1000,
                1,
            ) == (match ops {
                Some(ops) => Some(ops@),
                None => None,
            }),
            Err(e) => e.arch == arch,
        }),
        !(reply is Words) && crate::trace::sv_loop::decodes_to(arch, reply, settled) ==> settled
            == reply,
{
}

/// What is sent to the child is the whole of the record: nothing of it is hidden or made up.
pub proof fn law_report_is_complete(events: crate::trace::MemEvents)
    ensures
        events@.acc_events == events.acc_events@,
        events@.alloc_cutoff == events.alloc_cutoff,
        events@.libc_events == events.libc_events@,
        events@.mmap_events == events.mmap_events@,
{
}

/// A fault without a stack to use is a fault of the supervisor.
pub proof fn law_no_stack_no_call(sv: SvState, pid: Pid)
    requires
        idle(sv),
        sv.listener.attached,
        sv.ch_stack is None,
    ensures
        sv.next(Reply::Status(Some(WaitStatus::Stopped(pid, Signal::Segv)))).step is Abort,
{
}

/// A supervisor that gives up does nothing more to the child, unless a function has just
/// returned that was intercepted.
pub proof fn law_gives_up_quietly(sv: SvState, reply: Reply<Found>)
    requires
        sv.mode matches SvMode::Sigtrap(handler) ==> handler is GettingRegs || !(
        handler.call().next::<MemRecord, Found>(reply).step is Done),
    ensures
        sv.next(reply).step is Abort ==> sv.next(reply).cmds =~= seq![],
{
}

} // verus!
