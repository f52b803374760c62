//! How the procedures go, from the first question to the last command.
use vstd::prelude::*;

use crate::mempr::MemprLayout;
use crate::regs::UserRegs;
use crate::trace::libc_events::MagicLibcValues;
use crate::trace::segfault::{Found, SegfaultHandler, SegfaultPhase};
use crate::trace::sigtrap::{Intercept, InterceptPhase, SigtrapHandler};
use crate::trace::wait::{WaitForSignal, WaitForSyscall};
use crate::trace::{AccessEvent, ExecError, LibcEvent};
use crate::tracee::{
    Command, Note, Pid, Query, Reply, Signal, Step, Turn, WaitId, WaitStatus,
};

verus! {

/// The status tells that a thread was stopped by this signal.
pub open spec fn stopped_by(status: WaitStatus, signal: Signal) -> bool {
    (status matches WaitStatus::Stopped(_, s) && s == signal) || (
    status matches WaitStatus::PtraceEvent(_, s, _) && s == signal)
}

/// A wait is over as soon as the thread is stopped by the signal that is waited for, and
/// with an error as soon as the thread is dead, with its return code if it exited. Past
/// anything else the thread is let run on, once, and then waited for again.
pub proof fn law_wait_for_signal<E, D>(pid: Pid, signal: Signal, status: WaitStatus, went: bool)
    ensures
        ({
            let wait = WaitForSignal::fresh(pid, signal);
            let turn = wait.next::<E, D>(Reply::Status(Some(status)));
            &&& wait.asks() == Query::Wait(WaitId::Pid(pid))
            &&& wait.next::<E, D>(Reply::Status(None)).comes_to(
                seq![],
                Step::Done(Err(ExecError::Died(None))),
            )
            &&& stopped_by(status, signal) ==> turn.comes_to(seq![], Step::Done(Ok(())))
            &&& status matches WaitStatus::Exited(_, code) ==> turn.comes_to(
                seq![],
                Step::Done(Err(ExecError::Died(Some(code)))),
            )
            &&& status is Signaled ==> turn.comes_to(
                seq![],
                Step::Done(Err(ExecError::Died(None))),
            )
            &&& (status is Stopped || status is PtraceEvent) && !stopped_by(status, signal) ==> {
                &&& turn.cmds == Seq::<Command<E>>::empty()
                &&& turn.step matches Step::Ask(resuming) && {
                    &&& resuming.asks() == Query::TryCont(pid, None)
                    &&& resuming.next::<E, D>(Reply::Success(went)).comes_to(
                        seq![],
                        if went {
                            Step::Ask(wait)
                        } else {
                            Step::Done(Err(ExecError::Died(None)))
                        },
                    )
                }
            }
            &&& status is PtraceSyscall || status is Continued || status is StillAlive
                ==> turn.comes_to(seq![Command::Cont(pid, None)], Step::Ask(wait))
        }),
{
}

/// A wait may begin by letting the thread run, and in no other way.
pub proof fn law_wait_begins<E>(pid: Pid)
    ensures
        WaitForSignal::opening::<E>(pid, true) == seq![Command::<E>::Cont(pid, None)],
        WaitForSignal::opening::<E>(pid, false) == Seq::<Command<E>>::empty(),
{
}

/// A thread that is inside of a system call is waited for until it leaves one, and its
/// registers are taken then. They count only if it is the same system call. A dead
/// thread is reported, with its return code if it exited.
pub proof fn law_wait_for_syscall<D>(
    pid: Pid,
    syscall: isize,
    left: Pid,
    regs: UserRegs,
    status: WaitStatus,
)
    ensures
        ({
            let wait = WaitForSyscall::fresh(pid, syscall);
            let leaving = wait.next::<D>(Reply::Status(Some(WaitStatus::PtraceSyscall(left))));
            &&& wait.asks() == Query::Wait(WaitId::Pid(pid))
            &&& leaving matches Step::Ask(next) && {
                &&& next.asks() == Query::GetRegs(left)
                &&& next.next::<D>(Reply::Regs(regs)) == (if crate::regs::signed(regs.orig_rax)
                    == syscall {
                    Step::<WaitForSyscall, Result<UserRegs, ExecError>>::Done(Ok(regs))
                } else {
                    Step::Abort
                })
            }
            &&& wait.next::<D>(Reply::Status(None)) == Step::<
                WaitForSyscall,
                Result<UserRegs, ExecError>,
            >::Done(Err(ExecError::Died(None)))
            &&& status matches WaitStatus::Exited(_, code) ==> wait.next::<D>(
                Reply::Status(Some(status)),
            ) == Step::<WaitForSyscall, Result<UserRegs, ExecError>>::Done(
                Err(ExecError::Died(Some(code))),
            )
            &&& status is Signaled ==> wait.next::<D>(Reply::Status(Some(status))) == Step::<
                WaitForSyscall,
                Result<UserRegs, ExecError>,
            >::Done(Err(ExecError::Died(None)))
            &&& status is Stopped || status is PtraceEvent ==> wait.next::<D>(
                Reply::Status(Some(status)),
            ) is Abort
        }),
{
}

/// Intercepting a call goes like this, whatever the registers and the code are. The return
/// address is read where the stack pointer points, and the code there is read. Then a
/// breakpoint goes there, the function gets back its own first word, and the thread
/// enters it with the registers it was called with. When it has trapped at the return
/// address, the function is made to trap again, the code is repaired, and the thread runs on
/// from there, with what the function returned in its registers.
pub proof fn law_course_of_interception<E, D>(
    pid: Pid,
    regs: UserRegs,
    fn_addr: usize,
    fn_bytes: usize,
    ret_addr: usize,
    ret_bytes: usize,
    after: UserRegs,
    status: WaitStatus,
)
    requires
        regs.rip >= 1,
        after.rip >= 1,
        stopped_by(status, Signal::Trap),
    ensures
        ({
            let s0 = Intercept::fresh(pid, regs, fn_addr, fn_bytes);
            let t0 = s0.next::<E, D>(Reply::MaybeWord(Some(ret_addr)));
            let s1 = t0.step->Ask_0;
            let t1 = s1.next::<E, D>(Reply::Word(ret_bytes));
            let s2 = t1.step->Ask_0;
            let t2 = s2.next::<E, D>(Reply::Status(Some(status)));
            let s3 = t2.step->Ask_0;
            let t3 = s3.next::<E, D>(Reply::Regs(after));
            &&& s0.asks() == Query::TryRead(pid, regs.rsp)
            &&& s0.next::<E, D>(Reply::MaybeWord(None)).comes_to(
                seq![],
                Step::Done(Err(ExecError::Shrug)),
            )
            &&& t0.cmds == Seq::<Command<E>>::empty()
            &&& t0.step is Ask
            &&& s1.asks() == Query::Read(pid, ret_addr)
            &&& t1.cmds == seq![
                Command::<E>::Write(pid, ret_addr, 0xCC),
                Command::<E>::Write(pid, fn_addr, fn_bytes),
                Command::<E>::SetRegs(pid, UserRegs { rip: (regs.rip - 1) as usize, ..regs }),
                Command::<E>::Cont(pid, None),
            ]
            &&& t1.step is Ask
            &&& s2.asks() == Query::Wait(WaitId::Pid(pid))
            &&& t2.cmds == Seq::<Command<E>>::empty()
            &&& t2.step is Ask
            &&& s3.asks() == Query::GetRegs(pid)
            &&& t3.cmds == seq![
                Command::<E>::Write(pid, fn_addr, 0xCC),
                Command::<E>::Write(pid, ret_addr, ret_bytes),
                Command::<E>::SetRegs(pid, UserRegs { rip: (after.rip - 1) as usize, ..after }),
                Command::<E>::Syscall(pid),
            ]
            &&& t3.step matches Step::Done(Ok(value)) && value == (if after.rax <= isize::MAX {
                after.rax as int
            } else {
                after.rax - (usize::MAX + 1)
            })
        }),
{
    let s0 = Intercept::fresh(pid, regs, fn_addr, fn_bytes);
    let t0 = s0.next::<E, D>(Reply::MaybeWord(Some(ret_addr)));
    let s1 = t0.step->Ask_0;
    let t1 = s1.next::<E, D>(Reply::Word(ret_bytes));
    assert(t1.cmds =~= seq![
        Command::<E>::Write(pid, ret_addr, 0xCC),
        Command::<E>::Write(pid, fn_addr, fn_bytes),
        Command::<E>::SetRegs(pid, UserRegs { rip: (regs.rip - 1) as usize, ..regs }),
        Command::<E>::Cont(pid, None),
    ]);
}

/// While the function runs, what the thread is waited for changes nothing else: the
/// interception goes on where it was, and is over if the thread dies.
pub proof fn law_interception_is_patient<E, D>(
    call: Intercept,
    ret_addr: usize,
    ret_bytes: usize,
    wait: WaitForSignal,
    reply: Reply<D>,
)
    ensures
        ({
            let running = Intercept {
                phase: InterceptPhase::Returning { ret_addr, ret_bytes, wait },
                ..call
            };
            let waited = wait.next::<E, D>(reply);
            let turn = running.next::<E, D>(reply);
            &&& running.asks() == wait.asks()
            &&& waited.step matches Step::Ask(w) ==> turn.comes_to(
                waited.cmds,
                Step::Ask(
                    Intercept {
                        phase: InterceptPhase::Returning { ret_addr, ret_bytes, wait: w },
                        ..call
                    },
                ),
            )
            &&& waited.step matches Step::Done(Err(e)) ==> turn.comes_to(
                waited.cmds,
                Step::Done(Err(e)),
            )
        }),
{
}

/// What handling a breakpoint comes to.
pub ghost struct HeapRun<E> {
    pub turn: Turn<E, SigtrapHandler, Result<(), ExecError>>,
    /// The record of allocations after it.
    pub events: Seq<LibcEvent>,
}

impl SigtrapHandler {
    /// What a series of replies leads to.
    pub open spec fn run<E, D>(
        self,
        vals: MagicLibcValues,
        replies: Seq<Reply<D>>,
        events: Seq<LibcEvent>,
    ) -> HeapRun<E>
        decreases replies.len(),
    {
        if replies.len() == 0 {
            HeapRun { turn: Turn { cmds: seq![], step: Step::Ask(self) }, events }
        } else {
            let turn = self.next::<E, D>(vals, replies[0]);
            let after = self.record_after::<D>(vals, replies[0], events);
            match turn.step {
                Step::Ask(next) => {
                    let rest = next.run::<E, D>(vals, replies.skip(1), after);
                    HeapRun {
                        turn: Turn { cmds: turn.cmds + rest.turn.cmds, step: rest.turn.step },
                        events: rest.events,
                    }
                },
                _ => HeapRun { turn, events: after },
            }
        }
    }
}

/// A breakpoint at the start of one of the functions is taken for a call of that function.
/// What follows is the interception of that call.
pub proof fn law_trap_finds_the_function<E, D>(
    pid: Pid,
    vals: MagicLibcValues,
    regs: UserRegs,
)
    requires
        vals.apart(),
        regs.rip >= 1,
    ensures
        ({
            let start = SigtrapHandler::GettingRegs(pid);
            let turn = start.next::<E, D>(vals, Reply::MaybeRegs(Some(regs)));
            &&& start.asks() == Query::TryGetRegs(pid)
            &&& start.next::<E, D>(vals, Reply::MaybeRegs(None)).comes_to(
                seq![],
                Step::Done(Err(ExecError::Shrug)),
            )
            &&& regs.rip - 1 == vals.malloc_addr ==> turn.cmds == Seq::<Command<E>>::empty() && (
            turn.step matches Step::Ask(next) && next.call() == Intercept::fresh(
                pid,
                regs,
                vals.malloc_addr,
                vals.malloc_bytes,
            ))
            &&& regs.rip - 1 == vals.realloc_addr ==> turn.cmds == Seq::<Command<E>>::empty() && (
            turn.step matches Step::Ask(next) && next.call() == Intercept::fresh(
                pid,
                regs,
                vals.realloc_addr,
                vals.realloc_bytes,
            ))
            &&& regs.rip - 1 == vals.free_addr ==> turn.cmds == Seq::<Command<E>>::empty() && (
            turn.step matches Step::Ask(next) && next.call() == Intercept::fresh(
                pid,
                regs,
                vals.free_addr,
                vals.free_bytes,
            ))
            &&& regs.rip - 1 != vals.malloc_addr && regs.rip - 1 != vals.realloc_addr && regs.rip
                - 1 != vals.free_addr ==> turn.comes_to(
                seq![
                    Command::Note(Note::UnexpectedTrap((regs.rip - 1) as usize)),
                    Command::Syscall(pid),
                ],
                Step::Done(Ok(())),
            )
        }),
{
}

/// Once a call is being intercepted, the handler asks and commands just what the interception
/// does, and is over when that is.
pub proof fn law_handler_intercepts<E, D>(
    handler: SigtrapHandler,
    vals: MagicLibcValues,
    reply: Reply<D>,
)
    requires
        !(handler is GettingRegs),
    ensures
        ({
            let turn = handler.next::<E, D>(vals, reply);
            let called = handler.call().next::<E, D>(reply);
            &&& handler.asks() == handler.call().asks()
            &&& turn.cmds == called.cmds
            &&& called.step matches Step::Ask(call) ==> (turn.step matches Step::Ask(next)
                && !(next is GettingRegs) && next.call() == call)
            &&& called.step matches Step::Done(Err(e)) ==> turn.step == Step::<
                SigtrapHandler,
                Result<(), ExecError>,
            >::Done(Err(e))
            &&& called.step matches Step::Done(Ok(ptr)) ==> turn.step == (if ptr > 0 && ptr + (
            match handler {
                SigtrapHandler::Malloc { size, .. } => size as int,
                SigtrapHandler::Realloc { size, .. } => size as int,
                _ => 0,
            }) > usize::MAX {
                Step::<SigtrapHandler, Result<(), ExecError>>::Abort
            } else {
                Step::Done(Ok(()))
            })
        }),
{
}

/// What a call that was intercepted does to the record, if it was entered with `arg1` and
/// `arg2`, and `retval` was in the register for return values at its end.
pub open spec fn effect(
    handler: SigtrapHandler,
    events: Seq<LibcEvent>,
    retval: usize,
    after: Seq<LibcEvent>,
) -> bool {
    let got = 0 < retval <= isize::MAX;
    match handler {
        SigtrapHandler::Malloc { size, .. } => if got {
            &&& after.len() == events.len() + 1
            &&& after.drop_last() == events
            &&& after.last() matches LibcEvent::Malloc(range) && range.start == retval && range.end
                == retval + size
        } else {
            after == events
        },
        SigtrapHandler::Realloc { old_ptr, size, .. } => if got {
            &&& after.len() > 0
            &&& after.drop_last() == crate::trace::libc_events::after_free(events, old_ptr)
            &&& after.last() matches LibcEvent::Malloc(range) && range.start == retval && range.end
                == retval + size
        } else if retval == 0 && size == 0 {
            after == crate::trace::libc_events::after_free(events, old_ptr)
        } else {
            after == events
        },
        _ => after == events,
    }
}

proof fn lemma_heap_run<E, D>(
    handler: SigtrapHandler,
    vals: MagicLibcValues,
    replies: Seq<Reply<D>>,
    events: Seq<LibcEvent>,
)
    requires
        !(handler is GettingRegs),
        replies.len() > 0,
        handler.run::<E, D>(vals, replies.drop_last(), events).turn.step is Ask,
        handler.run::<E, D>(vals, replies, events).turn.step matches Step::Done(Ok(_)),
    ensures
        replies.last() matches Reply::Regs(regs) && effect(
            handler,
            events,
            regs.rax,
            handler.run::<E, D>(vals, replies, events).events,
        ),
    decreases replies.len(),
{
    let turn = handler.next::<E, D>(vals, replies[0]);
    let called = handler.call().next::<E, D>(replies[0]);
    let after = handler.record_after::<D>(vals, replies[0], events);
    assert(called.step == handler.call().next::<(), D>(replies[0]).step);
    if replies.len() == 1 {
        assert(replies.drop_last().len() == 0);
        assert(replies.last() == replies[0]);
        if let Reply::Regs(regs) = replies[0] {
            if 0 < regs.rax <= isize::MAX {
                let freed = match handler {
                    SigtrapHandler::Realloc { old_ptr, .. } => {
                        crate::trace::libc_events::after_free(events, old_ptr)
                    },
                    _ => events,
                };
                assert(after.drop_last() =~= freed || handler is Free);
            }
        }
    } else {
        let most = replies.drop_last();
        assert(most[0] == replies[0]);
        assert(most.skip(1) =~= replies.skip(1).drop_last());
        if let Step::Ask(next) = turn.step {
            assert(after == events);
            lemma_heap_run::<E, D>(next, vals, replies.skip(1), events);
            assert(replies.skip(1).last() == replies.last());
        }
    }
}

/// However long it takes, a `malloc` for some bytes that returns a pointer is put on record as
/// an allocation of that many bytes there, and one that returns none is not put on record at
/// all.
pub proof fn law_malloc_is_recorded<E, D>(
    pid: Pid,
    vals: MagicLibcValues,
    regs: UserRegs,
    replies: Seq<Reply<D>>,
    events: Seq<LibcEvent>,
)
    requires
        vals.apart(),
        regs.rip >= 1,
        regs.rip - 1 == vals.malloc_addr,
        replies.len() > 0,
        ({
            let all = seq![Reply::<D>::MaybeRegs(Some(regs))] + replies;
            let start = SigtrapHandler::GettingRegs(pid);
            &&& start.run::<E, D>(vals, all.drop_last(), events).turn.step is Ask
            &&& start.run::<E, D>(vals, all, events).turn.step matches Step::Done(Ok(_))
        }),
    ensures
        ({
            let all = seq![Reply::<D>::MaybeRegs(Some(regs))] + replies;
            let after = SigtrapHandler::GettingRegs(pid).run::<E, D>(vals, all, events).events;
            replies.last() matches Reply::Regs(back) && if 0 < back.rax <= isize::MAX {
                &&& after.len() == events.len() + 1
                &&& after.drop_last() == events
                &&& after.last() matches LibcEvent::Malloc(range) && range.start == back.rax
                    && range.end == back.rax + regs.rdi
            } else {
                after == events
            }
        }),
{
    let all = seq![Reply::<D>::MaybeRegs(Some(regs))] + replies;
    let start = SigtrapHandler::GettingRegs(pid);
    let next = start.next::<E, D>(vals, all[0]).step->Ask_0;
    assert(all.skip(1) =~= replies);
    assert(all.drop_last().skip(1) =~= replies.drop_last());
    assert(all.drop_last()[0] == all[0]);
    lemma_heap_run::<E, D>(next, vals, replies, events);
}

/// However long it takes, a `realloc` of a pointer to some bytes that returns a pointer is put
/// on record as a release of the old one, followed by an allocation of that many bytes at the
/// new one, be it the same place or another. One that returns no pointer leaves the record as
/// it is, but for one for no bytes that returned zero, which is a release.
pub proof fn law_realloc_is_recorded<E, D>(
    pid: Pid,
    vals: MagicLibcValues,
    regs: UserRegs,
    replies: Seq<Reply<D>>,
    events: Seq<LibcEvent>,
    i: int,
)
    requires
        vals.apart(),
        regs.rip >= 1,
        regs.rip - 1 == vals.realloc_addr,
        replies.len() > 0,
        ({
            let all = seq![Reply::<D>::MaybeRegs(Some(regs))] + replies;
            let start = SigtrapHandler::GettingRegs(pid);
            &&& start.run::<E, D>(vals, all.drop_last(), events).turn.step is Ask
            &&& start.run::<E, D>(vals, all, events).turn.step matches Step::Done(Ok(_))
        }),
    ensures
        ({
            let all = seq![Reply::<D>::MaybeRegs(Some(regs))] + replies;
            let after = SigtrapHandler::GettingRegs(pid).run::<E, D>(vals, all, events).events;
            let held = crate::trace::libc_events::first_with(events, regs.rdi, i);
            let unheld = forall|j: int|
                !#[trigger] crate::trace::libc_events::first_with(events, regs.rdi, j);
            replies.last() matches Reply::Regs(back) && if 0 < back.rax <= isize::MAX {
                &&& after.len() > 0
                &&& held ==> after.drop_last() == events.remove(i)
                &&& unheld ==> after.drop_last() == events.push(LibcEvent::Free(regs.rdi))
                &&& after.last() matches LibcEvent::Malloc(range) && range.start == back.rax
                    && range.end == back.rax + regs.rsi
            } else if back.rax == 0 && regs.rsi == 0 {
                &&& held ==> after == events.remove(i)
                &&& unheld ==> after == events.push(LibcEvent::Free(regs.rdi))
            } else {
                after == events
            }
        }),
{
    let all = seq![Reply::<D>::MaybeRegs(Some(regs))] + replies;
    let start = SigtrapHandler::GettingRegs(pid);
    let next = start.next::<E, D>(vals, all[0]).step->Ask_0;
    assert(all.skip(1) =~= replies);
    assert(all.drop_last().skip(1) =~= replies.drop_last());
    assert(all.drop_last()[0] == all[0]);
    lemma_heap_run::<E, D>(next, vals, replies, events);
    crate::trace::libc_events::law_free_forgets_the_first(events, regs.rdi, i);
}

/// However long it takes, a `free` of a pointer forgets the first allocation on record that
/// holds it, or puts the release on record if there is none.
pub proof fn law_free_is_recorded<E, D>(
    pid: Pid,
    vals: MagicLibcValues,
    regs: UserRegs,
    replies: Seq<Reply<D>>,
    events: Seq<LibcEvent>,
    i: int,
)
    requires
        vals.apart(),
        regs.rip >= 1,
        regs.rip - 1 == vals.free_addr,
        replies.len() > 0,
        ({
            let all = seq![Reply::<D>::MaybeRegs(Some(regs))] + replies;
            let start = SigtrapHandler::GettingRegs(pid);
            &&& start.run::<E, D>(vals, all.drop_last(), events).turn.step is Ask
            &&& start.run::<E, D>(vals, all, events).turn.step matches Step::Done(Ok(_))
        }),
    ensures
        ({
            let all = seq![Reply::<D>::MaybeRegs(Some(regs))] + replies;
            let after = SigtrapHandler::GettingRegs(pid).run::<E, D>(vals, all, events).events;
            &&& crate::trace::libc_events::first_with(events, regs.rdi, i) ==> after
                == events.remove(i)
            &&& (forall|j: int|
                !#[trigger] crate::trace::libc_events::first_with(events, regs.rdi, j)) ==> after
                == events.push(LibcEvent::Free(regs.rdi))
        }),
{
    let all = seq![Reply::<D>::MaybeRegs(Some(regs))] + replies;
    let start = SigtrapHandler::GettingRegs(pid);
    let next = start.next::<E, D>(vals, all[0]).step->Ask_0;
    let freed = start.record_after::<D>(vals, all[0], events);
    assert(all.skip(1) =~= replies);
    assert(all.drop_last().skip(1) =~= replies.drop_last());
    assert(all.drop_last()[0] == all[0]);
    lemma_heap_run::<E, D>(next, vals, replies, freed);
    crate::trace::libc_events::law_free_forgets_the_first(events, regs.rdi, i);
}

/// What the record holds changes with the entry of `free` and with the end of a call that has
/// returned, and at no other time.
pub proof fn law_record_waits_for_the_end<D>(
    handler: SigtrapHandler,
    vals: MagicLibcValues,
    reply: Reply<D>,
    events: Seq<LibcEvent>,
)
    ensures
        !(handler is GettingRegs) && !(handler.call().next::<(), D>(reply).step matches Step::Done(
            Ok(_),
        )) ==> handler.record_after::<D>(vals, reply, events) == events,
        handler is GettingRegs && !(reply matches Reply::MaybeRegs(Some(regs)) && regs.rip
            == vals.free_addr + 1) ==> handler.record_after::<D>(vals, reply, events) == events,
{
}

/// A fault on one of our pages is handled like this, whatever the registers are. The page that
/// was touched, and the next one too if it is ours, are opened by sending the thread into the
/// routine for it, on the spare stack. Then it executes the one instruction that faulted, with
/// the registers that it faulted with. The instruction is read from where it was up to where
/// the thread is now, and goes on record. The pages are closed by sending the thread into the
/// other routine, and it runs on from where it was after the instruction.
pub proof fn law_course_of_a_fault<E>(
    pid: Pid,
    layout: MemprLayout,
    pages: Seq<usize>,
    ch_stack: usize,
    j: int,
    addr: usize,
    pg: usize,
    regs: UserRegs,
    after: UserRegs,
    stop: WaitStatus,
    stepped: WaitStatus,
    found: Found,
    events: Seq<AccessEvent>,
)
    requires
        layout.page_size > 0,
        0 <= j < pages.len(),
        pages[j] <= addr < pages[j] + layout.page_size,
        pg as int % layout.page_size as int == 0,
        pg <= addr < pg + layout.page_size,
        pg <= isize::MAX,
        pg + layout.page_size <= usize::MAX,
        ch_stack + 512 <= usize::MAX,
        regs.rip <= after.rip,
        stopped_by(stop, Signal::Stop),
        crate::trace::access::record_of(crate::disasm::outcome(found), addr, layout.page_size)
            == Some(events),
    ensures
        ({
            let spare = (ch_stack + 512) as usize;
            let s0 = SegfaultHandler { pid, phase: SegfaultPhase::Locating };
            let t0 = s0.next::<E>(layout, pages, ch_stack, Reply::MaybeAddr(Some(addr)));
            let s1 = t0.step->Ask_0;
            let t1 = s1.next::<E>(layout, pages, ch_stack, Reply::Regs(regs));
            let s2 = t1.step->Ask_0;
            let t2 = s2.next::<E>(layout, pages, ch_stack, Reply::Status(Some(stop)));
            let s3 = t2.step->Ask_0;
            let t3 = s3.next::<E>(layout, pages, ch_stack, Reply::Status(Some(stepped)));
            let s4 = t3.step->Ask_0;
            let t4 = s4.next::<E>(layout, pages, ch_stack, Reply::Regs(after));
            let s5 = t4.step->Ask_0;
            let t5 = s5.next::<E>(layout, pages, ch_stack, Reply::Decoded(found));
            let s6 = t5.step->Ask_0;
            let t6 = s6.next::<E>(layout, pages, ch_stack, Reply::Status(Some(stop)));
            &&& s0.asks() == Query::FaultAddr(pid)
            &&& t0.comes_to(seq![], Step::Ask(s1))
            &&& s1.asks() == Query::GetRegs(pid)
            &&& t1.comes_to(
                seq![
                    Command::Write(pid, layout.page_addr_at, pg),
                    Command::Write(
                        pid,
                        layout.page_count_at,
                        if pages.contains((pg + layout.page_size) as usize) {
                            2
                        } else {
                            1
                        },
                    ),
                    Command::SetRegs(pid, UserRegs { rip: layout.off, rsp: spare, ..regs }),
                    Command::Cont(pid, None),
                ],
                Step::Ask(s2),
            )
            &&& s2.asks() == Query::Wait(WaitId::Pid(pid))
            &&& t2.comes_to(
                seq![Command::SetRegs(pid, regs), Command::Step(pid)],
                Step::Ask(s3),
            )
            &&& s3.asks() == Query::Wait(WaitId::Pid(pid))
            &&& t3.comes_to(seq![], Step::Ask(s4))
            &&& s4.asks() == Query::GetRegs(pid)
            &&& t4.comes_to(seq![], Step::Ask(s5))
            &&& s5.asks() matches Query::ReadWords { pid: p, addr: a, stride, count, lenient } && {
                &&& p == pid
                &&& a == regs.rip
                &&& stride == 8
                &&& !lenient
                &&& after.rip - regs.rip <= 8 * count < after.rip - regs.rip + 8
            }
            &&& t5.comes_to(
                seq![
                    Command::SetRegs(pid, UserRegs { rip: layout.on, rsp: spare, ..after }),
                    Command::Cont(pid, None),
                ],
                Step::Ask(s6),
            )
            &&& s6.asks() == Query::Wait(WaitId::Pid(pid))
            &&& t6.comes_to(
                seq![Command::SetRegs(pid, after), Command::Syscall(pid)],
                Step::Done(Ok(())),
            )
            &&& s5.logs(layout.page_size, Reply::Decoded(found)) == events
        }),
{
    crate::pages::law_owned(pages, layout.page_size, addr, j);
    crate::pages::law_page_base(addr, layout.page_size, pg as int);
    let s0 = SegfaultHandler { pid, phase: SegfaultPhase::Locating };
    let t0 = s0.next::<E>(layout, pages, ch_stack, Reply::MaybeAddr(Some(addr)));
    let s1 = t0.step->Ask_0;
    let t1 = s1.next::<E>(layout, pages, ch_stack, Reply::Regs(regs));
    assert(t1.step is Ask);
    let s2 = t1.step->Ask_0;
    let t2 = s2.next::<E>(layout, pages, ch_stack, Reply::Status(Some(stop)));
    assert(t2.step is Ask);
}

/// Nothing goes on record but the accesses of the instruction that was read.
pub proof fn law_only_the_instruction_is_logged(
    handler: SegfaultHandler,
    page_size: usize,
    reply: Reply<Found>,
)
    requires
        !(handler.phase is Reading && reply is Decoded),
    ensures
        handler.logs(page_size, reply) == Seq::<AccessEvent>::empty(),
{
}

/// A fault on memory that is not ours is told, with all of the pages that are, and ends the
/// thread. If nobody can tell where the fault was, it is passed over.
pub proof fn law_foreign_fault_kills<E>(
    pid: Pid,
    layout: MemprLayout,
    pages: Seq<usize>,
    ch_stack: usize,
    addr: usize,
    k: int,
)
    requires
        forall|j: int|
            0 <= j < pages.len() ==> !(#[trigger] pages[j] <= addr < pages[j] + layout.page_size),
    ensures
        ({
            let s0 = SegfaultHandler { pid, phase: SegfaultPhase::Locating };
            let t0 = s0.next::<E>(layout, pages, ch_stack, Reply::MaybeAddr(Some(addr)));
            let n = pages.len() as int;
            &&& t0.step == Step::<SegfaultHandler, Result<(), ExecError>>::Done(
                Err(ExecError::Died(None)),
            )
            &&& t0.cmds.len() == n + 3
            &&& t0.cmds[0] == Command::<E>::Note(Note::ForeignAccess(addr))
            &&& 0 <= k < n ==> t0.cmds[1 + k] == Command::<E>::Note(Note::ExpectedPage(pages[k]))
            &&& t0.cmds[1 + n] == Command::<E>::Note(Note::RegisterDump(pid))
            &&& t0.cmds[2 + n] == Command::<E>::Kill(pid)
            &&& s0.next::<E>(layout, pages, ch_stack, Reply::MaybeAddr(None)).comes_to(
                seq![],
                Step::Done(Err(ExecError::Shrug)),
            )
        }),
{
    crate::pages::law_owned(pages, layout.page_size, addr, k);
}

/// While the thread is inside of a routine, what it is waited for changes nothing else: the
/// handler goes on where it was. A thread that dies there, or while it executes the
/// instruction, is given up.
pub proof fn law_fault_handler_is_patient<E>(
    handler: SegfaultHandler,
    layout: MemprLayout,
    pages: Seq<usize>,
    ch_stack: usize,
    reply: Reply<Found>,
)
    ensures
        ({
            let turn = handler.next::<E>(layout, pages, ch_stack, reply);
            let waiting = match handler.phase {
                SegfaultPhase::Unprotecting { wait, .. } => Some(wait),
                SegfaultPhase::Reprotecting { wait, .. } => Some(wait),
                _ => None,
            };
            &&& waiting matches Some(wait) ==> {
                let waited = wait.next::<E, Found>(reply);
                &&& waited.step matches Step::Ask(w) ==> turn.comes_to(
                    waited.cmds,
                    Step::Ask(
                        SegfaultHandler {
                            pid: handler.pid,
                            phase: match handler.phase {
                                SegfaultPhase::Unprotecting { fault, .. } =>
                                    SegfaultPhase::Unprotecting { fault, wait: w },
                                SegfaultPhase::Reprotecting { regs, .. } =>
                                    SegfaultPhase::Reprotecting { regs, wait: w },
                                other => other,
                            },
                        },
                    ),
                )
                &&& waited.step matches Step::Done(Err(e)) ==> turn.comes_to(
                    waited.cmds,
                    Step::Done(Err(e)),
                )
            }
            &&& handler.phase is Stepping && reply == Reply::<Found>::Status(None)
                ==> turn.comes_to(seq![], Step::Done(Err(ExecError::Died(None))))
        }),
{
}

/// The supervisor gives up on what no processor does: a breakpoint that was executed at no
/// address.
pub proof fn law_no_breakpoint_before_the_first_address<E, D>(
    pid: Pid,
    vals: MagicLibcValues,
    call: Intercept,
    regs: UserRegs,
    events: Seq<LibcEvent>,
)
    requires
        regs.rip == 0,
    ensures
        ({
            let start = SigtrapHandler::GettingRegs(pid);
            let trapped = Reply::<D>::MaybeRegs(Some(regs));
            &&& start.next::<E, D>(vals, trapped).step is Abort
            &&& start.record_after::<D>(vals, trapped, events) == events
            &&& call.phase is Returned ==> call.next::<E, D>(Reply::Regs(regs)).step is Abort
        }),
{
}

/// The supervisor gives up on a fault whose page, or the one behind it, is out of reach, on one
/// that there is no room on the spare stack for, on an instruction that leads back, and on one
/// whose accesses cannot be put on record.
pub proof fn law_faults_out_of_reach<E>(
    pid: Pid,
    layout: MemprLayout,
    pages: Seq<usize>,
    ch_stack: usize,
    j: int,
    addr: usize,
    pg: usize,
    stack_ptr: usize,
    regs: UserRegs,
    after: UserRegs,
    found: Found,
)
    requires
        layout.page_size > 0,
        pg as int % layout.page_size as int == 0,
        pg <= addr < pg + layout.page_size,
    ensures
        ({
            let fault = crate::trace::segfault::Fault { addr, stack_ptr, regs };
            let locating = SegfaultHandler { pid, phase: SegfaultPhase::Locating };
            let getting = SegfaultHandler {
                pid,
                phase: SegfaultPhase::GettingRegs { addr, stack_ptr },
            };
            let stepped = SegfaultHandler { pid, phase: SegfaultPhase::Stepped { fault } };
            let reading = SegfaultHandler {
                pid,
                phase: SegfaultPhase::Reading { fault, regs: after },
            };
            let located = Reply::<Found>::MaybeAddr(Some(addr));
            &&& 0 <= j < pages.len() && pages[j] <= addr < pages[j] + layout.page_size && ch_stack
                + 512 > usize::MAX ==> locating.next::<E>(
                layout,
                pages,
                ch_stack,
                located,
            ).step is Abort
            &&& getting.next::<E>(layout, pages, ch_stack, Reply::Regs(regs)).step is Abort <==> pg
                > isize::MAX || pg + layout.page_size > usize::MAX
            &&& stepped.next::<E>(layout, pages, ch_stack, Reply::Regs(after)).step is Abort <==> after.rip
                < regs.rip
            &&& reading.next::<E>(layout, pages, ch_stack, Reply::Decoded(found)).step is Abort <==> (
            crate::trace::access::record_of(
                crate::disasm::outcome(found),
                addr,
                layout.page_size,
            ) is None)
        }),
{
    crate::pages::law_owned(pages, layout.page_size, addr, j);
    crate::pages::law_page_base(addr, layout.page_size, pg as int);
}

} // verus!
