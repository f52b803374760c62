//! How a fault goes, from the first question to the last command.
use vstd::prelude::*;

use crate::native_lib::access::Found;
use crate::native_lib::segfault::{FaultEnv, PageSpan, SegfaultPhase, SegfaultState};
use crate::native_lib::wait::WaitForSignal;
use crate::native_lib::{AccessEvent, ExecEnd};
use crate::regs::UserRegs;
use crate::tracee::{Command, Note, Pid, Query, Reply, Signal, Step, WaitId, WaitStatus};

verus! {

/// The address lies in one of the pages.
pub open spec fn lies_in(pages: Seq<usize>, page_size: usize, addr: usize) -> bool {
    exists|j: int| 0 <= j < pages.len() && #[trigger] pages[j] <= addr < pages[j] + page_size
}

/// The first address of an access.
pub open spec fn start_of(event: AccessEvent) -> usize {
    match event {
        AccessEvent::Read(range) => range.addr,
        AccessEvent::Write(range, _) => range.addr,
    }
}

/// Of some accesses, those count that start on one of the pages. Each is judged by itself,
/// and they stay in order.
pub proof fn law_which_accesses_count(
    events: Seq<AccessEvent>,
    pages: Seq<usize>,
    page_size: usize,
    event: AccessEvent,
)
    ensures
        crate::native_lib::segfault::ours(seq![], pages, page_size) =~= seq![],
        crate::native_lib::segfault::ours(events.push(event), pages, page_size) == if lies_in(
            pages,
            page_size,
            start_of(event),
        ) {
            crate::native_lib::segfault::ours(events, pages, page_size).push(event)
        } else {
            crate::native_lib::segfault::ours(events, pages, page_size)
        },
{
    let pred = crate::native_lib::segfault::is_ours(pages, page_size);
    let none = Seq::<AccessEvent>::empty();
    assert(crate::native_lib::segfault::ours(none, pages, page_size) =~= none) by {
        reveal(Seq::filter);
    }
    let more = events.push(event);
    let n = events.len() as int;
    crate::seqs::lemma_filter_step(more, n, pred);
    assert(more.take(n + 1) =~= more);
    assert(more.take(n) =~= events);
    let addr = start_of(event);
    if crate::pages::owned(pages, page_size, addr) {
        crate::pages::law_owned(pages, page_size, addr, 0);
        assert(lies_in(pages, page_size, addr));
    }
    if lies_in(pages, page_size, addr) {
        let j = choose|j: int|
            0 <= j < pages.len() && #[trigger] pages[j] <= addr < pages[j] + page_size;
        crate::pages::law_owned(pages, page_size, addr, j);
    }
}

/// The commands send a thread into a routine, to deal with so many pages from the one at `pg`
/// on. The whole of the spare stack is filled with zeros first, word by word. The thread goes
/// there with the stack pointer in the middle of that stack, and with no other register
/// changed.
pub open spec fn sends_into<E>(
    cmds: Seq<Command<E>>,
    pid: Pid,
    env: FaultEnv,
    ch_stack: usize,
    pg: int,
    count: int,
    routine: usize,
    regs: UserRegs,
) -> bool {
    let n = cmds.len() - 4;
    &&& n >= 0
    &&& env.stack_size <= 8 * n < env.stack_size + 8
    &&& forall|k: int|
        0 <= k < n ==> (#[trigger] cmds[k] matches Command::Write(p, at, word) && p == pid && at
            == ch_stack + 8 * k && word == 0)
    &&& cmds[n] matches Command::Write(p, at, word) && p == pid && at == env.layout.page_addr_at
        && word == pg
    &&& cmds[n + 1] matches Command::Write(p, at, word) && p == pid && at
        == env.layout.page_count_at && word == count
    &&& cmds[n + 2] matches Command::SetRegs(p, r) && {
        &&& p == pid
        &&& r.rip == routine
        &&& r.rsp == ch_stack + env.stack_size / 2
        &&& r == (UserRegs { rip: r.rip, rsp: r.rsp, ..regs })
    }
    &&& cmds[n + 3] == Command::<E>::Cont(pid, None)
}

/// The page is the one that holds the address.
pub open spec fn page_of_addr(pg: int, addr: usize, page_size: usize) -> bool {
    pg % page_size as int == 0 && pg <= addr < pg + page_size
}

/// The page after the one that an access starts on has an address.
pub open spec fn next_page_exists(event: AccessEvent, page_size: usize) -> bool {
    let addr = start_of(event) as int;
    addr - addr % page_size as int + page_size <= usize::MAX
}

proof fn lemma_entering<E>(
    pid: Pid,
    env: FaultEnv,
    ch_stack: usize,
    span: PageSpan,
    pg: int,
    routine: usize,
    regs: UserRegs,
)
    requires
        env.layout.page_size > 0,
        ch_stack + env.stack_size <= usize::MAX,
        page_of_addr(pg, span.addr, env.layout.page_size),
    ensures
        ({
            let stack_ptr = (ch_stack + env.stack_size / 2) as usize;
            sends_into(
                crate::native_lib::segfault::entering::<E>(
                    pid,
                    env,
                    ch_stack,
                    span,
                    crate::mempr::jump(regs, routine, stack_ptr),
                ),
                pid,
                env,
                ch_stack,
                pg,
                span.count as int,
                routine,
                regs,
            )
        }),
{
    crate::pages::law_page_base(span.addr, env.layout.page_size, pg);
    let zeros = crate::native_lib::segfault::zeroing::<E>(pid, ch_stack, env.stack_size);
    let stack_ptr = (ch_stack + env.stack_size / 2) as usize;
    let cmds = crate::native_lib::segfault::entering::<E>(
        pid,
        env,
        ch_stack,
        span,
        crate::mempr::jump(regs, routine, stack_ptr),
    );
    let n = cmds.len() - 4;
    assert(n == zeros.len());
    assert forall|k: int| 0 <= k < n implies (
    #[trigger] cmds[k] matches Command::Write(p, at, word) && p == pid && at == ch_stack + 8 * k
        && word == 0) by {
        assert(cmds[k] == zeros[k]);
    }
}

/// A fault is handled by first looking at the registers, and then at the instruction, as far
/// as it can be read: two words of it.
pub proof fn law_fault_begins<E>(
    pid: Pid,
    env: FaultEnv,
    pages: Seq<usize>,
    ch_stack: usize,
    regs: UserRegs,
)
    ensures
        ({
            let s0 = SegfaultState { pid, phase: SegfaultPhase::GettingRegs, spans: seq![] };
            let t0 = s0.next::<E>(env, pages, ch_stack, Reply::Regs(regs));
            let s1 = t0.step->Ask_0;
            let fits = ch_stack + env.stack_size / 2 <= usize::MAX && regs.rip + 8 <= usize::MAX;
            &&& s0.asks() == Query::GetRegs(pid)
            &&& s0.fault_regs() is None
            &&& !fits ==> t0.step is Abort
            &&& fits ==> {
                &&& t0.comes_to(seq![], Step::Ask(s1))
                &&& s1.asks() == Query::ReadWords {
                    pid,
                    addr: regs.rip,
                    stride: 8,
                    count: 2,
                    lenient: true,
                }
                &&& s1.fault_regs() == Some(regs)
            }
        }),
{
}

/// Once the accesses of the instruction are known, those to our pages are logged and their
/// pages are opened one after the other: for each the page that it starts on, and also the next
/// if that is ours. An instruction that accesses nothing, or that cannot be told, is a fault of
/// the supervisor.
pub proof fn law_accesses_are_opened<E>(
    pid: Pid,
    env: FaultEnv,
    pages: Seq<usize>,
    ch_stack: usize,
    regs: UserRegs,
    events: Vec<AccessEvent>,
    ours: Seq<AccessEvent>,
    i: int,
    pg: int,
    found: Found,
)
    requires
        env.layout.page_size > 0,
        ch_stack + env.stack_size <= usize::MAX,
        regs.rip + 8 <= usize::MAX,
        ours == crate::native_lib::segfault::ours(events@, pages, env.layout.page_size),
        ours.len() > 0,
        page_of_addr(pg, start_of(ours[0]), env.layout.page_size),
        forall|k: int|
            0 <= k < ours.len() ==> next_page_exists(#[trigger] ours[k], env.layout.page_size),
    ensures
        ({
            let s0 = SegfaultState { pid, phase: SegfaultPhase::GettingRegs, spans: seq![] };
            let s1 = s0.next::<E>(env, pages, ch_stack, Reply::Regs(regs)).step->Ask_0;
            let told = Reply::<Found>::Decoded(Ok(Some(events)));
            let t1 = s1.next::<E>(env, pages, ch_stack, told);
            let s2 = t1.step->Ask_0;
            let size = env.layout.page_size;
            &&& t1.step is Ask
            &&& s1.logs(pages, size, told) == ours
            &&& s2.spans.len() == ours.len()
            &&& 0 <= i < ours.len() ==> s2.spans[i] == (PageSpan {
                addr: start_of(ours[i]),
                count: if exists|j: int|
                    0 <= j < pages.len() && page_of_addr(
                        #[trigger] pages[j] - size,
                        start_of(ours[i]),
                        size,
                    ) {
                    2
                } else {
                    1
                },
            })
            &&& sends_into(
                t1.cmds,
                pid,
                env,
                ch_stack,
                pg,
                s2.spans[0].count as int,
                env.layout.off,
                regs,
            )
            &&& s2 == (SegfaultState {
                pid,
                phase: SegfaultPhase::Unprotecting {
                    stack_ptr: (ch_stack + env.stack_size / 2) as usize,
                    regs,
                    at: 0,
                    wait: WaitForSignal::fresh(Some(pid), Signal::Stop),
                },
                spans: s2.spans,
            })
            &&& crate::native_lib::segfault::accesses(found) is None ==> s1.next::<E>(
                env,
                pages,
                ch_stack,
                Reply::Decoded(found),
            ).step is Abort
            &&& (found matches Ok(Some(none)) && none@.len() == 0) ==> s1.next::<E>(
                env,
                pages,
                ch_stack,
                Reply::Decoded(found),
            ).step is Abort
        }),
{
    let size = env.layout.page_size;
    let s0 = SegfaultState { pid, phase: SegfaultPhase::GettingRegs, spans: seq![] };
    let s1 = s0.next::<E>(env, pages, ch_stack, Reply::Regs(regs)).step->Ask_0;
    let told = Reply::<Found>::Decoded(Ok(Some(events)));
    let t1 = s1.next::<E>(env, pages, ch_stack, told);
    assert(events@.len() > 0) by {
        if events@.len() == 0 {
            assert(events@ =~= seq![]);
            law_which_accesses_count(events@, pages, size, ours[0]);
        }
    }
    let spans = crate::native_lib::segfault::spans_of(ours, pages, size);
    assert forall|k: int| 0 <= k < ours.len() implies crate::native_lib::segfault::spannable(
        #[trigger] ours[k],
        size,
    ) by {
        assert(next_page_exists(ours[k], size));
        crate::pages::law_page_base(start_of(ours[k]), size, 0);
    }
    lemma_entering::<E>(pid, env, ch_stack, spans[0], pg, env.layout.off, regs);
    let stack_ptr = (ch_stack + env.stack_size / 2) as usize;
    assert(t1.cmds =~= crate::native_lib::segfault::entering::<E>(
        pid,
        env,
        ch_stack,
        spans[0],
        crate::mempr::jump(regs, env.layout.off, stack_ptr),
    ));
    if 0 <= i < ours.len() {
        assert(next_page_exists(ours[i], size));
        lemma_next_page(pages, start_of(ours[i]), size);
    }
}

/// The page after the one that holds an address is in the list or not.
proof fn lemma_next_page(pages: Seq<usize>, addr: usize, page_size: usize)
    requires
        page_size > 0,
        crate::pages::page_base(addr, page_size) + page_size <= usize::MAX,
    ensures
        pages.contains((crate::pages::page_base(addr, page_size) + page_size) as usize) <==> exists|
            j: int,
        |
            0 <= j < pages.len() && page_of_addr(#[trigger] pages[j] - page_size, addr, page_size),
{
    let base = crate::pages::page_base(addr, page_size);
    let next = (base + page_size) as usize;
    crate::pages::law_page_base(addr, page_size, base as int);
    if pages.contains(next) {
        let j = choose|j: int| 0 <= j < pages.len() && pages[j] == next;
        assert(page_of_addr(pages[j] - page_size, addr, page_size));
    }
    if exists|j: int|
        0 <= j < pages.len() && page_of_addr(#[trigger] pages[j] - page_size, addr, page_size) {
        let j = choose|j: int|
            0 <= j < pages.len() && page_of_addr(#[trigger] pages[j] - page_size, addr, page_size);
        crate::pages::law_page_base(addr, page_size, pages[j] - page_size);
        assert(pages[j] == next);
    }
}

/// When a span of pages is open the next one is opened, and after the last the thread executes
/// its instruction, with the registers that it faulted with. When it has, the spans are closed
/// again one after the other, and after the last the thread runs on with the registers that it
/// had after the instruction.
pub proof fn law_spans_by_turns<E>(
    pid: Pid,
    env: FaultEnv,
    pages: Seq<usize>,
    ch_stack: usize,
    regs: UserRegs,
    spans: Seq<PageSpan>,
    at: usize,
    pg: int,
    stopped: Pid,
    stop: WaitStatus,
)
    requires
        env.layout.page_size > 0,
        ch_stack + env.stack_size <= usize::MAX,
        at < spans.len(),
        at + 1 < spans.len() ==> at < usize::MAX && page_of_addr(
            pg,
            spans[at + 1].addr,
            env.layout.page_size,
        ),
        crate::native_lib::conduct::stopped_by(stop, stopped, Signal::Stop),
    ensures
        ({
            let stack_ptr = (ch_stack + env.stack_size / 2) as usize;
            let wait = WaitForSignal::fresh(Some(pid), Signal::Stop);
            let opening = SegfaultState {
                pid,
                phase: SegfaultPhase::Unprotecting { stack_ptr, regs, at, wait },
                spans,
            };
            let closing = SegfaultState {
                pid,
                phase: SegfaultPhase::Reprotecting { stack_ptr, regs, at, wait },
                spans,
            };
            let opened = opening.next::<E>(env, pages, ch_stack, Reply::Status(Some(stop)));
            let closed = closing.next::<E>(env, pages, ch_stack, Reply::Status(Some(stop)));
            &&& opening.asks() == Query::Wait(WaitId::Pid(pid))
            &&& closing.asks() == Query::Wait(WaitId::Pid(pid))
            &&& at + 1 < spans.len() ==> {
                let count = spans[at + 1].count as int;
                let then = (at + 1) as usize;
                &&& sends_into(opened.cmds, pid, env, ch_stack, pg, count, env.layout.off, regs)
                &&& opened.step == Step::<_, Result<(), ExecEnd>>::Ask(
                    SegfaultState {
                        pid,
                        phase: SegfaultPhase::Unprotecting { stack_ptr, regs, at: then, wait },
                        spans,
                    },
                )
                &&& sends_into(closed.cmds, pid, env, ch_stack, pg, count, env.layout.on, regs)
                &&& closed.step == Step::<_, Result<(), ExecEnd>>::Ask(
                    SegfaultState {
                        pid,
                        phase: SegfaultPhase::Reprotecting { stack_ptr, regs, at: then, wait },
                        spans,
                    },
                )
            }
            &&& at + 1 == spans.len() ==> {
                &&& opened.comes_to(
                    seq![Command::SetRegs(pid, regs), Command::Step(pid)],
                    Step::Ask(
                        SegfaultState { pid, phase: SegfaultPhase::Stepping { stack_ptr }, spans },
                    ),
                )
                &&& closed.comes_to(
                    seq![Command::SetRegs(pid, regs), Command::Syscall(pid)],
                    Step::Done(Ok(())),
                )
            }
        }),
{
    let stack_ptr = (ch_stack + env.stack_size / 2) as usize;
    let wait = WaitForSignal::fresh(Some(pid), Signal::Stop);
    let opening = SegfaultState {
        pid,
        phase: SegfaultPhase::Unprotecting { stack_ptr, regs, at, wait },
        spans,
    };
    let closing = SegfaultState {
        pid,
        phase: SegfaultPhase::Reprotecting { stack_ptr, regs, at, wait },
        spans,
    };
    let opened = opening.next::<E>(env, pages, ch_stack, Reply::Status(Some(stop)));
    let closed = closing.next::<E>(env, pages, ch_stack, Reply::Status(Some(stop)));
    if at + 1 < spans.len() {
        lemma_entering::<E>(pid, env, ch_stack, spans[at + 1], pg, env.layout.off, regs);
        lemma_entering::<E>(pid, env, ch_stack, spans[at + 1], pg, env.layout.on, regs);
        assert(opened.cmds =~= crate::native_lib::segfault::entering::<E>(
            pid,
            env,
            ch_stack,
            spans[at + 1],
            crate::mempr::jump(regs, env.layout.off, stack_ptr),
        ));
        assert(closed.cmds =~= crate::native_lib::segfault::entering::<E>(
            pid,
            env,
            ch_stack,
            spans[at + 1],
            crate::mempr::jump(regs, env.layout.on, stack_ptr),
        ));
    }
}

/// When the instruction was executed, the registers are looked at, and the first span is
/// closed. It is a fault of the supervisor if the instruction faults again, and the end if
/// nothing can be heard of the thread.
pub proof fn law_after_the_instruction<E>(
    pid: Pid,
    env: FaultEnv,
    pages: Seq<usize>,
    ch_stack: usize,
    spans: Seq<PageSpan>,
    status: WaitStatus,
    after: UserRegs,
    pg: int,
)
    requires
        env.layout.page_size > 0,
        ch_stack + env.stack_size <= usize::MAX,
        spans.len() > 0,
        page_of_addr(pg, spans[0].addr, env.layout.page_size),
    ensures
        ({
            let stack_ptr = (ch_stack + env.stack_size / 2) as usize;
            let wait = WaitForSignal::fresh(Some(pid), Signal::Stop);
            let stepping = SegfaultState {
                pid,
                phase: SegfaultPhase::Stepping { stack_ptr },
                spans,
            };
            let again = match status {
                WaitStatus::Signaled(_, signal, _) => signal == Signal::Segv,
                WaitStatus::Stopped(_, signal) => signal == Signal::Segv,
                WaitStatus::PtraceEvent(_, signal, _) => signal == Signal::Segv,
                _ => false,
            };
            let t0 = stepping.next::<E>(env, pages, ch_stack, Reply::Status(Some(status)));
            let stepped = t0.step->Ask_0;
            let t1 = stepped.next::<E>(env, pages, ch_stack, Reply::Regs(after));
            &&& stepping.asks() == Query::Wait(WaitId::Pid(pid))
            &&& stepping.next::<E>(env, pages, ch_stack, Reply::Status(None)).comes_to(
                seq![],
                Step::Done(Err(ExecEnd(None))),
            )
            &&& again ==> t0.step is Abort
            &&& !again ==> {
                &&& t0.comes_to(seq![], Step::Ask(stepped))
                &&& stepped.asks() == Query::GetRegs(pid)
                &&& sends_into(
                    t1.cmds,
                    pid,
                    env,
                    ch_stack,
                    pg,
                    spans[0].count as int,
                    env.layout.on,
                    after,
                )
                &&& t1.step == Step::<_, Result<(), ExecEnd>>::Ask(
                    SegfaultState {
                        pid,
                        phase: SegfaultPhase::Reprotecting {
                            stack_ptr,
                            regs: after,
                            at: 0,
                            wait,
                        },
                        spans,
                    },
                )
            }
        }),
{
    let stack_ptr = (ch_stack + env.stack_size / 2) as usize;
    let stepped = SegfaultState { pid, phase: SegfaultPhase::Stepped { stack_ptr }, spans };
    let t1 = stepped.next::<E>(env, pages, ch_stack, Reply::Regs(after));
    lemma_entering::<E>(pid, env, ch_stack, spans[0], pg, env.layout.on, after);
    assert(t1.cmds =~= crate::native_lib::segfault::entering::<E>(
        pid,
        env,
        ch_stack,
        spans[0],
        crate::mempr::jump(after, env.layout.on, stack_ptr),
    ));
}

/// An instruction that accesses none of our pages is told, access by access, and ends the
/// thread.
pub proof fn law_foreign_fault_kills<E>(
    pid: Pid,
    env: FaultEnv,
    pages: Seq<usize>,
    ch_stack: usize,
    stack_ptr: usize,
    regs: UserRegs,
    spans: Seq<PageSpan>,
    events: Vec<AccessEvent>,
    k: int,
)
    requires
        events@.len() > 0,
        crate::native_lib::segfault::ours(events@, pages, env.layout.page_size).len() == 0,
    ensures
        ({
            let reading = SegfaultState {
                pid,
                phase: SegfaultPhase::Reading { stack_ptr, regs },
                spans,
            };
            let told = Reply::<Found>::Decoded(Ok(Some(events)));
            let turn = reading.next::<E>(env, pages, ch_stack, told);
            let n = events@.len() as int;
            &&& turn.step == Step::<SegfaultState, Result<(), ExecEnd>>::Done(Err(ExecEnd(None)))
            &&& turn.cmds.len() == n + 2
            &&& 0 <= k < n ==> turn.cmds[k] == Command::<E>::Note(Note::ForeignEvent(events@[k]))
            &&& turn.cmds[n] == Command::<E>::Note(Note::RegisterDump(pid))
            &&& turn.cmds[n + 1] == Command::<E>::Kill(pid)
            &&& reading.logs(pages, env.layout.page_size, told) =~= seq![]
        }),
{
}

/// Nothing goes on record but the accesses of the instruction that was read.
pub proof fn law_only_the_instruction_is_logged(
    handler: SegfaultState,
    pages: Seq<usize>,
    page_size: usize,
    reply: Reply<Found>,
)
    requires
        !(handler.phase is Reading && reply is Decoded),
    ensures
        handler.logs(pages, page_size, reply) =~= seq![],
{
}

/// While the thread is inside of a routine, what it is waited for changes nothing else: the
/// handler goes on where it was, and is over if the thread dies.
pub proof fn law_fault_handler_is_patient<E>(
    pid: Pid,
    env: FaultEnv,
    pages: Seq<usize>,
    ch_stack: usize,
    stack_ptr: usize,
    regs: UserRegs,
    spans: Seq<PageSpan>,
    at: usize,
    wait: WaitForSignal,
    reply: Reply<Found>,
)
    ensures
        ({
            let opening = SegfaultState {
                pid,
                phase: SegfaultPhase::Unprotecting { stack_ptr, regs, at, wait },
                spans,
            };
            let closing = SegfaultState {
                pid,
                phase: SegfaultPhase::Reprotecting { stack_ptr, regs, at, wait },
                spans,
            };
            let waited = wait.next::<E, Found>(reply);
            let opened = opening.next::<E>(env, pages, ch_stack, reply);
            let closed = closing.next::<E>(env, pages, ch_stack, reply);
            &&& opening.asks() == wait.asks()
            &&& closing.asks() == wait.asks()
            &&& waited.step matches Step::Ask(w) ==> {
                &&& opened.comes_to(
                    waited.cmds,
                    Step::Ask(
                        SegfaultState {
                            phase: SegfaultPhase::Unprotecting { stack_ptr, regs, at, wait: w },
                            ..opening
                        },
                    ),
                )
                &&& closed.comes_to(
                    waited.cmds,
                    Step::Ask(
                        SegfaultState {
                            phase: SegfaultPhase::Reprotecting { stack_ptr, regs, at, wait: w },
                            ..closing
                        },
                    ),
                )
            }
            &&& waited.step matches Step::Done(Err(e)) ==> {
                &&& opened.comes_to(waited.cmds, Step::Done(Err(e)))
                &&& closed.comes_to(waited.cmds, Step::Done(Err(e)))
            }
        }),
{
}

/// The supervisor gives up on an access to the last page there is, and on one that there is no
/// room on the spare stack for.
pub proof fn law_faults_out_of_reach<E>(
    pid: Pid,
    env: FaultEnv,
    pages: Seq<usize>,
    ch_stack: usize,
    stack_ptr: usize,
    regs: UserRegs,
    spans: Seq<PageSpan>,
    events: Vec<AccessEvent>,
    ours: Seq<AccessEvent>,
    k: int,
)
    requires
        env.layout.page_size > 0,
        ours == crate::native_lib::segfault::ours(events@, pages, env.layout.page_size),
        0 <= k < ours.len(),
        !next_page_exists(ours[k], env.layout.page_size) || ch_stack + env.stack_size
            > usize::MAX,
    ensures
        ({
            let reading = SegfaultState {
                pid,
                phase: SegfaultPhase::Reading { stack_ptr, regs },
                spans,
            };
            let told = Reply::<Found>::Decoded(Ok(Some(events)));
            reading.next::<E>(env, pages, ch_stack, told).step is Abort
        }),
{
    let size = env.layout.page_size;
    crate::pages::law_page_base(start_of(ours[k]), size, 0);
    if !next_page_exists(ours[k], size) {
        assert(!crate::native_lib::segfault::spannable(ours[k], size));
    }
}

} // verus!
