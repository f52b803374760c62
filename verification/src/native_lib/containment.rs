//! Why the pages of the child are never open to foreign code.
use vstd::prelude::*;

use crate::mempr::Guard;
use crate::messages::TraceRequest;
use crate::native_lib::access::Found;
use crate::native_lib::libc_fns::LibcFn;
use crate::native_lib::listener::ChildListener;
use crate::native_lib::segfault::{FaultEnv, PageSpan, SegfaultPhase, SegfaultState};
use crate::native_lib::sigtrap::{SigtrapPhase, SigtrapState, SvEnv};
use crate::native_lib::sv_loop::{SvMode, SvState};
use crate::native_lib::{AccessEvent, ExecEnd};
use crate::regs::UserRegs;
use crate::tracee::{Command, Pid, Reply, Step, Turn};

verus! {

/// The pages of a span.
pub open spec fn span_pages(span: PageSpan, page_size: usize) -> Set<int> {
    crate::mempr::page_set(
        crate::pages::page_base(span.addr, page_size),
        span.count,
        page_size,
    )
}

/// The pages of the first `n` spans.
pub open spec fn all_pages(spans: Seq<PageSpan>, page_size: usize, n: int) -> Set<int> {
    Set::new(
        |pg: int|
            exists|j: int| 0 <= j < n && #[trigger] span_pages(spans[j], page_size).contains(pg),
    )
}

/// The pages of ours that hold a byte of an access of the instruction to our memory.
pub open spec fn needed_pages(
    events: Seq<AccessEvent>,
    pages: Seq<usize>,
    page_size: usize,
) -> Set<int> {
    let ours = crate::native_lib::segfault::ours(events, pages, page_size);
    Set::new(
        |pg: int|
            exists|i: int|
                0 <= i < ours.len() && #[trigger] crate::mempr::touched_pages(
                    pages,
                    page_size,
                    ours[i].range().addr,
                    ours[i].range().size as int,
                ).contains(pg),
    )
}

/// Whether no access is longer than a page.
pub open spec fn fit_a_page(events: Seq<AccessEvent>, page_size: usize) -> bool {
    forall|i: int| 0 <= i < events.len() ==> (#[trigger] events[i]).range().size <= page_size
}

/// The pages that are opened for accesses are all that these need.
proof fn lemma_needed_pages(events: Seq<AccessEvent>, pages: Seq<usize>, page_size: usize)
    requires
        page_size > 0,
        crate::mempr::pages_aligned(pages, page_size),
        fit_a_page(events, page_size),
    ensures
        ({
            let ours = crate::native_lib::segfault::ours(events, pages, page_size);
            let spans = crate::native_lib::segfault::spans_of(ours, pages, page_size);
            needed_pages(events, pages, page_size).subset_of(
                all_pages(spans, page_size, spans.len() as int),
            )
        }),
{
    let ours = crate::native_lib::segfault::ours(events, pages, page_size);
    let spans = crate::native_lib::segfault::spans_of(ours, pages, page_size);
    let all = all_pages(spans, page_size, spans.len() as int);
    assert forall|pg: int| needed_pages(events, pages, page_size).contains(pg) implies all.contains(
        pg,
    ) by {
        let i = choose|i: int|
            0 <= i < ours.len() && #[trigger] crate::mempr::touched_pages(
                pages,
                page_size,
                ours[i].range().addr,
                ours[i].range().size as int,
            ).contains(pg);
        let range = ours[i].range();
        assert(range.size <= page_size) by {
            assert(ours.contains(ours[i]));
            events.lemma_filter_contains_rev(
                crate::native_lib::segfault::is_ours(pages, page_size),
                ours[i],
            );
            let k = events.index_of(ours[i]);
            assert(events[k] == ours[i]);
        }
        assert(spans[i] == crate::native_lib::segfault::span_of(ours[i], pages, page_size));
        let base = crate::pages::page_base(range.addr, page_size);
        assert forall|j: int|
            0 <= j < pages.len() && #[trigger] pages[j] == base + page_size implies spans[i].count
            >= 2 by {
            assert(pages.contains(pages[j]));
        }
        crate::mempr::lemma_touched_pages(
            pages,
            page_size,
            range.addr,
            range.size as int,
            spans[i].count,
        );
        assert(span_pages(spans[i], page_size).contains(pg));
    }
}

/// Whether the variables of the routines lie outside of the stack.
pub open spec fn stack_apart(env: FaultEnv, ch_stack: usize) -> bool {
    &&& !(ch_stack <= env.layout.page_addr_at < ch_stack + env.stack_size)
    &&& !(ch_stack <= env.layout.page_count_at < ch_stack + env.stack_size)
}

impl SegfaultState {
    /// What a series of replies leads to.
    pub open spec fn run<E>(
        self,
        env: FaultEnv,
        pages: Seq<usize>,
        ch_stack: usize,
        replies: Seq<Reply<Found>>,
    ) -> Turn<E, SegfaultState, Result<(), ExecEnd>>
        decreases replies.len(),
    {
        if replies.len() == 0 {
            Turn { cmds: seq![], step: Step::Ask(self) }
        } else {
            let turn = self.next::<E>(env, pages, ch_stack, replies[0]);
            match turn.step {
                Step::Ask(next) => {
                    let rest = next.run::<E>(env, pages, ch_stack, replies.skip(1));
                    Turn { cmds: turn.cmds + rest.cmds, step: rest.step }
                },
                _ => turn,
            }
        }
    }

    /// The registers that were read once the instruction was executed.
    spec fn regs_after(self) -> Option<UserRegs> {
        match self.phase {
            SegfaultPhase::Reprotecting { regs, .. } => Some(regs),
            _ => None,
        }
    }

    /// How far the pages are open from when the first are being opened on.
    spec fn guarded(self, env: FaultEnv, regs: UserRegs, guard: Guard) -> bool {
        let page_size = env.layout.page_size;
        let all = all_pages(self.spans, page_size, self.spans.len() as int);
        &&& !guard.leaked
        &&& !guard.missed
        &&& match self.phase {
            SegfaultPhase::Unprotecting { regs: r, at, wait, .. } => {
                &&& at < self.spans.len()
                &&& r == regs
                &&& wait.pid == Some(self.pid)
                &&& guard.inside(env.layout.off)
                &&& guard.page_addr == crate::pages::page_base(self.spans[at as int].addr, page_size)
                &&& guard.page_count == self.spans[at as int].count
                &&& guard.open == all_pages(self.spans, page_size, at + 1)
            },
            SegfaultPhase::Stepping { .. } | SegfaultPhase::Stepped { .. } => {
                &&& guard.open == all
                &&& guard.stepped_with == Some(regs)
            },
            SegfaultPhase::Reprotecting { at, wait, .. } => {
                &&& at < self.spans.len()
                &&& wait.pid == Some(self.pid)
                &&& guard.inside(env.layout.on)
                &&& guard.page_addr == crate::pages::page_base(self.spans[at as int].addr, page_size)
                &&& guard.page_count == self.spans[at as int].count
                &&& guard.open == all.difference(all_pages(self.spans, page_size, at + 1))
                &&& guard.stepped_with == Some(regs)
            },
            _ => false,
        }
    }
}

proof fn lemma_all_pages_step(spans: Seq<PageSpan>, page_size: usize, n: int)
    requires
        0 <= n < spans.len(),
    ensures
        all_pages(spans, page_size, n + 1) == all_pages(spans, page_size, n).union(
            span_pages(spans[n], page_size),
        ),
        all_pages(spans, page_size, 0) == Set::<int>::empty(),
{
    assert(all_pages(spans, page_size, n + 1) =~= all_pages(spans, page_size, n).union(
        span_pages(spans[n], page_size),
    ));
    assert(all_pages(spans, page_size, 0) =~= Set::<int>::empty());
}

/// Writing to the stack does not disturb the routines.
proof fn lemma_zeroing<E>(
    guard: Guard,
    env: FaultEnv,
    pid: Pid,
    needs: Set<int>,
    ch_stack: usize,
    n: int,
)
    requires
        stack_apart(env, ch_stack),
        ch_stack + env.stack_size <= usize::MAX,
        0 <= n <= crate::native_lib::segfault::zeroing::<E>(pid, ch_stack, env.stack_size).len(),
    ensures
        guard.obey_all(
            env.layout,
            pid,
            needs,
            crate::native_lib::segfault::zeroing::<E>(pid, ch_stack, env.stack_size).take(n),
        ) == guard,
    decreases n,
{
    let all = crate::native_lib::segfault::zeroing::<E>(pid, ch_stack, env.stack_size);
    if n > 0 {
        lemma_zeroing::<E>(guard, env, pid, needs, ch_stack, n - 1);
        assert(all.take(n).drop_last() =~= all.take(n - 1));
        assert(all.take(n).last() == all[n - 1]);
    }
}

/// What it comes to when a thread is sent into a routine.
proof fn lemma_entering<E>(
    guard: Guard,
    env: FaultEnv,
    pid: Pid,
    needs: Set<int>,
    ch_stack: usize,
    span: PageSpan,
    regs: UserRegs,
)
    requires
        env.layout.wf(),
        stack_apart(env, ch_stack),
        ch_stack + env.stack_size <= usize::MAX,
        regs.rip == env.layout.off || regs.rip == env.layout.on,
    ensures
        guard.obey_all(
            env.layout,
            pid,
            needs,
            crate::native_lib::segfault::entering::<E>(pid, env, ch_stack, span, regs),
        ) == (Guard {
            page_addr: crate::pages::page_base(span.addr, env.layout.page_size),
            page_count: span.count,
            regs: Some(regs),
            open: if regs.rip == env.layout.off {
                guard.open.union(span_pages(span, env.layout.page_size))
            } else {
                guard.open.difference(span_pages(span, env.layout.page_size))
            },
            ..guard
        }),
{
    let zeros = crate::native_lib::segfault::zeroing::<E>(pid, ch_stack, env.stack_size);
    lemma_zeroing::<E>(guard, env, pid, needs, ch_stack, zeros.len() as int);
    assert(zeros.take(zeros.len() as int) =~= zeros);
    let rest = seq![
        Command::<E>::Write(
            pid,
            env.layout.page_addr_at,
            crate::pages::page_base(span.addr, env.layout.page_size),
        ),
        Command::<E>::Write(pid, env.layout.page_count_at, span.count),
        Command::<E>::SetRegs(pid, regs),
        Command::<E>::Cont(pid, None),
    ];
    assert(crate::native_lib::segfault::entering::<E>(pid, env, ch_stack, span, regs) =~= zeros
        + rest);
    crate::mempr::lemma_obey_add(guard, env.layout, pid, needs, zeros, rest);
    reveal_with_fuel(Guard::obey_all, 5);
}

impl SegfaultState {
    proof fn lemma_unprotect_guarded<E>(
        self,
        env: FaultEnv,
        ch_stack: usize,
        stack_ptr: usize,
        regs: UserRegs,
        at: int,
        guard: Guard,
        needs: Set<int>,
    )
        requires
            env.layout.wf(),
            stack_apart(env, ch_stack),
            ch_stack + env.stack_size <= usize::MAX,
            0 <= at < self.spans.len() <= usize::MAX,
            !guard.leaked,
            !guard.missed,
            guard.open == all_pages(self.spans, env.layout.page_size, at),
        ensures
            ({
                let turn = self.unprotect::<E>(env, ch_stack, stack_ptr, regs, at, seq![]);
                &&& turn.step->Ask_0.guarded(
                    env,
                    regs,
                    guard.obey_all(env.layout, self.pid, needs, turn.cmds),
                )
            }),
    {
        let jumping = crate::mempr::jump(regs, env.layout.off, stack_ptr);
        lemma_entering::<E>(guard, env, self.pid, needs, ch_stack, self.spans[at], jumping);
        lemma_all_pages_step(self.spans, env.layout.page_size, at);
        assert(self.unprotect::<E>(env, ch_stack, stack_ptr, regs, at, seq![]).cmds
            =~= crate::native_lib::segfault::entering::<E>(
            self.pid,
            env,
            ch_stack,
            self.spans[at],
            jumping,
        ));
    }

    proof fn lemma_reprotect_guarded<E>(
        self,
        env: FaultEnv,
        ch_stack: usize,
        stack_ptr: usize,
        regs: UserRegs,
        after: UserRegs,
        at: int,
        guard: Guard,
        needs: Set<int>,
    )
        requires
            env.layout.wf(),
            stack_apart(env, ch_stack),
            ch_stack + env.stack_size <= usize::MAX,
            0 <= at < self.spans.len() <= usize::MAX,
            !guard.leaked,
            !guard.missed,
            guard.stepped_with == Some(regs),
            guard.open == all_pages(
                self.spans,
                env.layout.page_size,
                self.spans.len() as int,
            ).difference(all_pages(self.spans, env.layout.page_size, at)),
        ensures
            ({
                let turn = self.reprotect::<E>(env, ch_stack, stack_ptr, after, at, seq![]);
                &&& turn.step->Ask_0.guarded(
                    env,
                    regs,
                    guard.obey_all(env.layout, self.pid, needs, turn.cmds),
                )
            }),
    {
        let jumping = crate::mempr::jump(after, env.layout.on, stack_ptr);
        lemma_entering::<E>(guard, env, self.pid, needs, ch_stack, self.spans[at], jumping);
        lemma_all_pages_step(self.spans, env.layout.page_size, at);
        assert(self.reprotect::<E>(env, ch_stack, stack_ptr, after, at, seq![]).cmds
            =~= crate::native_lib::segfault::entering::<E>(
            self.pid,
            env,
            ch_stack,
            self.spans[at],
            jumping,
        ));
        let all = all_pages(self.spans, env.layout.page_size, self.spans.len() as int);
        assert(guard.open.difference(span_pages(self.spans[at], env.layout.page_size))
            =~= all.difference(all_pages(self.spans, env.layout.page_size, at + 1)));
    }

    proof fn lemma_turn_guarded<E>(
        self,
        env: FaultEnv,
        pages: Seq<usize>,
        ch_stack: usize,
        reply: Reply<Found>,
        regs: UserRegs,
        guard: Guard,
        needs: Set<int>,
    )
        requires
            env.layout.wf(),
            needs.subset_of(
                all_pages(self.spans, env.layout.page_size, self.spans.len() as int),
            ),
            self.wf(env, ch_stack),
            stack_apart(env, ch_stack),
            self.spans.len() <= usize::MAX,
            self.guarded(env, regs, guard),
        ensures
            ({
                let turn = self.next::<E>(env, pages, ch_stack, reply);
                let end = guard.obey_all(env.layout, self.pid, needs, turn.cmds);
                match turn.step {
                    Step::Ask(next) => {
                        &&& next.pid == self.pid
                        &&& next.spans == self.spans
                        &&& next.wf(env, ch_stack)
                        &&& next.guarded(env, regs, end)
                        &&& next.regs_after() == self.regs_after() || (self.regs_after() is None
                            && reply == Reply::<Found>::Regs(next.regs_after()->0))
                        &&& !(next.phase is GettingRegs) && !(next.phase is Reading)
                    },
                    Step::Done(Ok(())) => {
                        &&& end.shut()
                        &&& end.regs is None
                        &&& end.stepped_with == Some(regs)
                        &&& end.freed_with == self.regs_after()
                        &&& self.regs_after() is Some
                    },
                    _ => !end.leaked && !end.missed,
                }
            }),
    {
        reveal_with_fuel(Guard::obey_all, 5);
        let page_size = env.layout.page_size;
        let n = self.spans.len() as int;
        let all = all_pages(self.spans, page_size, n);
        let turn = self.next::<E>(env, pages, ch_stack, reply);
        match self.phase {
            SegfaultPhase::Unprotecting { stack_ptr, regs: r, at, wait } => {
                let waited = wait.next::<E, Found>(reply);
                let mid = guard.obey_all(env.layout, self.pid, needs, waited.cmds);
                lemma_all_pages_step(self.spans, page_size, at as int);
                assert(guard.open.union(span_pages(self.spans[at as int], page_size))
                    =~= guard.open);
                assert(mid == guard);
                if let Step::Done(Ok(_)) = waited.step {
                    let more = if at + 1 < n {
                        self.lemma_unprotect_guarded::<E>(
                            env,
                            ch_stack,
                            stack_ptr,
                            r,
                            at + 1,
                            guard,
                            needs,
                        );
                        self.unprotect::<E>(env, ch_stack, stack_ptr, r, at + 1, seq![]).cmds
                    } else {
                        seq![
                            Command::<E>::SetRegs(self.pid, r),
                            Command::<E>::Step(self.pid),
                        ]
                    };
                    assert(turn.cmds =~= waited.cmds + more);
                    crate::mempr::lemma_obey_add(
                        guard,
                        env.layout,
                        self.pid,
                        needs,
                        waited.cmds,
                        more,
                    );
                }
            },
            SegfaultPhase::Stepped { stack_ptr } => {
                if let Reply::Regs(after) = reply {
                    lemma_all_pages_step(self.spans, page_size, 0);
                    assert(all.difference(Set::<int>::empty()) =~= all);
                    self.lemma_reprotect_guarded::<E>(
                        env,
                        ch_stack,
                        stack_ptr,
                        regs,
                        after,
                        0,
                        guard,
                        needs,
                    );
                }
            },
            SegfaultPhase::Reprotecting { stack_ptr, regs: after, at, wait } => {
                let waited = wait.next::<E, Found>(reply);
                let mid = guard.obey_all(env.layout, self.pid, needs, waited.cmds);
                lemma_all_pages_step(self.spans, page_size, at as int);
                assert(guard.open.difference(span_pages(self.spans[at as int], page_size))
                    =~= guard.open);
                assert(mid == guard);
                if let Step::Done(Ok(_)) = waited.step {
                    let more = if at + 1 < n {
                        self.lemma_reprotect_guarded::<E>(
                            env,
                            ch_stack,
                            stack_ptr,
                            regs,
                            after,
                            at + 1,
                            guard,
                            needs,
                        );
                        self.reprotect::<E>(env, ch_stack, stack_ptr, after, at + 1, seq![]).cmds
                    } else {
                        assert(all.difference(all) =~= Set::<int>::empty());
                        seq![
                            Command::<E>::SetRegs(self.pid, after),
                            Command::<E>::Syscall(self.pid),
                        ]
                    };
                    assert(turn.cmds =~= waited.cmds + more);
                    crate::mempr::lemma_obey_add(
                        guard,
                        env.layout,
                        self.pid,
                        needs,
                        waited.cmds,
                        more,
                    );
                }
            },
            _ => {},
        }
    }

    proof fn lemma_run_guarded<E>(
        self,
        env: FaultEnv,
        pages: Seq<usize>,
        ch_stack: usize,
        replies: Seq<Reply<Found>>,
        regs: UserRegs,
        guard: Guard,
        needs: Set<int>,
    )
        requires
            env.layout.wf(),
            needs.subset_of(
                all_pages(self.spans, env.layout.page_size, self.spans.len() as int),
            ),
            self.wf(env, ch_stack),
            stack_apart(env, ch_stack),
            self.spans.len() <= usize::MAX,
            self.guarded(env, regs, guard),
        ensures
            ({
                let turn = self.run::<E>(env, pages, ch_stack, replies);
                let end = guard.obey_all(env.layout, self.pid, needs, turn.cmds);
                &&& !end.leaked
                &&& !end.missed
                &&& turn.step matches Step::Done(Ok(())) ==> {
                    &&& end.shut()
                    &&& end.stepped_with == Some(regs)
                    &&& self.regs_after() is Some ==> end.freed_with == self.regs_after()
                    &&& self.regs_after() is None ==> read_among(
                        replies,
                        end.freed_with,
                    )
                }
            }),
        decreases replies.len(),
    {
        if replies.len() > 0 {
            let turn = self.next::<E>(env, pages, ch_stack, replies[0]);
            let mid = guard.obey_all(env.layout, self.pid, needs, turn.cmds);
            self.lemma_turn_guarded::<E>(env, pages, ch_stack, replies[0], regs, guard, needs);
            if let Step::Ask(next) = turn.step {
                let rest = replies.skip(1);
                next.lemma_run_guarded::<E>(env, pages, ch_stack, rest, regs, mid, needs);
                let after = next.run::<E>(env, pages, ch_stack, rest);
                crate::mempr::lemma_obey_add(
                    guard,
                    env.layout,
                    self.pid,
                    needs,
                    turn.cmds,
                    after.cmds,
                );
                let end = mid.obey_all(env.layout, self.pid, needs, after.cmds);
                if after.step matches Step::Done(Ok(())) && self.regs_after() is None {
                    if next.regs_after() is Some {
                        assert(replies[0] == Reply::<Found>::Regs(end.freed_with->0));
                    } else {
                        let k = choose|k: int|
                            0 <= k < rest.len() && #[trigger] rest[k] == Reply::<Found>::Regs(
                                end.freed_with->0,
                            );
                        assert(replies[k + 1] == rest[k]);
                    }
                }
            }
        }
    }
}

impl SegfaultState {
    proof fn lemma_reading_guarded<E>(
        self,
        env: FaultEnv,
        pages: Seq<usize>,
        ch_stack: usize,
        events: Vec<AccessEvent>,
        replies: Seq<Reply<Found>>,
        guard: Guard,
    )
        requires
            env.layout.wf(),
            stack_apart(env, ch_stack),
            guard.shut(),
            crate::mempr::pages_aligned(pages, env.layout.page_size),
            fit_a_page(events@, env.layout.page_size),
            self.phase is Reading,
        ensures
            ({
                let needs = needed_pages(events@, pages, env.layout.page_size);
                let turn = self.run::<E>(
                    env,
                    pages,
                    ch_stack,
                    seq![Reply::Decoded(Ok(Some(events)))] + replies,
                );
                let end = guard.obey_all(env.layout, self.pid, needs, turn.cmds);
                &&& !end.leaked
                &&& !end.missed
                &&& turn.step matches Step::Done(Ok(())) ==> {
                    &&& end.open == Set::<int>::empty()
                    &&& end.stepped_with == self.fault_regs()
                    &&& read_among(replies, end.freed_with)
                }
            }),
    {
        let page_size = env.layout.page_size;
        let needs = needed_pages(events@, pages, page_size);
        let reply: Reply<Found> = Reply::Decoded(Ok(Some(events)));
        let all = seq![reply] + replies;
        assert(all[0] == reply);
        assert(all.skip(1) =~= replies);
        let regs = self.fault_regs()->0;
        let turn = self.next::<E>(env, pages, ch_stack, reply);
        let ours = crate::native_lib::segfault::ours(events@, pages, page_size);
        let spans = crate::native_lib::segfault::spans_of(ours, pages, page_size);
        let with_spans = SegfaultState { spans, ..self };
        match turn.step {
            Step::Ask(next) => {
                let stack_ptr = match self.phase {
                    SegfaultPhase::Reading { stack_ptr, .. } => stack_ptr,
                    _ => arbitrary(),
                };
                events@.lemma_filter_len(crate::native_lib::segfault::is_ours(pages, page_size));
                assert(events@.len() == events.len());
                assert(spans.len() == ours.len());
                lemma_all_pages_step(spans, page_size, 0);
                lemma_needed_pages(events@, pages, page_size);
                with_spans.lemma_unprotect_guarded::<E>(
                    env,
                    ch_stack,
                    stack_ptr,
                    regs,
                    0,
                    guard,
                    needs,
                );
                let mid = guard.obey_all(env.layout, self.pid, needs, turn.cmds);
                next.lemma_run_guarded::<E>(env, pages, ch_stack, replies, regs, mid, needs);
                let rest = next.run::<E>(env, pages, ch_stack, replies);
                crate::mempr::lemma_obey_add(
                    guard,
                    env.layout,
                    self.pid,
                    needs,
                    turn.cmds,
                    rest.cmds,
                );
            },
            _ => {
                assert(crate::mempr::spares(self.pid, turn.cmds));
                crate::mempr::lemma_spares(env.layout, self.pid, guard, needs, turn.cmds);
            },
        }
    }
}

/// Whether the registers are ones that were read from the thread by one of the replies.
pub open spec fn read_among(replies: Seq<Reply<Found>>, regs: Option<UserRegs>) -> bool {
    &&& regs is Some
    &&& exists|k: int|
        0 <= k < replies.len() && #[trigger] replies[k] == Reply::<Found>::Regs(regs->0)
}

/// However the child behaves while a fault is handled, it is never let run on foreign
/// code with a page accessible, and the instruction that faulted is executed only with
/// every page of ours accessible that its accesses to our memory touch. When the handler
/// comes to its end, no page is left accessible. The instruction is executed with the
/// registers that the thread faulted with, and the thread runs on with those that it had
/// after the instruction.
pub proof fn law_fault_is_contained<E>(
    pid: Pid,
    env: FaultEnv,
    pages: Seq<usize>,
    ch_stack: usize,
    regs: UserRegs,
    events: Vec<AccessEvent>,
    replies: Seq<Reply<Found>>,
    guard: Guard,
)
    requires
        env.layout.wf(),
        stack_apart(env, ch_stack),
        guard.shut(),
        crate::mempr::pages_aligned(pages, env.layout.page_size),
        fit_a_page(events@, env.layout.page_size),
    ensures
        ({
            let start = SegfaultState { pid, phase: SegfaultPhase::GettingRegs, spans: seq![] };
            let learned: Seq<Reply<Found>> = seq![
                Reply::Regs(regs),
                Reply::Decoded(Ok(Some(events))),
            ];
            let needs = needed_pages(events@, pages, env.layout.page_size);
            let turn = start.run::<E>(env, pages, ch_stack, learned + replies);
            let end = guard.obey_all(env.layout, pid, needs, turn.cmds);
            &&& !end.leaked
            &&& !end.missed
            &&& turn.step matches Step::Done(Ok(())) ==> {
                &&& end.open == Set::<int>::empty()
                &&& end.stepped_with == Some(regs)
                &&& read_among(replies, end.freed_with)
            }
        }),
{
    let start = SegfaultState { pid, phase: SegfaultPhase::GettingRegs, spans: seq![] };
    let learned: Seq<Reply<Found>> = seq![Reply::Regs(regs), Reply::Decoded(Ok(Some(events)))];
    let all = learned + replies;
    let first = start.next::<E>(env, pages, ch_stack, all[0]);
    assert(all[0] == learned[0]);
    if let Step::Ask(reading) = first.step {
        assert(all.skip(1) =~= seq![learned[1]] + replies);
        reading.lemma_reading_guarded::<E>(env, pages, ch_stack, events, replies, guard);
        let rest = reading.run::<E>(env, pages, ch_stack, all.skip(1));
        assert(start.run::<E>(env, pages, ch_stack, all).cmds =~= rest.cmds);
    } else {
        assert(start.run::<E>(env, pages, ch_stack, all).cmds =~= seq![]);
    }
}

impl SegfaultState {
    /// Whether the thread that is waited for is the one that faulted.
    spec fn attends(self) -> bool {
        match self.phase {
            SegfaultPhase::Unprotecting { wait, .. } => wait.pid == Some(self.pid),
            SegfaultPhase::Reprotecting { wait, .. } => wait.pid == Some(self.pid),
            _ => true,
        }
    }

    /// How far the pages are open, whatever fault it is.
    spec fn somehow_guarded(self, env: FaultEnv, guard: Guard) -> bool {
        exists|regs: UserRegs| #[trigger] self.guarded(env, regs, guard)
    }

    /// How far the pages of a thread are open while a fault is handled.
    spec fn watched(self, env: FaultEnv, ch_stack: usize, pid: Pid, guard: Guard) -> bool {
        &&& self.wf(env, ch_stack)
        &&& self.spans.len() <= usize::MAX
        &&& self.attends()
        &&& if self.pid != pid || self.phase is GettingRegs || self.phase is Reading {
            guard.calm(env.layout)
        } else {
            self.somehow_guarded(env, guard)
        }
    }

    proof fn lemma_reading_turn<E>(
        self,
        env: FaultEnv,
        pages: Seq<usize>,
        ch_stack: usize,
        pid: Pid,
        guard: Guard,
        events: Vec<AccessEvent>,
    )
        requires
            env.layout.wf(),
            stack_apart(env, ch_stack),
            self.phase is Reading,
            self.pid == pid,
            self.watched(env, ch_stack, pid, guard),
        ensures
            ({
                let reply: Reply<Found> = Reply::Decoded(Ok(Some(events)));
                let turn = self.next::<E>(env, pages, ch_stack, reply);
                let end = guard.obey_all(env.layout, pid, Set::empty(), turn.cmds);
                &&& !end.leaked
                &&& turn.step matches Step::Ask(next) ==> next.watched(env, ch_stack, pid, end)
                &&& !(turn.step matches Step::Done(Ok(_)))
            }),
    {
        let page_size = env.layout.page_size;
        let reply: Reply<Found> = Reply::Decoded(Ok(Some(events)));
        let turn = self.next::<E>(env, pages, ch_stack, reply);
        let ours = crate::native_lib::segfault::ours(events@, pages, page_size);
        let spans = crate::native_lib::segfault::spans_of(ours, pages, page_size);
        match turn.step {
            Step::Ask(next) => {
                let (stack_ptr, regs) = match self.phase {
                    SegfaultPhase::Reading { stack_ptr, regs } => (stack_ptr, regs),
                    _ => arbitrary(),
                };
                events@.lemma_filter_len(crate::native_lib::segfault::is_ours(pages, page_size));
                assert(events@.len() == events.len());
                assert(spans.len() == ours.len());
                lemma_all_pages_step(spans, page_size, 0);
                (SegfaultState { spans, ..self }).lemma_unprotect_guarded::<E>(
                    env,
                    ch_stack,
                    stack_ptr,
                    regs,
                    0,
                    guard,
                    Set::empty(),
                );
                let end = guard.obey_all(env.layout, pid, Set::empty(), turn.cmds);
                assert(next.guarded(env, regs, end));
                assert(next.somehow_guarded(env, end));
            },
            _ => {
                assert(crate::mempr::spares(pid, turn.cmds));
                crate::mempr::lemma_spares(env.layout, pid, guard, Set::empty(), turn.cmds);
            },
        }
    }

    proof fn lemma_watched_turn<E>(
        self,
        env: FaultEnv,
        pages: Seq<usize>,
        ch_stack: usize,
        pid: Pid,
        guard: Guard,
        reply: Reply<Found>,
    )
        requires
            env.layout.wf(),
            stack_apart(env, ch_stack),
            self.watched(env, ch_stack, pid, guard),
        ensures
            ({
                let turn = self.next::<E>(env, pages, ch_stack, reply);
                let end = guard.obey_all(env.layout, pid, Set::empty(), turn.cmds);
                &&& !end.leaked
                &&& turn.step matches Step::Ask(next) ==> next.watched(env, ch_stack, pid, end)
                &&& turn.step matches Step::Done(Ok(_)) ==> end.calm(env.layout)
            }),
    {
        let turn = self.next::<E>(env, pages, ch_stack, reply);
        let end = guard.obey_all(env.layout, pid, Set::empty(), turn.cmds);
        if self.pid != pid {
            self.lemma_keeps_to_itself::<E>(env, pages, ch_stack, pid, reply);
            crate::mempr::lemma_spares(env.layout, pid, guard, Set::empty(), turn.cmds);
        } else if self.phase is GettingRegs {
            assert(turn.cmds =~= seq![]);
        } else if self.phase is Reading {
            if let Reply::Decoded(Ok(Some(events))) = reply {
                self.lemma_reading_turn::<E>(env, pages, ch_stack, pid, guard, events);
            } else {
                assert(turn.cmds =~= seq![]);
            }
        } else {
            let regs = choose|regs: UserRegs| #[trigger] self.guarded(env, regs, guard);
            self.lemma_turn_guarded::<E>(
                env,
                pages,
                ch_stack,
                reply,
                regs,
                guard,
                Set::empty(),
            );
            if let Step::Ask(next) = turn.step {
                assert(next.guarded(env, regs, end));
                assert(next.somehow_guarded(env, end));
            }
        }
    }

    /// Handling the fault of one thread leaves the others alone.
    proof fn lemma_keeps_to_itself<E>(
        self,
        env: FaultEnv,
        pages: Seq<usize>,
        ch_stack: usize,
        pid: Pid,
        reply: Reply<Found>,
    )
        requires
            self.pid != pid,
            self.attends(),
            self.wf(env, ch_stack),
            self.spans.len() <= usize::MAX,
        ensures
            ({
                let turn = self.next::<E>(env, pages, ch_stack, reply);
                &&& crate::mempr::spares(pid, turn.cmds)
                &&& turn.step matches Step::Ask(next) ==> {
                    &&& next.pid == self.pid
                    &&& next.attends()
                    &&& next.wf(env, ch_stack)
                    &&& next.spans.len() <= usize::MAX
                }
            }),
    {
        if let Reply::Decoded(Ok(Some(events))) = reply {
            let page_size = env.layout.page_size;
            events@.lemma_filter_len(crate::native_lib::segfault::is_ours(pages, page_size));
            assert(events@.len() == events.len());
        }
    }
}

/// Whether the shims are not the routines.
pub open spec fn shims_apart(env: SvEnv) -> bool {
    forall|f: LibcFn|
        #[trigger] env.libc.shims.of(f) != env.fault.layout.off && env.libc.shims.of(f)
            != env.fault.layout.on
}

/// Whether each stack that the child sets aside is apart from the variables of the
/// routines.
pub open spec fn stacks_apart(env: SvEnv, replies: Seq<Reply<Found>>) -> bool {
    forall|i: int|
        0 <= i < replies.len() ==> (
        #[trigger] replies[i] matches Reply::Request(Some(TraceRequest::StartFfi(info)))
            ==> stack_apart(env.fault, info.stack_ptr))
}

impl SigtrapState {
    /// How far the pages of a thread are open while a breakpoint is handled.
    spec fn watched(self, env: SvEnv, ch_stack: usize, pid: Pid, guard: Guard) -> bool {
        let layout = env.fault.layout;
        match self.phase {
            SigtrapPhase::InShim { shim, .. } => match shim.fault {
                Some(handler) => handler.watched(env.fault, ch_stack, pid, guard),
                None => guard.calm(layout),
            },
            // Wherever the shim has returned to, the thread does not run yet.
            SigtrapPhase::NewAddr
            | SigtrapPhase::NewCount { .. }
            | SigtrapPhase::DelAddr
            | SigtrapPhase::DelCount { .. } => if self.pid == pid {
                guard.shut()
            } else {
                guard.calm(layout)
            },
            _ => guard.calm(layout),
        }
    }

    proof fn lemma_shim_turn(
        self,
        env: SvEnv,
        pages: Seq<usize>,
        ch_stack: usize,
        acc_events: Seq<AccessEvent>,
        pid: Pid,
        guard: Guard,
        reply: Reply<Found>,
    )
        requires
            env.fault.layout.wf(),
            stack_apart(env.fault, ch_stack),
            self.phase is InShim,
            self.watched(env, ch_stack, pid, guard),
        ensures
            ({
                let turn = self.next(env, pages, ch_stack, acc_events, reply);
                let end = guard.obey_all(env.fault.layout, pid, Set::empty(), turn.cmds);
                &&& !end.leaked
                &&& turn.step matches Step::Ask(next) ==> next.watched(env, ch_stack, pid, end)
                &&& turn.step matches Step::Done(Ok(_)) ==> end.calm(env.fault.layout)
            }),
    {
        let layout = env.fault.layout;
        let turn = self.next(env, pages, ch_stack, acc_events, reply);
        if let SigtrapPhase::InShim { shim, .. } = self.phase {
            match shim.fault {
                Some(handler) => {
                    handler.lemma_watched_turn::<Seq<AccessEvent>>(
                        env.fault,
                        pages,
                        ch_stack,
                        pid,
                        guard,
                        reply,
                    );
                },
                None => {
                    assert(crate::mempr::tame(layout, turn.cmds));
                    crate::mempr::lemma_tame(layout, pid, guard, turn.cmds);
                    if crate::native_lib::catching::caught(shim.wait, reply) is Some {
                        assert(turn.cmds =~= seq![]);
                    }
                },
            }
        }
    }

    proof fn lemma_watched_turn(
        self,
        env: SvEnv,
        pages: Seq<usize>,
        ch_stack: usize,
        acc_events: Seq<AccessEvent>,
        pid: Pid,
        guard: Guard,
        reply: Reply<Found>,
    )
        requires
            env.fault.layout.wf(),
            shims_apart(env),
            stack_apart(env.fault, ch_stack),
            self.watched(env, ch_stack, pid, guard),
        ensures
            ({
                let turn = self.next(env, pages, ch_stack, acc_events, reply);
                let end = guard.obey_all(env.fault.layout, pid, Set::empty(), turn.cmds);
                &&& !end.leaked
                &&& turn.step matches Step::Ask(next) ==> next.watched(env, ch_stack, pid, end)
                &&& turn.step matches Step::Done(Ok(_)) ==> end.calm(env.fault.layout)
            }),
    {
        let layout = env.fault.layout;
        let turn = self.next(env, pages, ch_stack, acc_events, reply);
        match self.phase {
            SigtrapPhase::InShim { .. } => {
                self.lemma_shim_turn(env, pages, ch_stack, acc_events, pid, guard, reply);
            },
            SigtrapPhase::Returned => {
                reveal_with_fuel(Guard::obey_all, 2);
                if self.pid != pid {
                    assert(crate::mempr::spares(pid, turn.cmds));
                    crate::mempr::lemma_spares(layout, pid, guard, Set::empty(), turn.cmds);
                }
            },
            SigtrapPhase::NewAddr
            | SigtrapPhase::NewCount { .. }
            | SigtrapPhase::DelAddr
            | SigtrapPhase::DelCount { .. } => {
                if self.pid != pid {
                    assert(crate::mempr::spares(pid, turn.cmds));
                    crate::mempr::lemma_spares(layout, pid, guard, Set::empty(), turn.cmds);
                } else if turn.cmds.len() > 0 {
                    let traps = env.libc.trapping::<Seq<AccessEvent>>(pid);
                    let run_on = seq![Command::<Seq<AccessEvent>>::Syscall(pid)];
                    assert(turn.cmds =~= traps + run_on);
                    crate::mempr::lemma_obey_add(
                        guard,
                        layout,
                        pid,
                        Set::empty(),
                        traps,
                        run_on,
                    );
                    lemma_writes_only::<Seq<AccessEvent>>(guard, env.fault, pid, traps);
                    reveal_with_fuel(Guard::obey_all, 2);
                    assert(run_on.drop_last() =~= seq![]);
                }
            },
            _ => {
                assert(crate::mempr::tame(layout, turn.cmds));
                crate::mempr::lemma_tame(layout, pid, guard, turn.cmds);
            },
        }
    }
}

/// Where no page is accessible, writing to memory keeps it so.
proof fn lemma_writes_only<E>(guard: Guard, env: FaultEnv, pid: Pid, cmds: Seq<Command<E>>)
    requires
        guard.shut(),
        forall|i: int| 0 <= i < cmds.len() ==> #[trigger] cmds[i] is Write,
    ensures
        guard.obey_all(env.layout, pid, Set::empty(), cmds).shut(),
    decreases cmds.len(),
{
    if cmds.len() > 0 {
        assert(cmds[cmds.len() - 1] is Write);
        lemma_writes_only(guard, env, pid, cmds.drop_last());
    }
}

impl SvState {
    /// How far the pages of a thread are open in each mode.
    spec fn watched(self, pid: Pid, guard: Guard) -> bool {
        let env = self.env;
        &&& self.ch_stack matches Some(stack) ==> stack_apart(env.fault, stack)
        &&& match self.mode {
            SvMode::Segfault(handler) => self.ch_stack is Some && handler.watched(
                env.fault,
                self.ch_stack->0,
                pid,
                guard,
            ),
            SvMode::Sigtrap(handler) => self.ch_stack is Some && handler.watched(
                env,
                self.ch_stack->0,
                pid,
                guard,
            ),
            _ => guard.calm(env.fault.layout),
        }
    }

    proof fn lemma_watched_turn(self, pid: Pid, guard: Guard, reply: Reply<Found>)
        requires
            self.env.fault.layout.wf(),
            shims_apart(self.env),
            stacks_apart(self.env, seq![reply]),
            self.watched(pid, guard),
        ensures
            ({
                let turn = self.next(reply);
                let end = guard.obey_all(self.env.fault.layout, pid, Set::empty(), turn.cmds);
                &&& !end.leaked
                &&& turn.step matches Step::Ask(next) ==> next.watched(pid, end) && next.env
                    == self.env
            }),
    {
        let layout = self.env.fault.layout;
        let turn = self.next(reply);
        assert(seq![reply][0] == reply);
        match self.mode {
            SvMode::Segfault(handler) => {
                handler.lemma_watched_turn::<Seq<AccessEvent>>(
                    self.env.fault,
                    self.ch_pages,
                    self.ch_stack->0,
                    pid,
                    guard,
                    reply,
                );
            },
            SvMode::Sigtrap(handler) => {
                handler.lemma_watched_turn(
                    self.env,
                    self.ch_pages,
                    self.ch_stack->0,
                    self.acc_events,
                    pid,
                    guard,
                    reply,
                );
            },
            _ => {
                assert(crate::mempr::tame(layout, turn.cmds));
                crate::mempr::lemma_tame(layout, pid, guard, turn.cmds);
            },
        }
    }

    proof fn lemma_watched_run(self, pid: Pid, guard: Guard, replies: Seq<Reply<Found>>)
        requires
            self.env.fault.layout.wf(),
            shims_apart(self.env),
            stacks_apart(self.env, replies),
            self.watched(pid, guard),
        ensures
            ({
                let turn = self.run(replies);
                let end = guard.obey_all(self.env.fault.layout, pid, Set::empty(), turn.cmds);
                &&& !end.leaked
                &&& turn.step matches Step::Ask(next) ==> next.watched(pid, end)
            }),
        decreases replies.len(),
    {
        if replies.len() > 0 {
            let layout = self.env.fault.layout;
            let turn = self.next(replies[0]);
            let mid = guard.obey_all(layout, pid, Set::empty(), turn.cmds);
            self.lemma_watched_turn(pid, guard, replies[0]);
            if let Step::Ask(next) = turn.step {
                let rest = replies.skip(1);
                assert forall|i: int| 0 <= i < rest.len() implies (
                #[trigger] rest[i] matches Reply::Request(Some(TraceRequest::StartFfi(info)))
                    ==> stack_apart(self.env.fault, info.stack_ptr)) by {
                    assert(rest[i] == replies[i + 1]);
                }
                next.lemma_watched_run(pid, mid, rest);
                crate::mempr::lemma_obey_add(
                    guard,
                    layout,
                    pid,
                    Set::empty(),
                    turn.cmds,
                    next.run(rest).cmds,
                );
            }
        }
    }
}

/// However the children behave for as long as the supervisor runs, no thread is ever let
/// run on foreign code or on a shim with a page accessible, and whenever the supervisor
/// is not in the middle of something no page is accessible at all.
pub proof fn law_never_open_to_foreign_code(
    listener: ChildListener,
    init_pid: Pid,
    env: SvEnv,
    pid: Pid,
    guard: Guard,
    replies: Seq<Reply<Found>>,
)
    requires
        env.fault.layout.wf(),
        shims_apart(env),
        stacks_apart(env, replies),
        guard.shut(),
        guard.regs is None,
    ensures
        ({
            let turn = SvState::initial(listener, init_pid, env).run(replies);
            let end = guard.obey_all(env.fault.layout, pid, Set::empty(), turn.cmds);
            &&& !end.leaked
            &&& turn.step matches Step::Ask(next) ==> next.mode is Listening ==> end.open
                == Set::<int>::empty()
        }),
{
    SvState::initial(listener, init_pid, env).lemma_watched_run(pid, guard, replies);
}

} // verus!
