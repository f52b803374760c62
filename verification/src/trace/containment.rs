//! Why the pages of the child are never open to foreign code.
use vstd::prelude::*;

use crate::mempr::{Guard, MemprLayout};
use crate::regs::UserRegs;
use crate::trace::listener::ChildListener;
use crate::trace::segfault::{Fault, Found, SegfaultHandler, SegfaultPhase};
use crate::trace::sigtrap::{Intercept, InterceptPhase, SigtrapHandler};
use crate::trace::sv_loop::{MemRecord, SvEnv, SvMode, SvState};
use crate::trace::ExecError;
use crate::tracee::{Command, Pid, Reply, Step, Turn};

verus! {

/// The pages that are opened for an access: the one it starts on, and the next if that
/// is one of ours.
pub open spec fn fault_pages(layout: MemprLayout, pages: Seq<usize>, addr: usize) -> Set<int> {
    let page = crate::pages::page_base(addr, layout.page_size);
    crate::mempr::page_set(
        page,
        crate::trace::segfault::span(pages, page, layout.page_size),
        layout.page_size,
    )
}

impl SegfaultHandler {
    /// What a series of replies leads to.
    pub open spec fn run<E>(
        self,
        layout: MemprLayout,
        pages: Seq<usize>,
        ch_stack: usize,
        replies: Seq<Reply<Found>>,
    ) -> Turn<E, SegfaultHandler, Result<(), ExecError>>
        decreases replies.len(),
    {
        if replies.len() == 0 {
            Turn { cmds: seq![], step: Step::Ask(self) }
        } else {
            let turn = self.next::<E>(layout, pages, ch_stack, replies[0]);
            match turn.step {
                Step::Ask(next) => {
                    let rest = next.run::<E>(layout, pages, ch_stack, replies.skip(1));
                    Turn { cmds: turn.cmds + rest.cmds, step: rest.step }
                },
                _ => turn,
            }
        }
    }

    /// The registers that were read once the instruction was executed.
    spec fn regs_after(self) -> Option<UserRegs> {
        match self.phase {
            SegfaultPhase::Reading { regs, .. } => Some(regs),
            SegfaultPhase::Reprotecting { regs, .. } => Some(regs),
            _ => None,
        }
    }

    /// How far the pages are open at each phase.
    spec fn guarded(
        self,
        layout: MemprLayout,
        pages: Seq<usize>,
        addr: usize,
        regs: Option<UserRegs>,
        guard: Guard,
    ) -> bool {
        let page = crate::pages::page_base(addr, layout.page_size);
        let count = crate::trace::segfault::span(pages, page, layout.page_size);
        let run = fault_pages(layout, pages, addr);
        &&& !guard.leaked
        &&& !guard.missed
        &&& match self.phase {
            SegfaultPhase::Locating => guard.open == Set::<int>::empty(),
            SegfaultPhase::GettingRegs { addr: a, .. } => a == addr && guard.open == Set::<
                int,
            >::empty(),
            SegfaultPhase::Unprotecting { fault, wait } => {
                &&& fault.addr == addr
                &&& Some(fault.regs) == regs
                &&& wait.pid == self.pid
                &&& guard.inside(layout.off)
                &&& guard.page_addr == page
                &&& guard.page_count == count
                &&& guard.open == run
            },
            SegfaultPhase::Stepping { fault }
            | SegfaultPhase::Stepped { fault }
            | SegfaultPhase::Reading { fault, .. } => {
                &&& fault.addr == addr
                &&& guard.page_addr == page
                &&& guard.page_count == count
                &&& guard.open == run
                &&& guard.stepped_with == regs
            },
            SegfaultPhase::Reprotecting { wait, .. } => {
                &&& wait.pid == self.pid
                &&& guard.inside(layout.on)
                &&& guard.open == Set::<int>::empty()
                &&& guard.stepped_with == regs
            },
        }
    }

    proof fn lemma_turn_guarded<E>(
        self,
        layout: MemprLayout,
        pages: Seq<usize>,
        ch_stack: usize,
        reply: Reply<Found>,
        addr: usize,
        regs: Option<UserRegs>,
        guard: Guard,
        needs: Set<int>,
    )
        requires
            layout.wf(),
            needs.subset_of(fault_pages(layout, pages, addr)),
            self.guarded(layout, pages, addr, regs, guard),
            self.phase is Locating ==> (reply matches Reply::MaybeAddr(Some(a)) ==> a == addr),
            self.phase is GettingRegs ==> (reply matches Reply::Regs(r) ==> regs == Some(r)),
        ensures
            ({
                let turn = self.next::<E>(layout, pages, ch_stack, reply);
                let end = guard.obey_all(layout, self.pid, needs, turn.cmds);
                match turn.step {
                    Step::Ask(next) => {
                        &&& next.pid == self.pid
                        &&& next.guarded(layout, pages, addr, regs, end)
                        &&& next.regs_after() == self.regs_after() || (self.regs_after() is None
                            && self.phase is Stepped && reply == Reply::<Found>::Regs(
                            next.regs_after()->0,
                        ))
                        &&& !(next.phase is Locating)
                        &&& next.phase is GettingRegs ==> self.phase is Locating
                    },
                    Step::Done(Ok(())) => {
                        &&& end.shut()
                        &&& end.regs is None
                        &&& end.stepped_with == regs
                        &&& end.freed_with == self.regs_after()
                        &&& self.regs_after() is Some
                    },
                    _ => !end.leaked && !end.missed,
                }
            }),
    {
        reveal_with_fuel(Guard::obey_all, 5);
        let page = crate::pages::page_base(addr, layout.page_size);
        let count = crate::trace::segfault::span(pages, page, layout.page_size);
        let run = fault_pages(layout, pages, addr);
        let turn = self.next::<E>(layout, pages, ch_stack, reply);
        assert(Set::<int>::empty().union(run) =~= run);
        assert(run.union(run) =~= run);
        assert(run.difference(run) =~= Set::<int>::empty());
        assert(Set::<int>::empty().difference(
            crate::mempr::page_set(guard.page_addr, guard.page_count, layout.page_size),
        ) =~= Set::<int>::empty());
        match self.phase {
            SegfaultPhase::Locating => {
                assert(crate::mempr::spares(self.pid, turn.cmds));
                crate::mempr::lemma_spares(layout, self.pid, guard, needs, turn.cmds);
            },
            SegfaultPhase::Unprotecting { fault, wait } => {
                let waited = wait.next::<E, Found>(reply).cmds;
                crate::mempr::lemma_obey_add(
                    guard,
                    layout,
                    self.pid,
                    needs,
                    waited,
                    seq![
                        Command::<E>::SetRegs(self.pid, fault.regs),
                        Command::<E>::Step(self.pid),
                    ],
                );
            },
            SegfaultPhase::Reprotecting { regs: r, wait } => {
                let waited = wait.next::<E, Found>(reply).cmds;
                crate::mempr::lemma_obey_add(
                    guard,
                    layout,
                    self.pid,
                    needs,
                    waited,
                    seq![
                        Command::<E>::SetRegs(self.pid, r),
                        Command::<E>::Syscall(self.pid),
                    ],
                );
            },
            SegfaultPhase::GettingRegs { stack_ptr, .. } => {
                if let Reply::Regs(r) = reply {
                    let fault = Fault { addr, stack_ptr, regs: r };
                    assert(self.unprotecting::<E>(layout, pages, fault) =~= seq![
                        Command::<E>::Write(self.pid, layout.page_addr_at, page),
                        Command::<E>::Write(self.pid, layout.page_count_at, count),
                        Command::<E>::SetRegs(
                            self.pid,
                            crate::mempr::jump(r, layout.off, stack_ptr),
                        ),
                        Command::<E>::Cont(self.pid, None),
                    ]);
                }
            },
            SegfaultPhase::Reading { fault, regs: r } => {
                assert(self.reprotecting::<E>(layout, r, fault.stack_ptr) =~= seq![
                    Command::<E>::SetRegs(
                        self.pid,
                        crate::mempr::jump(r, layout.on, fault.stack_ptr),
                    ),
                    Command::<E>::Cont(self.pid, None),
                ]);
            },
            _ => {},
        }
    }

    /// How many replies there are before any that tells the registers after the
    /// instruction.
    spec fn lead(self) -> int {
        match self.phase {
            SegfaultPhase::Locating => 2,
            SegfaultPhase::GettingRegs { .. } => 1,
            _ => 0,
        }
    }

    proof fn lemma_run_guarded<E>(
        self,
        layout: MemprLayout,
        pages: Seq<usize>,
        ch_stack: usize,
        replies: Seq<Reply<Found>>,
        addr: usize,
        regs: Option<UserRegs>,
        guard: Guard,
        needs: Set<int>,
    )
        requires
            layout.wf(),
            needs.subset_of(fault_pages(layout, pages, addr)),
            self.guarded(layout, pages, addr, regs, guard),
            self.phase is Locating && replies.len() > 0 ==> (replies[0] matches Reply::MaybeAddr(
                Some(a),
            ) ==> a == addr),
            self.phase is Locating && replies.len() > 1 ==> (replies[1] matches Reply::Regs(r)
                ==> regs == Some(r)),
            self.phase is GettingRegs && replies.len() > 0 ==> (replies[0] matches Reply::Regs(r)
                ==> regs == Some(r)),
        ensures
            ({
                let turn = self.run::<E>(layout, pages, ch_stack, replies);
                let end = guard.obey_all(layout, self.pid, needs, turn.cmds);
                &&& !end.leaked
                &&& !end.missed
                &&& turn.step matches Step::Done(Ok(())) ==> {
                    &&& end.shut()
                    &&& end.stepped_with == regs
                    &&& self.regs_after() is Some ==> end.freed_with == self.regs_after()
                    &&& self.regs_after() is None ==> read_after(
                        replies,
                        self.lead(),
                        end.freed_with,
                    )
                }
            }),
        decreases replies.len(),
    {
        if replies.len() == 0 {
            assert(self.run::<E>(layout, pages, ch_stack, replies).cmds =~= seq![]);
        } else {
            let turn = self.next::<E>(layout, pages, ch_stack, replies[0]);
            let mid = guard.obey_all(layout, self.pid, needs, turn.cmds);
            self.lemma_turn_guarded::<E>(
                layout,
                pages,
                ch_stack,
                replies[0],
                addr,
                regs,
                guard,
                needs,
            );
            match turn.step {
                Step::Ask(next) => {
                    let rest = replies.skip(1);
                    if rest.len() > 0 {
                        assert(rest[0] == replies[1]);
                    }
                    next.lemma_run_guarded::<E>(
                        layout,
                        pages,
                        ch_stack,
                        rest,
                        addr,
                        regs,
                        mid,
                        needs,
                    );
                    let after = next.run::<E>(layout, pages, ch_stack, rest);
                    crate::mempr::lemma_obey_add(
                        guard,
                        layout,
                        self.pid,
                        needs,
                        turn.cmds,
                        after.cmds,
                    );
                    let end = mid.obey_all(layout, self.pid, needs, after.cmds);
                    if after.step matches Step::Done(Ok(())) && self.regs_after() is None {
                        if next.regs_after() is Some {
                            assert(replies[0] == Reply::<Found>::Regs(end.freed_with->0));
                        } else {
                            let k = choose|k: int|
                                next.lead() <= k < rest.len() && #[trigger] rest[k] == Reply::<
                                    Found,
                                >::Regs(end.freed_with->0);
                            assert(replies[k + 1] == rest[k]);
                        }
                    }
                },
                _ => {},
            }
        }
    }
}

/// Whether the registers are ones that were read from the thread, by a reply from
/// index `lead` on.
pub open spec fn read_after(
    replies: Seq<Reply<Found>>,
    lead: int,
    regs: Option<UserRegs>,
) -> bool {
    &&& regs is Some
    &&& exists|k: int|
        lead <= k < replies.len() && #[trigger] replies[k] == Reply::<Found>::Regs(regs->0)
}

/// However the child behaves while a fault is handled, it is never let run on foreign
/// code with a page accessible, and the instruction that faulted is executed only
/// with its page accessible, and the next page too if that is one of ours. When the
/// handler comes to its end, no page is left accessible. The instruction is executed
/// with the registers that the thread faulted with, and the thread runs on with
/// those that it had after the instruction.
pub proof fn law_fault_is_contained<E>(
    pid: Pid,
    layout: MemprLayout,
    pages: Seq<usize>,
    ch_stack: usize,
    replies: Seq<Reply<Found>>,
    addr: usize,
    guard: Guard,
)
    requires
        layout.wf(),
        guard.shut(),
        replies.len() > 0,
        replies[0] == Reply::<Found>::MaybeAddr(Some(addr)),
    ensures
        ({
            let needs = fault_pages(layout, pages, addr);
            let turn = (SegfaultHandler { pid, phase: SegfaultPhase::Locating }).run::<E>(
                layout,
                pages,
                ch_stack,
                replies,
            );
            let end = guard.obey_all(layout, pid, needs, turn.cmds);
            &&& !end.leaked
            &&& !end.missed
            &&& turn.step matches Step::Done(Ok(())) ==> {
                &&& end.open == Set::<int>::empty()
                &&& end.stepped_with is Some
                &&& replies[1] == Reply::<Found>::Regs(end.stepped_with->0)
                &&& read_after(replies, 2, end.freed_with)
            }
        }),
{
    let handler = SegfaultHandler { pid, phase: SegfaultPhase::Locating };
    let regs = match replies[1] {
        Reply::Regs(r) => Some(r),
        _ => None,
    };
    let needs = fault_pages(layout, pages, addr);
    handler.lemma_run_guarded::<E>(layout, pages, ch_stack, replies, addr, regs, guard, needs);
    reveal_with_fuel(SegfaultHandler::run, 3);
    let rest = replies.skip(1);
    if rest.len() > 0 {
        assert(rest[0] == replies[1]);
    }
}

/// The pages that are opened for an access include each page of ours that holds a byte of
/// it, if it is not longer than a page.
pub proof fn law_fault_pages_suffice(
    layout: MemprLayout,
    pages: Seq<usize>,
    addr: usize,
    len: int,
)
    requires
        layout.wf(),
        crate::mempr::pages_aligned(pages, layout.page_size),
        len <= layout.page_size,
    ensures
        crate::mempr::touched_pages(pages, layout.page_size, addr, len).subset_of(
            fault_pages(layout, pages, addr),
        ),
{
    let page = crate::pages::page_base(addr, layout.page_size);
    let count = crate::trace::segfault::span(pages, page, layout.page_size);
    assert forall|j: int|
        0 <= j < pages.len() && #[trigger] pages[j] == page + layout.page_size implies count >= 2 by {
        assert(pages.contains(pages[j]));
    }
    crate::mempr::lemma_touched_pages(pages, layout.page_size, addr, len, count);
}

/// Whether the allocation functions are not the routines.
pub open spec fn routines_apart(env: SvEnv) -> bool {
    let layout = env.layout;
    let vals = env.libc_vals;
    &&& vals.malloc_addr != layout.off && vals.malloc_addr != layout.on
    &&& vals.realloc_addr != layout.off && vals.realloc_addr != layout.on
    &&& vals.free_addr != layout.off && vals.free_addr != layout.on
}

impl SegfaultHandler {
    /// Whether the thread that is waited for is the one that faulted.
    spec fn attends(self) -> bool {
        match self.phase {
            SegfaultPhase::Unprotecting { wait, .. } => wait.pid == self.pid,
            SegfaultPhase::Reprotecting { wait, .. } => wait.pid == self.pid,
            _ => true,
        }
    }

    /// How far the pages are open, whatever fault it is.
    spec fn somehow_guarded(self, layout: MemprLayout, pages: Seq<usize>, guard: Guard) -> bool {
        exists|addr: usize, regs: Option<UserRegs>| #[trigger]
            self.guarded(layout, pages, addr, regs, guard)
    }
}

impl Intercept {
    /// Whether the function that runs is not a routine.
    spec fn strays(self, layout: MemprLayout) -> bool {
        self.regs.rip != layout.off && self.regs.rip != layout.on
    }
}

impl SvState {
    /// How far the pages of a thread are open in each mode.
    spec fn guarded(self, pid: Pid, guard: Guard) -> bool {
        let layout = self.env.layout;
        match self.mode {
            SvMode::Segfault(handler) => {
                &&& handler.attends()
                &&& if handler.pid == pid {
                    &&& handler.somehow_guarded(layout, self.ch_pages, guard)
                    &&& handler.phase is Locating || handler.phase is GettingRegs ==> guard.calm(
                        layout,
                    )
                } else {
                    guard.calm(layout)
                }
            },
            SvMode::Sigtrap(handler) => {
                &&& guard.calm(layout)
                &&& !(handler is GettingRegs) ==> handler.call().strays(layout)
            },
            _ => guard.calm(layout),
        }
    }

    proof fn lemma_fault_turn(
        self,
        handler: SegfaultHandler,
        pid: Pid,
        guard: Guard,
        reply: Reply<Found>,
    )
        requires
            self.env.layout.wf(),
            self.mode == SvMode::Segfault(handler),
            self.guarded(pid, guard),
        ensures
            ({
                let turn = self.next(reply);
                let end = guard.obey_all(self.env.layout, pid, Set::empty(), turn.cmds);
                &&& !end.leaked
                &&& turn.step matches Step::Ask(next) ==> next.guarded(pid, end) && next.env
                    == self.env
            }),
    {
        let layout = self.env.layout;
        let turn = handler.next::<MemRecord>(layout, self.ch_pages, self.ch_stack->0, reply);
        let end = guard.obey_all(layout, pid, Set::empty(), turn.cmds);
        assert(self.next(reply).cmds == turn.cmds);
        if handler.pid != pid {
            assert(crate::mempr::spares(pid, turn.cmds));
            crate::mempr::lemma_spares(layout, pid, guard, Set::empty(), turn.cmds);
        } else if handler.phase is Locating {
            assert(crate::mempr::tame(layout, turn.cmds));
            crate::mempr::lemma_tame(layout, pid, guard, turn.cmds);
            if let Step::Ask(next) = turn.step {
                let addr = match reply {
                    Reply::MaybeAddr(Some(addr)) => addr,
                    _ => 0,
                };
                assert(turn.cmds =~= seq![]);
                assert(handler.guarded(layout, self.ch_pages, addr, None, guard));
                assert(next.guarded(layout, self.ch_pages, addr, None, end));
                assert(next.somehow_guarded(layout, self.ch_pages, end));
            }
        } else {
            let (addr, some_regs) = choose|addr: usize, regs: Option<UserRegs>| #[trigger]
                handler.guarded(layout, self.ch_pages, addr, regs, guard);
            let regs = match (handler.phase, reply) {
                (SegfaultPhase::GettingRegs { .. }, Reply::Regs(regs)) => Some(regs),
                _ => some_regs,
            };
            assert(handler.guarded(layout, self.ch_pages, addr, regs, guard));
            handler.lemma_turn_guarded::<MemRecord>(
                layout,
                self.ch_pages,
                self.ch_stack->0,
                reply,
                addr,
                regs,
                guard,
                Set::empty(),
            );
            match turn.step {
                Step::Ask(next) => {
                    assert(next.guarded(layout, self.ch_pages, addr, regs, end));
                    assert(next.somehow_guarded(layout, self.ch_pages, end));
                    assert(next.attends());
                },
                Step::Done(Err(e)) => {
                    assert(e is Died);
                },
                _ => {},
            }
        }
    }

    proof fn lemma_trap_turn(
        self,
        handler: SigtrapHandler,
        pid: Pid,
        guard: Guard,
        reply: Reply<Found>,
    )
        requires
            self.env.layout.wf(),
            routines_apart(self.env),
            self.mode == SvMode::Sigtrap(handler),
            self.guarded(pid, guard),
        ensures
            ({
                let turn = self.next(reply);
                let end = guard.obey_all(self.env.layout, pid, Set::empty(), turn.cmds);
                &&& !end.leaked
                &&& turn.step matches Step::Ask(next) ==> next.guarded(pid, end) && next.env
                    == self.env
            }),
    {
        let layout = self.env.layout;
        let turn = handler.next::<MemRecord, Found>(self.env.libc_vals, reply);
        assert(self.next(reply).cmds == turn.cmds);
        if handler is GettingRegs {
            assert(crate::mempr::tame(layout, turn.cmds));
            crate::mempr::lemma_tame(layout, pid, guard, turn.cmds);
        } else {
            let call = handler.call();
            let called = call.next::<MemRecord, Found>(reply);
            assert(turn.cmds == called.cmds);
            match call.phase {
                InterceptPhase::Returned { ret_addr, ret_bytes } => {
                    if let Reply::Regs(regs) = reply {
                        // Wherever the thread stands, it is let run on from there.
                        reveal_with_fuel(Guard::obey_all, 5);
                        let cmds = call.retrapping::<MemRecord>(ret_addr, ret_bytes, regs);
                        assert(cmds.drop_last().last() is SetRegs);
                        assert(cmds.drop_last().drop_last().last() is Write);
                        assert(cmds.drop_last().drop_last().drop_last().last() is Write);
                        assert(guard.obey_all(layout, pid, Set::empty(), cmds).calm(layout));
                    }
                },
                _ => {
                    assert(crate::mempr::tame(layout, turn.cmds));
                    crate::mempr::lemma_tame(layout, pid, guard, turn.cmds);
                },
            }
        }
    }

    proof fn lemma_turn_guarded(self, pid: Pid, guard: Guard, reply: Reply<Found>)
        requires
            self.env.layout.wf(),
            routines_apart(self.env),
            self.guarded(pid, guard),
        ensures
            ({
                let turn = self.next(reply);
                let end = guard.obey_all(self.env.layout, pid, Set::empty(), turn.cmds);
                &&& !end.leaked
                &&& turn.step matches Step::Ask(next) ==> next.guarded(pid, end) && next.env
                    == self.env
            }),
    {
        let layout = self.env.layout;
        match self.mode {
            SvMode::Segfault(handler) => {
                self.lemma_fault_turn(handler, pid, guard, reply);
            },
            SvMode::Sigtrap(handler) => {
                self.lemma_trap_turn(handler, pid, guard, reply);
            },
            _ => {
                let turn = self.next(reply);
                assert(crate::mempr::tame(layout, turn.cmds));
                crate::mempr::lemma_tame(layout, pid, guard, turn.cmds);
                let end = guard.obey_all(layout, pid, Set::empty(), turn.cmds);
                if let Step::Ask(next) = turn.step {
                    if let SvMode::Segfault(handler) = next.mode {
                        assert(turn.cmds =~= seq![]);
                        assert(end == guard);
                        assert(handler.guarded(layout, next.ch_pages, 0, None, guard));
                        assert(handler.somehow_guarded(layout, next.ch_pages, guard));
                    }
                }
            },
        }
    }

    proof fn lemma_run_guarded(self, pid: Pid, guard: Guard, replies: Seq<Reply<Found>>)
        requires
            self.env.layout.wf(),
            routines_apart(self.env),
            self.guarded(pid, guard),
        ensures
            ({
                let turn = self.run(replies);
                let end = guard.obey_all(self.env.layout, pid, Set::empty(), turn.cmds);
                &&& !end.leaked
                &&& turn.step matches Step::Ask(next) ==> next.guarded(pid, end)
            }),
        decreases replies.len(),
    {
        if replies.len() > 0 {
            let turn = self.next(replies[0]);
            let mid = guard.obey_all(self.env.layout, pid, Set::empty(), turn.cmds);
            self.lemma_turn_guarded(pid, guard, replies[0]);
            if let Step::Ask(next) = turn.step {
                let rest = next.run(replies.skip(1));
                next.lemma_run_guarded(pid, mid, replies.skip(1));
                crate::mempr::lemma_obey_add(
                    guard,
                    self.env.layout,
                    pid,
                    Set::empty(),
                    turn.cmds,
                    rest.cmds,
                );
            }
        }
    }
}

/// However the children behave for as long as the supervisor runs, no thread is ever let
/// run on foreign code with a page accessible, and whenever the supervisor is not in the
/// middle of handling a fault no page is accessible at all.
pub proof fn law_never_open_to_foreign_code(
    listener: ChildListener,
    env: SvEnv,
    pid: Pid,
    guard: Guard,
    replies: Seq<Reply<Found>>,
)
    requires
        env.layout.wf(),
        routines_apart(env),
        guard.shut(),
        guard.regs is None,
    ensures
        ({
            let turn = SvState::initial(listener, env).run(replies);
            let end = guard.obey_all(env.layout, pid, Set::empty(), turn.cmds);
            &&& !end.leaked
            &&& turn.step matches Step::Ask(next) ==> !(next.mode is Segfault) ==> end.open
                == Set::<int>::empty()
        }),
{
    SvState::initial(listener, env).lemma_run_guarded(pid, guard, replies);
}

} // verus!
