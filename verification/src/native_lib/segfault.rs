//! What happens when the child touches memory that it cannot.
use vstd::prelude::*;

use crate::arch::{ARCH_MAX_INSTR_SIZE, ARCH_WORD_SIZE};
use crate::mempr::{jump_into, MemprLayout};
use crate::native_lib::access::Found;
use crate::native_lib::wait::{InitialCont, WaitForSignal};
use crate::native_lib::{AccessEvent, ExecEnd};
use crate::pages::{has_page, owns, page_of};
use crate::regs::UserRegs;
use crate::tracee::{
    Command, Note, Outbox, Pid, Query, Reply, Signal, Step, Turn, WaitId, WaitStatus,
};

verus! {

/// What it takes to open pages in the child and close them again.
#[derive(Debug, Clone, Copy, PartialEq, Eq, Structural)]
pub struct FaultEnv {
    pub layout: MemprLayout,
    /// The size of the stack that the routines run on.
    pub stack_size: usize,
}

/// Some pages to be opened.
#[derive(Debug, Clone, Copy, PartialEq, Eq, Structural)]
pub struct PageSpan {
    /// An address in the first of them.
    pub addr: usize,
    /// How many they are.
    pub count: usize,
}

/// How far the handling of a fault has come.
#[derive(Debug, Clone, Copy, PartialEq, Eq, Structural)]
pub enum SegfaultPhase {
    /// The registers of the thread are being looked at.
    GettingRegs,
    /// The instruction that faulted is being read.
    Reading { stack_ptr: usize, regs: UserRegs },
    /// The memory is being unprotected, and has come to the span with this index.
    Unprotecting { stack_ptr: usize, regs: UserRegs, at: usize, wait: WaitForSignal },
    /// The instruction is being executed.
    Stepping { stack_ptr: usize },
    /// The instruction was executed; the registers are being looked at.
    Stepped { stack_ptr: usize },
    /// The memory is being protected again, and has come to the span with this index.
    Reprotecting { stack_ptr: usize, regs: UserRegs, at: usize, wait: WaitForSignal },
}

/// Finds out which accesses caused a fault and logs them down if they are to our memory,
/// or kills the thread otherwise. The accesses are let through by unprotecting the
/// memory for just one instruction.
#[derive(Debug)]
pub struct SegfaultHandler {
    pub pid: Pid,
    pub phase: SegfaultPhase,
    /// The pages to unprotect, one span for each access.
    pub spans: Vec<PageSpan>,
}

/// The state of a handler, as plain values.
pub ghost struct SegfaultState {
    pub pid: Pid,
    pub phase: SegfaultPhase,
    pub spans: Seq<PageSpan>,
}

impl View for SegfaultHandler {
    type V = SegfaultState;

    open spec fn view(&self) -> SegfaultState {
        SegfaultState { pid: self.pid, phase: self.phase, spans: self.spans@ }
    }
}

/// How many words it takes to read the longest instruction.
pub const INSTR_WORDS: usize = (ARCH_MAX_INSTR_SIZE + ARCH_WORD_SIZE - 1) / ARCH_WORD_SIZE;

/// Whether an access starts on one of the pages.
pub open spec fn is_ours(pages: Seq<usize>, page_size: usize) -> spec_fn(AccessEvent) -> bool {
    |event: AccessEvent| crate::pages::owned(pages, page_size, event.range().addr)
}

/// The accesses that start on one of the pages.
pub open spec fn ours(events: Seq<AccessEvent>, pages: Seq<usize>, page_size: usize) -> Seq<
    AccessEvent,
> {
    events.filter(is_ours(pages, page_size))
}

/// Whether the page that an access starts on is not the last there is.
pub open spec fn spannable(event: AccessEvent, page_size: usize) -> bool {
    crate::pages::page_base(event.range().addr, page_size) + page_size <= usize::MAX
}

/// The pages to unprotect for an access: the one it starts on, and also the next if that
/// is ours, in case the access spans the boundary.
pub open spec fn span_of(event: AccessEvent, pages: Seq<usize>, page_size: usize) -> PageSpan {
    let addr = event.range().addr;
    let page = crate::pages::page_base(addr, page_size);
    PageSpan {
        addr,
        count: if pages.contains((page + page_size) as usize) {
            2
        } else {
            1
        },
    }
}

/// The pages to unprotect for some accesses.
pub open spec fn spans_of(events: Seq<AccessEvent>, pages: Seq<usize>, page_size: usize) -> Seq<
    PageSpan,
> {
    events.map_values(|event: AccessEvent| span_of(event, pages, page_size))
}

/// The commands that report accesses to memory that is not ours.
pub open spec fn reporting<E>(events: Seq<AccessEvent>) -> Seq<Command<E>> {
    events.map_values(
        |event: AccessEvent| Command::Note(Note::ForeignEvent(event)),
    )
}

/// The commands that fill `size` bytes of stack with zeros.
pub open spec fn zeroing<E>(pid: Pid, ch_stack: usize, size: usize) -> Seq<Command<E>> {
    Seq::new(
        ((size + ARCH_WORD_SIZE - 1) / (ARCH_WORD_SIZE as int)) as nat,
        |i: int| Command::Write(pid, (ch_stack + i * ARCH_WORD_SIZE) as usize, 0),
    )
}

/// The commands that send a thread into a routine to deal with a span of pages.
pub open spec fn entering<E>(
    pid: Pid,
    env: FaultEnv,
    ch_stack: usize,
    span: PageSpan,
    regs: UserRegs,
) -> Seq<Command<E>> {
    zeroing(pid, ch_stack, env.stack_size) + seq![
        Command::Write(
            pid,
            env.layout.page_addr_at,
            crate::pages::page_base(span.addr, env.layout.page_size),
        ),
        Command::Write(pid, env.layout.page_count_at, span.count),
        Command::SetRegs(pid, regs),
    ] + WaitForSignal::opening(Some(pid), InitialCont::Yes)
}

/// The accesses that decoding an instruction came to.
pub open spec fn accesses(found: Found) -> Option<Seq<AccessEvent>> {
    match found {
        Ok(Some(events)) => Some(events@),
        _ => None,
    }
}

impl SegfaultState {
    /// What the handler hangs on.
    pub open spec fn asks(self) -> Query {
        match self.phase {
            SegfaultPhase::GettingRegs => Query::GetRegs(self.pid),
            SegfaultPhase::Reading { regs, .. } => Query::ReadWords {
                pid: self.pid,
                addr: regs.rip,
                stride: ARCH_WORD_SIZE,
                count: INSTR_WORDS,
                lenient: true,
            },
            SegfaultPhase::Unprotecting { wait, .. } => wait.asks(),
            SegfaultPhase::Stepping { .. } => Query::Wait(WaitId::Pid(self.pid)),
            SegfaultPhase::Stepped { .. } => Query::GetRegs(self.pid),
            SegfaultPhase::Reprotecting { wait, .. } => wait.asks(),
        }
    }

    /// Whether the state is one that the handler can be in.
    pub open spec fn wf(self, env: FaultEnv, ch_stack: usize) -> bool {
        &&& env.layout.page_size > 0
        &&& match self.phase {
            SegfaultPhase::GettingRegs | SegfaultPhase::Reading { .. } => true,
            SegfaultPhase::Unprotecting { at, .. } | SegfaultPhase::Reprotecting { at, .. } => at
                < self.spans.len() && ch_stack + env.stack_size <= usize::MAX,
            SegfaultPhase::Stepping { .. } | SegfaultPhase::Stepped { .. } => 0 < self.spans.len()
                && ch_stack + env.stack_size <= usize::MAX,
        }
    }

    /// The registers that the thread faulted with, while its instruction is read.
    pub open spec fn fault_regs(self) -> Option<UserRegs> {
        match self.phase {
            SegfaultPhase::Reading { regs, .. } => Some(regs),
            _ => None,
        }
    }

    /// The handler at another phase.
    pub open spec fn enter<E>(self, phase: SegfaultPhase, cmds: Seq<Command<E>>) -> Turn<
        E,
        SegfaultState,
        Result<(), ExecEnd>,
    > {
        Turn { cmds, step: Step::Ask(SegfaultState { phase, ..self }) }
    }

    /// The handler sends the thread off to unprotect a span.
    pub open spec fn unprotect<E>(
        self,
        env: FaultEnv,
        ch_stack: usize,
        stack_ptr: usize,
        regs: UserRegs,
        at: int,
        cmds: Seq<Command<E>>,
    ) -> Turn<E, SegfaultState, Result<(), ExecEnd>> {
        self.enter(
            SegfaultPhase::Unprotecting {
                stack_ptr,
                regs,
                at: at as usize,
                wait: WaitForSignal::fresh(Some(self.pid), Signal::Stop),
            },
            cmds + entering(
                self.pid,
                env,
                ch_stack,
                self.spans[at],
                crate::mempr::jump(regs, env.layout.off, stack_ptr),
            ),
        )
    }

    /// The handler sends the thread off to protect a span again.
    pub open spec fn reprotect<E>(
        self,
        env: FaultEnv,
        ch_stack: usize,
        stack_ptr: usize,
        regs: UserRegs,
        at: int,
        cmds: Seq<Command<E>>,
    ) -> Turn<E, SegfaultState, Result<(), ExecEnd>> {
        self.enter(
            SegfaultPhase::Reprotecting {
                stack_ptr,
                regs,
                at: at as usize,
                wait: WaitForSignal::fresh(Some(self.pid), Signal::Stop),
            },
            cmds + entering(
                self.pid,
                env,
                ch_stack,
                self.spans[at],
                crate::mempr::jump(regs, env.layout.on, stack_ptr),
            ),
        )
    }

    /// What follows when the accesses of the instruction are known. If none of them is to
    /// our memory, this was a real fault.
    pub open spec fn on_accesses<E>(
        self,
        env: FaultEnv,
        pages: Seq<usize>,
        ch_stack: usize,
        stack_ptr: usize,
        regs: UserRegs,
        events: Seq<AccessEvent>,
    ) -> Turn<E, SegfaultState, Result<(), ExecEnd>> {
        let page_size = env.layout.page_size;
        let ours = ours(events, pages, page_size);
        if events.len() == 0 {
            Turn { cmds: seq![], step: Step::Abort }
        } else if ours.len() == 0 {
            Turn {
                cmds: reporting(events) + seq![
                    Command::Note(Note::RegisterDump(self.pid)),
                    Command::Kill(self.pid),
                ],
                step: Step::Done(Err(ExecEnd(None))),
            }
        } else if !(forall|i: int| 0 <= i < ours.len() ==> spannable(#[trigger] ours[i], page_size))
            || ch_stack + env.stack_size > usize::MAX {
            Turn { cmds: seq![], step: Step::Abort }
        } else {
            (SegfaultState { spans: spans_of(ours, pages, page_size), ..self }).unprotect(
                env,
                ch_stack,
                stack_ptr,
                regs,
                0,
                seq![],
            )
        }
    }

    /// What a reply leads to, if foreign code was given these pages and `ch_stack` is the
    /// address of the stack that was set aside.
    pub open spec fn next<E>(
        self,
        env: FaultEnv,
        pages: Seq<usize>,
        ch_stack: usize,
        reply: Reply<Found>,
    ) -> Turn<E, SegfaultState, Result<(), ExecEnd>> {
        match (self.phase, reply) {
            (SegfaultPhase::GettingRegs, Reply::Regs(regs)) => if ch_stack + env.stack_size / 2
                > usize::MAX || regs.rip + (INSTR_WORDS - 1) * ARCH_WORD_SIZE > usize::MAX {
                Turn { cmds: seq![], step: Step::Abort }
            } else {
                self.enter(
                    SegfaultPhase::Reading {
                        stack_ptr: (ch_stack + env.stack_size / 2) as usize,
                        regs,
                    },
                    seq![],
                )
            },
            (SegfaultPhase::Reading { stack_ptr, regs }, Reply::Decoded(found)) => match accesses(
                found,
            ) {
                Some(events) => self.on_accesses(env, pages, ch_stack, stack_ptr, regs, events),
                None => Turn { cmds: seq![], step: Step::Abort },
            },
            (SegfaultPhase::Unprotecting { stack_ptr, regs, at, wait }, _) => {
                let turn = wait.next::<E, Found>(reply);
                match turn.step {
                    Step::Ask(wait) => self.enter(
                        SegfaultPhase::Unprotecting { stack_ptr, regs, at, wait },
                        turn.cmds,
                    ),
                    Step::Done(Ok(_)) => if at + 1 < self.spans.len() {
                        self.unprotect(env, ch_stack, stack_ptr, regs, at + 1, turn.cmds)
                    } else {
                        self.enter(
                            SegfaultPhase::Stepping { stack_ptr },
                            turn.cmds + seq![
                                Command::SetRegs(self.pid, regs),
                                Command::Step(self.pid),
                            ],
                        )
                    },
                    Step::Done(Err(e)) => Turn { cmds: turn.cmds, step: Step::Done(Err(e)) },
                    Step::Abort => Turn { cmds: turn.cmds, step: Step::Abort },
                }
            },
            (SegfaultPhase::Stepping { stack_ptr }, Reply::Status(None)) => Turn {
                cmds: seq![],
                step: Step::Done(Err(ExecEnd(None))),
            },
            (SegfaultPhase::Stepping { stack_ptr }, Reply::Status(Some(status))) => if faulted(
                status,
            ) {
                Turn { cmds: seq![], step: Step::Abort }
            } else {
                self.enter(SegfaultPhase::Stepped { stack_ptr }, seq![])
            },
            (SegfaultPhase::Stepped { stack_ptr }, Reply::Regs(regs)) => self.reprotect(
                env,
                ch_stack,
                stack_ptr,
                regs,
                0,
                seq![],
            ),
            (SegfaultPhase::Reprotecting { stack_ptr, regs, at, wait }, _) => {
                let turn = wait.next::<E, Found>(reply);
                match turn.step {
                    Step::Ask(wait) => self.enter(
                        SegfaultPhase::Reprotecting { stack_ptr, regs, at, wait },
                        turn.cmds,
                    ),
                    Step::Done(Ok(_)) => if at + 1 < self.spans.len() {
                        self.reprotect(env, ch_stack, stack_ptr, regs, at + 1, turn.cmds)
                    } else {
                        Turn {
                            cmds: turn.cmds + seq![
                                Command::SetRegs(self.pid, regs),
                                Command::Syscall(self.pid),
                            ],
                            step: Step::Done(Ok(())),
                        }
                    },
                    Step::Done(Err(e)) => Turn { cmds: turn.cmds, step: Step::Done(Err(e)) },
                    Step::Abort => Turn { cmds: turn.cmds, step: Step::Abort },
                }
            },
            _ => Turn { cmds: seq![], step: Step::Abort },
        }
    }

    /// The accesses that a reply puts on record.
    pub open spec fn logs(self, pages: Seq<usize>, page_size: usize, reply: Reply<Found>) -> Seq<
        AccessEvent,
    > {
        match (self.phase, reply) {
            (SegfaultPhase::Reading { .. }, Reply::Decoded(found)) => match accesses(found) {
                Some(events) => ours(events, pages, page_size),
                None => seq![],
            },
            _ => seq![],
        }
    }
}

/// Whether the thread was stopped or killed by yet another fault.
pub open spec fn faulted(status: WaitStatus) -> bool {
    match status {
        WaitStatus::Signaled(_, signal, _) => signal == Signal::Segv,
        WaitStatus::Stopped(_, signal) => signal == Signal::Segv,
        WaitStatus::PtraceEvent(_, signal, _) => signal == Signal::Segv,
        _ => false,
    }
}

/// Picks the accesses that start on one of the pages.
pub fn pick_ours(events: &Vec<AccessEvent>, pages: &Vec<usize>, page_size: usize) -> (picked: Vec<
    AccessEvent,
>)
    ensures
        picked@ == ours(events@, pages@, page_size),
{
    let ghost pred = is_ours(pages@, page_size);
    let mut picked: Vec<AccessEvent> = Vec::new();
    let mut i: usize = 0;
    assert(events@.take(0).filter(pred) =~= Seq::empty());
    while i < events.len()
        invariant
            i <= events@.len(),
            pred == is_ours(pages@, page_size),
            picked@ == events@.take(i as int).filter(pred),
        decreases events@.len() - i,
    {
        let event: AccessEvent = events[i];
        proof {
            crate::seqs::lemma_filter_step(events@, i as int, pred);
        }
        if owns(pages, page_size, event.base_addr()) {
            picked.push(event);
        }
        i = i + 1;
    }
    assert(events@.take(i as int) =~= events@);
    picked
}

/// Finds the pages to unprotect for accesses to our memory. `None` means that one of them
/// starts on the last page there is.
pub fn find_spans(events: &Vec<AccessEvent>, pages: &Vec<usize>, page_size: usize) -> (spans: Option<
    Vec<PageSpan>,
>)
    requires
        page_size > 0,
    ensures
        spans matches Some(spans) ==> spans@ == spans_of(events@, pages@, page_size),
        spans is Some <==> (forall|i: int|
            0 <= i < events@.len() ==> spannable(#[trigger] events@[i], page_size)),
{
    let mut spans: Vec<PageSpan> = Vec::new();
    let mut i: usize = 0;
    while i < events.len()
        invariant
            i <= events@.len(),
            page_size > 0,
            spans@ == spans_of(events@.take(i as int), pages@, page_size),
            forall|j: int| 0 <= j < i ==> spannable(#[trigger] events@[j], page_size),
        decreases events@.len() - i,
    {
        let addr: usize = events[i].base_addr();
        let next: usize = match page_of(addr, page_size).checked_add(page_size) {
            Some(next) => next,
            None => {
                assert(!spannable(events@[i as int], page_size));
                return None;
            },
        };
        let count: usize = if has_page(pages, next) {
            2
        } else {
            1
        };
        spans.push(PageSpan { addr, count });
        assert(spans@ =~= spans_of(events@.take(i + 1), pages@, page_size));
        i = i + 1;
    }
    assert(events@.take(i as int) =~= events@);
    Some(spans)
}

/// Reports accesses to memory that is not ours.
fn report<E: View>(events: &Vec<AccessEvent>, out: &mut Outbox<E>)
    ensures
        final(out)@ == old(out)@ + reporting(events@),
{
    let mut i: usize = 0;
    assert(out@ + reporting(events@.take(0)) =~= out@);
    while i < events.len()
        invariant
            i <= events@.len(),
            out@ == old(out)@ + reporting(events@.take(i as int)),
        decreases events@.len() - i,
    {
        out.push(Command::Note(Note::ForeignEvent(events[i])));
        assert(out@ =~= old(out)@ + reporting(events@.take(i + 1)));
        i = i + 1;
    }
    assert(events@.take(i as int) =~= events@);
}

/// Fills the stack with zeros.
fn zero_stack<E: View>(pid: Pid, ch_stack: usize, size: usize, out: &mut Outbox<E>)
    requires
        ch_stack + size <= usize::MAX,
    ensures
        final(out)@ == old(out)@ + zeroing(pid, ch_stack, size),
{
    let ghost all = zeroing::<E::V>(pid, ch_stack, size);
    let mut ofs: usize = 0;
    let ghost mut n: int = 0;
    assert(out@ + all.take(0) =~= out@);
    while ofs < size
        invariant
            ch_stack + size <= usize::MAX,
            all == zeroing::<E::V>(pid, ch_stack, size),
            0 <= n <= all.len(),
            ofs == n * ARCH_WORD_SIZE || (n == all.len() && ofs == size),
            n * ARCH_WORD_SIZE >= size ==> n == all.len(),
            ofs >= size ==> n == all.len(),
            out@ == old(out)@ + all.take(n),
        decreases size - ofs,
    {
        out.push(Command::Write(pid, ch_stack + ofs, 0));
        assert(all.take(n + 1) =~= all.take(n).push(all[n]));
        assert(out@ =~= old(out)@ + all.take(n + 1));
        if size - ofs <= ARCH_WORD_SIZE {
            ofs = size;
        } else {
            ofs = ofs + ARCH_WORD_SIZE;
        }
        proof {
            n = n + 1;
        }
    }
    assert(all.take(n) =~= all);
}

/// Sends a thread into a routine to deal with a span of pages.
fn enter_routine<E: View>(
    pid: Pid,
    env: &FaultEnv,
    ch_stack: usize,
    span: PageSpan,
    regs: UserRegs,
    out: &mut Outbox<E>,
) -> (wait: WaitForSignal)
    requires
        env.layout.page_size > 0,
        ch_stack + env.stack_size <= usize::MAX,
    ensures
        wait == WaitForSignal::fresh(Some(pid), Signal::Stop),
        final(out)@ == old(out)@ + entering(pid, *env, ch_stack, span, regs),
{
    zero_stack(pid, ch_stack, env.stack_size, out);
    out.push(
        Command::Write(pid, env.layout.page_addr_at, page_of(span.addr, env.layout.page_size)),
    );
    out.push(Command::Write(pid, env.layout.page_count_at, span.count));
    out.push(Command::SetRegs(pid, regs));
    // The routines end with a stop.
    let wait = WaitForSignal::wait_for_signal(Some(pid), Signal::Stop, InitialCont::Yes, out);
    assert(out@ =~= old(out)@ + entering(pid, *env, ch_stack, span, regs));
    wait
}

impl SegfaultHandler {
    /// Begins to handle the fault that stopped the thread.
    pub fn handle_segfault(pid: Pid) -> (handler: SegfaultHandler)
        ensures
            handler@ == (SegfaultState { pid, phase: SegfaultPhase::GettingRegs, spans: seq![] }),
    {
        let handler = SegfaultHandler { pid, phase: SegfaultPhase::GettingRegs, spans: Vec::new() };
        assert(handler.spans@ =~= seq![]);
        handler
    }

    /// What the handler hangs on.
    pub fn query(&self) -> (query: Query)
        ensures
            query == self@.asks(),
    {
        match self.phase {
            SegfaultPhase::GettingRegs => Query::GetRegs(self.pid),
            SegfaultPhase::Reading { regs, .. } => Query::ReadWords {
                pid: self.pid,
                addr: regs.ip(),
                stride: ARCH_WORD_SIZE,
                count: INSTR_WORDS,
                lenient: true,
            },
            SegfaultPhase::Unprotecting { wait, .. } => wait.query(),
            SegfaultPhase::Stepping { .. } => Query::Wait(WaitId::Pid(self.pid)),
            SegfaultPhase::Stepped { .. } => Query::GetRegs(self.pid),
            SegfaultPhase::Reprotecting { wait, .. } => wait.query(),
        }
    }

    /// The registers that the thread faulted with, while its instruction is read.
    pub fn regs_at_fault(&self) -> (regs: Option<UserRegs>)
        ensures
            regs == self@.fault_regs(),
    {
        match self.phase {
            SegfaultPhase::Reading { regs, .. } => Some(regs),
            _ => None,
        }
    }

    fn enter(self, phase: SegfaultPhase) -> (step: Step<SegfaultHandler, Result<(), ExecEnd>>)
        ensures
            step@ == Step::<_, Result<(), ExecEnd>>::Ask(SegfaultState { phase, ..self@ }),
    {
        Step::Ask(SegfaultHandler { pid: self.pid, phase, spans: self.spans })
    }

    fn unprotect<E: View>(
        self,
        env: &FaultEnv,
        ch_stack: usize,
        stack_ptr: usize,
        regs: UserRegs,
        at: usize,
        out: &mut Outbox<E>,
    ) -> (step: Step<SegfaultHandler, Result<(), ExecEnd>>)
        requires
            env.layout.page_size > 0,
            ch_stack + env.stack_size <= usize::MAX,
            at < self@.spans.len(),
        ensures
            ({
                let turn = self@.unprotect::<E::V>(
                    *env,
                    ch_stack,
                    stack_ptr,
                    regs,
                    at as int,
                    seq![],
                );
                &&& final(out)@ == old(out)@ + turn.cmds
                &&& step@ == turn.step
            }),
    {
        let jumping = jump_into(&regs, env.layout.off, stack_ptr);
        let wait = enter_routine(self.pid, env, ch_stack, self.spans[at], jumping, out);
        assert(out@ =~= old(out)@ + self@.unprotect::<E::V>(
            *env,
            ch_stack,
            stack_ptr,
            regs,
            at as int,
            seq![],
        ).cmds);
        self.enter(SegfaultPhase::Unprotecting { stack_ptr, regs, at, wait })
    }

    fn reprotect<E: View>(
        self,
        env: &FaultEnv,
        ch_stack: usize,
        stack_ptr: usize,
        regs: UserRegs,
        at: usize,
        out: &mut Outbox<E>,
    ) -> (step: Step<SegfaultHandler, Result<(), ExecEnd>>)
        requires
            env.layout.page_size > 0,
            ch_stack + env.stack_size <= usize::MAX,
            at < self@.spans.len(),
        ensures
            ({
                let turn = self@.reprotect::<E::V>(
                    *env,
                    ch_stack,
                    stack_ptr,
                    regs,
                    at as int,
                    seq![],
                );
                &&& final(out)@ == old(out)@ + turn.cmds
                &&& step@ == turn.step
            }),
    {
        let jumping = jump_into(&regs, env.layout.on, stack_ptr);
        let wait = enter_routine(self.pid, env, ch_stack, self.spans[at], jumping, out);
        assert(out@ =~= old(out)@ + self@.reprotect::<E::V>(
            *env,
            ch_stack,
            stack_ptr,
            regs,
            at as int,
            seq![],
        ).cmds);
        self.enter(SegfaultPhase::Reprotecting { stack_ptr, regs, at, wait })
    }

    fn on_accesses<E: View>(
        self,
        env: &FaultEnv,
        pages: &Vec<usize>,
        ch_stack: usize,
        stack_ptr: usize,
        regs: UserRegs,
        events: Vec<AccessEvent>,
        acc_events: &mut Vec<AccessEvent>,
        out: &mut Outbox<E>,
    ) -> (step: Step<SegfaultHandler, Result<(), ExecEnd>>)
        requires
            env.layout.page_size > 0,
        ensures
            ({
                let turn = self@.on_accesses::<E::V>(
                    *env,
                    pages@,
                    ch_stack,
                    stack_ptr,
                    regs,
                    events@,
                );
                &&& final(out)@ == old(out)@ + turn.cmds
                &&& step@ == turn.step
            }),
            final(acc_events)@ == old(acc_events)@ + ours(events@, pages@, env.layout.page_size),
            step matches Step::Ask(next) ==> next@.wf(*env, ch_stack),
    {
        proof {
            assert(out@ + Seq::<Command<E::V>>::empty() =~= out@);
            assert(acc_events@ + Seq::<AccessEvent>::empty() =~= acc_events@);
        }
        let page_size: usize = env.layout.page_size;
        let mut picked: Vec<AccessEvent> = pick_ours(&events, pages, page_size);
        if events.len() == 0 {
            assert(ours(events@, pages@, page_size) =~= seq![]) by {
                reveal(Seq::filter);
            }
            return Step::Abort;
        }
        if picked.len() == 0 {
            report(&events, out);
            out.push(Command::Note(Note::RegisterDump(self.pid)));
            out.push(Command::Kill(self.pid));
            assert(picked@ =~= seq![]);
            assert(out@ =~= old(out)@ + self@.on_accesses::<E::V>(
                *env,
                pages@,
                ch_stack,
                stack_ptr,
                regs,
                events@,
            ).cmds);
            return Step::Done(Err(ExecEnd(None)));
        }
        let spans = find_spans(&picked, pages, page_size);
        // Log down the accesses that did happen.
        acc_events.append(&mut picked);
        let spans: Vec<PageSpan> = match spans {
            Some(spans) => spans,
            None => return Step::Abort,
        };
        if ch_stack.checked_add(env.stack_size).is_none() {
            return Step::Abort;
        }
        let handler = SegfaultHandler { pid: self.pid, phase: self.phase, spans };
        handler.unprotect(env, ch_stack, stack_ptr, regs, 0, out)
    }

    /// Takes the reply to `query`, with the bytes of an instruction decoded.
    pub fn advance<E: View>(
        self,
        env: &FaultEnv,
        pages: &Vec<usize>,
        ch_stack: usize,
        reply: Reply<Found>,
        acc_events: &mut Vec<AccessEvent>,
        out: &mut Outbox<E>,
    ) -> (step: Step<SegfaultHandler, Result<(), ExecEnd>>)
        requires
            self@.wf(*env, ch_stack),
            self@.asks().settled_by(reply),
        ensures
            final(out)@ == old(out)@ + self@.next::<E::V>(*env, pages@, ch_stack, reply).cmds,
            step@ == self@.next::<E::V>(*env, pages@, ch_stack, reply).step,
            final(acc_events)@ == old(acc_events)@ + self@.logs(
                pages@,
                env.layout.page_size,
                reply,
            ),
            step matches Step::Ask(next) ==> next@.wf(*env, ch_stack),
    {
        proof {
            assert(out@ + Seq::<Command<E::V>>::empty() =~= out@);
            assert(acc_events@ + Seq::<AccessEvent>::empty() =~= acc_events@);
        }
        let pid: Pid = self.pid;
        match self.phase {
            SegfaultPhase::GettingRegs => {
                let regs: UserRegs = match reply {
                    Reply::Regs(regs) => regs,
                    _ => return Step::Abort,
                };
                // Guard against both upwards and downwards-growing stacks.
                let stack_ptr: usize = match ch_stack.checked_add(env.stack_size / 2) {
                    Some(stack_ptr) => stack_ptr,
                    None => return Step::Abort,
                };
                if regs.ip().checked_add((INSTR_WORDS - 1) * ARCH_WORD_SIZE).is_none() {
                    return Step::Abort;
                }
                self.enter(SegfaultPhase::Reading { stack_ptr, regs })
            },
            SegfaultPhase::Reading { stack_ptr, regs } => match reply {
                Reply::Decoded(Ok(Some(events))) => self.on_accesses(
                    env,
                    pages,
                    ch_stack,
                    stack_ptr,
                    regs,
                    events,
                    acc_events,
                    out,
                ),
                _ => Step::Abort,
            },
            SegfaultPhase::Unprotecting { stack_ptr, regs, at, wait } => match wait.advance(
                reply,
                out,
            ) {
                Step::Ask(wait) => self.enter(
                    SegfaultPhase::Unprotecting { stack_ptr, regs, at, wait },
                ),
                Step::Done(Ok(_)) => {
                    if at < self.spans.len() - 1 {
                        let ghost before = self@;
                        let step = self.unprotect(env, ch_stack, stack_ptr, regs, at + 1, out);
                        assert(out@ =~= old(out)@ + before.next::<E::V>(
                            *env,
                            pages@,
                            ch_stack,
                            reply,
                        ).cmds);
                        step
                    } else {
                        out.push(Command::SetRegs(pid, regs));
                        out.push(Command::Step(pid));
                        assert(out@ =~= old(out)@ + self@.next::<E::V>(
                            *env,
                            pages@,
                            ch_stack,
                            reply,
                        ).cmds);
                        self.enter(SegfaultPhase::Stepping { stack_ptr })
                    }
                },
                Step::Done(Err(e)) => Step::Done(Err(e)),
                Step::Abort => Step::Abort,
            },
            SegfaultPhase::Stepping { stack_ptr } => match reply {
                Reply::Status(Some(status)) => {
                    let again: bool = match status {
                        WaitStatus::Signaled(_, signal, _)
                        | WaitStatus::Stopped(_, signal)
                        | WaitStatus::PtraceEvent(_, signal, _) => signal == Signal::Segv,
                        _ => false,
                    };
                    if again {
                        return Step::Abort;
                    }
                    self.enter(SegfaultPhase::Stepped { stack_ptr })
                },
                // Don't let it continue with unprotected memory if something errors!
                _ => Step::Done(Err(ExecEnd(None))),
            },
            SegfaultPhase::Stepped { stack_ptr } => match reply {
                Reply::Regs(regs) => self.reprotect(env, ch_stack, stack_ptr, regs, 0, out),
                _ => Step::Abort,
            },
            SegfaultPhase::Reprotecting { stack_ptr, regs, at, wait } => match wait.advance(
                reply,
                out,
            ) {
                Step::Ask(wait) => self.enter(
                    SegfaultPhase::Reprotecting { stack_ptr, regs, at, wait },
                ),
                Step::Done(Ok(_)) => {
                    if at < self.spans.len() - 1 {
                        let ghost before = self@;
                        let step = self.reprotect(env, ch_stack, stack_ptr, regs, at + 1, out);
                        assert(out@ =~= old(out)@ + before.next::<E::V>(
                            *env,
                            pages@,
                            ch_stack,
                            reply,
                        ).cmds);
                        step
                    } else {
                        out.push(Command::SetRegs(pid, regs));
                        out.push(Command::Syscall(pid));
                        assert(out@ =~= old(out)@ + self@.next::<E::V>(
                            *env,
                            pages@,
                            ch_stack,
                            reply,
                        ).cmds);
                        Step::Done(Ok(()))
                    }
                },
                Step::Done(Err(e)) => Step::Done(Err(e)),
                Step::Abort => Step::Abort,
            },
        }
    }
}

/// An access is put on record only if it starts on one of the pages that foreign code
/// was given, and every such access of the instruction is.
pub proof fn law_logs_ours_only(
    handler: SegfaultState,
    pages: Seq<usize>,
    page_size: usize,
    reply: Reply<Found>,
    event: AccessEvent,
)
    ensures
        handler.logs(pages, page_size, reply).contains(event) ==> crate::pages::owned(
            pages,
            page_size,
            event.range().addr,
        ),
        (handler.phase is Reading && (reply matches Reply::Decoded(Ok(Some(events)))
            && events@.contains(event)) && crate::pages::owned(
            pages,
            page_size,
            event.range().addr,
        )) ==> handler.logs(pages, page_size, reply).contains(event),
{
    if let Reply::Decoded(Ok(Some(events))) = reply {
        let pred = is_ours(pages, page_size);
        let logged = ours(events@, pages, page_size);
        if logged.contains(event) {
            assert(pred(event)) by {
                events@.lemma_filter_pred(pred, logged.index_of(event));
            }
        }
    }
}

/// Where all of its words can be read, what is decoded is what stands in memory at the
/// instruction that faulted, as far as the longest instruction goes.
pub proof fn law_decodes_the_whole_instruction(
    handler: SegfaultState,
    words: Seq<Option<usize>>,
    memory: spec_fn(int) -> u8,
)
    requires
        handler.phase is Reading,
        handler.asks() matches Query::ReadWords { addr, stride, count, .. } && words.len() == count
            && crate::words::read_from(words, addr as int, stride as int, memory),
    ensures
        handler.fault_regs() matches Some(regs) ==> {
            &&& crate::words::bytes_of(words).len() >= ARCH_MAX_INSTR_SIZE
            &&& forall|k: int|
                0 <= k < ARCH_MAX_INSTR_SIZE ==> #[trigger] crate::words::bytes_of(words)[k]
                    == memory(regs.rip + k)
        },
{
    if let SegfaultPhase::Reading { regs, .. } = handler.phase {
        crate::words::law_bytes_in_order(words, regs.rip as int, memory);
    }
}

} // verus!
