//! What happens when the child touches memory that it cannot.
use vstd::prelude::*;

use crate::arch::ARCH_WORD_SIZE;
use crate::disasm::{DisasmError, Operand};
use crate::mempr::{jump_into, MemprLayout};
use crate::pages::{has_page, owns, page_of};
use crate::regs::UserRegs;
use crate::trace::access::log_decoded;
use crate::trace::wait::WaitForSignal;
use crate::trace::{AccessEvent, ExecError, FAKE_STACK_SIZE};
use crate::tracee::{Command, Note, Outbox, Pid, Query, Reply, Signal, Step, Turn, WaitId};

verus! {

/// What came of decoding an instruction.
pub type Found = Result<Option<Vec<Operand>>, DisasmError>;

/// A fault on a page of ours.
#[derive(Debug, Clone, Copy, PartialEq, Eq, Structural)]
pub struct Fault {
    /// The address that was accessed.
    pub addr: usize,
    /// Where the stack pointer goes while the thread is inside of a routine.
    pub stack_ptr: usize,
    /// The registers that the thread faulted with.
    pub regs: UserRegs,
}

/// How far the handling of a fault has come.
#[derive(Debug, Clone, Copy, PartialEq, Eq, Structural)]
pub enum SegfaultPhase {
    /// The address of the fault is being looked at.
    Locating,
    /// It is one of ours; the registers of the thread are being looked at.
    GettingRegs { addr: usize, stack_ptr: usize },
    /// The memory is being unprotected.
    Unprotecting { fault: Fault, wait: WaitForSignal },
    /// The instruction that faulted is being executed.
    Stepping { fault: Fault },
    /// The instruction was executed; the registers are being looked at.
    Stepped { fault: Fault },
    /// The instruction is being read.
    Reading { fault: Fault, regs: UserRegs },
    /// The memory is being protected again.
    Reprotecting { regs: UserRegs, wait: WaitForSignal },
}

/// Finds out which access caused a fault and logs it down if it is to our memory, or
/// kills the thread otherwise. The access is let through by unprotecting the memory
/// for just one instruction.
#[derive(Debug, Clone, Copy, PartialEq, Eq, Structural)]
pub struct SegfaultHandler {
    pub pid: Pid,
    pub phase: SegfaultPhase,
}

impl View for SegfaultHandler {
    type V = SegfaultHandler;

    open spec fn view(&self) -> SegfaultHandler {
        *self
    }
}

/// How many pages to unprotect: the next page too if it is ours, in case the access
/// spans the boundary.
pub open spec fn span(pages: Seq<usize>, page: usize, page_size: usize) -> usize {
    if page + page_size <= usize::MAX && pages.contains((page + page_size) as usize) {
        2
    } else {
        1
    }
}

/// How many words it takes to read the instruction between the two addresses.
pub open spec fn instr_words(start: usize, end: usize) -> usize {
    ((end - start + ARCH_WORD_SIZE - 1) / (ARCH_WORD_SIZE as int)) as usize
}

/// The commands that tell which pages foreign code was given.
pub open spec fn expecting<E>(pages: Seq<usize>) -> Seq<Command<E>> {
    pages.map_values(|pg: usize| Command::Note(Note::ExpectedPage(pg)))
}

impl SegfaultHandler {
    /// The commands that unprotect the page of an access.
    pub open spec fn unprotecting<E>(
        self,
        layout: MemprLayout,
        pages: Seq<usize>,
        fault: Fault,
    ) -> Seq<Command<E>> {
        let page = crate::pages::page_base(fault.addr, layout.page_size);
        seq![
            Command::Write(self.pid, layout.page_addr_at, page),
            Command::Write(
                self.pid,
                layout.page_count_at,
                span(pages, page, layout.page_size),
            ),
            Command::SetRegs(
                self.pid,
                crate::mempr::jump(fault.regs, layout.off, fault.stack_ptr),
            ),
        ] + WaitForSignal::opening(self.pid, true)
    }

    /// The commands that protect it again.
    pub open spec fn reprotecting<E>(
        self,
        layout: MemprLayout,
        regs: UserRegs,
        stack_ptr: usize,
    ) -> Seq<Command<E>> {
        seq![Command::SetRegs(self.pid, crate::mempr::jump(regs, layout.on, stack_ptr))]
            + WaitForSignal::opening(self.pid, true)
    }

    /// What the handler hangs on.
    pub open spec fn asks(self) -> Query {
        match self.phase {
            SegfaultPhase::Locating => Query::FaultAddr(self.pid),
            SegfaultPhase::GettingRegs { .. } => Query::GetRegs(self.pid),
            SegfaultPhase::Unprotecting { wait, .. } => wait.asks(),
            SegfaultPhase::Stepping { .. } => Query::Wait(WaitId::Pid(self.pid)),
            SegfaultPhase::Stepped { .. } => Query::GetRegs(self.pid),
            SegfaultPhase::Reading { fault, regs } => Query::ReadWords {
                pid: self.pid,
                addr: fault.regs.rip,
                stride: ARCH_WORD_SIZE,
                count: instr_words(fault.regs.rip, regs.rip),
                lenient: false,
            },
            SegfaultPhase::Reprotecting { wait, .. } => wait.asks(),
        }
    }

    /// The handler at another phase.
    pub open spec fn at(self, phase: SegfaultPhase) -> SegfaultHandler {
        SegfaultHandler { phase, ..self }
    }

    /// What a reply leads to, if foreign code was given these pages and `ch_stack` is
    /// the address of the stack that was set aside.
    pub open spec fn next<E>(
        self,
        layout: MemprLayout,
        pages: Seq<usize>,
        ch_stack: usize,
        reply: Reply<Found>,
    ) -> Turn<E, SegfaultHandler, Result<(), ExecError>> {
        match (self.phase, reply) {
            (SegfaultPhase::Locating, Reply::MaybeAddr(None)) => Turn {
                cmds: seq![],
                step: Step::Done(Err(ExecError::Shrug)),
            },
            (SegfaultPhase::Locating, Reply::MaybeAddr(Some(addr))) => if !crate::pages::owned(
                pages,
                layout.page_size,
                addr,
            ) {
                // This was a real fault.
                Turn {
                    cmds: seq![Command::Note(Note::ForeignAccess(addr))] + expecting(pages) + seq![
                        Command::Note(Note::RegisterDump(self.pid)),
                        Command::Kill(self.pid),
                    ],
                    step: Step::Done(Err(ExecError::Died(None))),
                }
            } else if ch_stack + FAKE_STACK_SIZE / 2 > usize::MAX {
                Turn { cmds: seq![], step: Step::Abort }
            } else {
                Turn {
                    cmds: seq![],
                    step: Step::Ask(
                        self.at(
                            SegfaultPhase::GettingRegs {
                                addr,
                                stack_ptr: (ch_stack + FAKE_STACK_SIZE / 2) as usize,
                            },
                        ),
                    ),
                }
            },
            (SegfaultPhase::GettingRegs { addr, stack_ptr }, Reply::Regs(regs)) => {
                let page = crate::pages::page_base(addr, layout.page_size);
                let fault = Fault { addr, stack_ptr, regs };
                if page > isize::MAX || page + layout.page_size > usize::MAX {
                    Turn { cmds: seq![], step: Step::Abort }
                } else {
                    Turn {
                        cmds: self.unprotecting(layout, pages, fault),
                        step: Step::Ask(
                            self.at(
                                SegfaultPhase::Unprotecting {
                                    fault,
                                    wait: WaitForSignal::fresh(self.pid, Signal::Stop),
                                },
                            ),
                        ),
                    }
                }
            },
            (SegfaultPhase::Unprotecting { fault, wait }, _) => {
                let turn = wait.next::<E, Found>(reply);
                match turn.step {
                    Step::Ask(wait) => Turn {
                        cmds: turn.cmds,
                        step: Step::Ask(self.at(SegfaultPhase::Unprotecting { fault, wait })),
                    },
                    Step::Done(Ok(())) => Turn {
                        cmds: turn.cmds + seq![
                            Command::SetRegs(self.pid, fault.regs),
                            Command::Step(self.pid),
                        ],
                        step: Step::Ask(self.at(SegfaultPhase::Stepping { fault })),
                    },
                    Step::Done(Err(e)) => Turn { cmds: turn.cmds, step: Step::Done(Err(e)) },
                    Step::Abort => Turn { cmds: turn.cmds, step: Step::Abort },
                }
            },
            (SegfaultPhase::Stepping { fault }, Reply::Status(None)) => Turn {
                cmds: seq![],
                step: Step::Done(Err(ExecError::Died(None))),
            },
            (SegfaultPhase::Stepping { fault }, Reply::Status(Some(_))) => Turn {
                cmds: seq![],
                step: Step::Ask(self.at(SegfaultPhase::Stepped { fault })),
            },
            (SegfaultPhase::Stepped { fault }, Reply::Regs(regs)) => if regs.rip < fault.regs.rip {
                Turn { cmds: seq![], step: Step::Abort }
            } else {
                Turn {
                    cmds: seq![],
                    step: Step::Ask(self.at(SegfaultPhase::Reading { fault, regs })),
                }
            },
            (SegfaultPhase::Reading { fault, regs }, Reply::Decoded(found)) => if (
            crate::trace::access::record_of(
                crate::disasm::outcome(found),
                fault.addr,
                layout.page_size,
            ) is None) {
                Turn { cmds: seq![], step: Step::Abort }
            } else {
                Turn {
                    cmds: self.reprotecting(layout, regs, fault.stack_ptr),
                    step: Step::Ask(
                        self.at(
                            SegfaultPhase::Reprotecting {
                                regs,
                                wait: WaitForSignal::fresh(self.pid, Signal::Stop),
                            },
                        ),
                    ),
                }
            },
            (SegfaultPhase::Reprotecting { regs, wait }, _) => {
                let turn = wait.next::<E, Found>(reply);
                match turn.step {
                    Step::Ask(wait) => Turn {
                        cmds: turn.cmds,
                        step: Step::Ask(self.at(SegfaultPhase::Reprotecting { regs, wait })),
                    },
                    Step::Done(Ok(())) => Turn {
                        cmds: turn.cmds + seq![
                            Command::SetRegs(self.pid, regs),
                            Command::Syscall(self.pid),
                        ],
                        step: Step::Done(Ok(())),
                    },
                    Step::Done(Err(e)) => Turn { cmds: turn.cmds, step: Step::Done(Err(e)) },
                    Step::Abort => Turn { cmds: turn.cmds, step: Step::Abort },
                }
            },
            _ => Turn { cmds: seq![], step: Step::Abort },
        }
    }

    /// The accesses that a reply puts on record.
    pub open spec fn logs(self, page_size: usize, reply: Reply<Found>) -> Seq<AccessEvent> {
        match (self.phase, reply) {
            (SegfaultPhase::Reading { fault, .. }, Reply::Decoded(found)) => match (
            crate::trace::access::record_of(
                crate::disasm::outcome(found),
                fault.addr,
                page_size,
            )) {
                Some(events) => events,
                None => seq![],
            },
            _ => seq![],
        }
    }

    /// Begins to handle the fault that stopped the thread.
    pub fn handle_segfault(pid: Pid) -> (handler: SegfaultHandler)
        ensures
            handler == (SegfaultHandler { pid, phase: SegfaultPhase::Locating }),
    {
        SegfaultHandler { pid, phase: SegfaultPhase::Locating }
    }

    /// Whether an instruction is being read that fits the address space.
    pub open spec fn wf(self) -> bool {
        self.phase matches SegfaultPhase::Reading { fault, regs } ==> fault.regs.rip <= regs.rip
    }

    /// What the handler hangs on.
    pub fn query(&self) -> (query: Query)
        requires
            self.wf(),
        ensures
            query == self.asks(),
    {
        match self.phase {
            SegfaultPhase::Locating => Query::FaultAddr(self.pid),
            SegfaultPhase::GettingRegs { .. } => Query::GetRegs(self.pid),
            SegfaultPhase::Unprotecting { wait, .. } => wait.query(),
            SegfaultPhase::Stepping { .. } => Query::Wait(WaitId::Pid(self.pid)),
            SegfaultPhase::Stepped { .. } => Query::GetRegs(self.pid),
            SegfaultPhase::Reading { fault, regs } => Query::ReadWords {
                pid: self.pid,
                addr: fault.regs.ip(),
                stride: ARCH_WORD_SIZE,
                count: word_count(fault.regs.ip(), regs.ip()),
                lenient: false,
            },
            SegfaultPhase::Reprotecting { wait, .. } => wait.query(),
        }
    }

    /// Takes the reply to `query`.
    pub fn advance<E: View>(
        self,
        layout: &MemprLayout,
        pages: &Vec<usize>,
        ch_stack: usize,
        reply: Reply<Found>,
        acc_events: &mut Vec<AccessEvent>,
        out: &mut Outbox<E>,
    ) -> (step: Step<SegfaultHandler, Result<(), ExecError>>)
        requires
            layout.page_size > 0,
            self.wf(),
            self.asks().settled_by(reply),
        ensures
            final(out)@ == old(out)@ + self.next::<E::V>(*layout, pages@, ch_stack, reply).cmds,
            step == self.next::<E::V>(*layout, pages@, ch_stack, reply).step,
            final(acc_events)@ == old(acc_events)@ + self.logs(layout.page_size, reply),
            step matches Step::Ask(next) ==> next.wf(),
    {
        proof {
            assert(out@ + Seq::<Command<E::V>>::empty() =~= out@);
            assert(acc_events@ + Seq::<AccessEvent>::empty() =~= acc_events@);
        }
        let pid: Pid = self.pid;
        match self.phase {
            SegfaultPhase::Locating => {
                let addr: usize = match reply {
                    Reply::MaybeAddr(Some(addr)) => addr,
                    _ => return Step::Done(Err(ExecError::Shrug)),
                };
                if !owns(pages, layout.page_size, addr) {
                    out.push(Command::Note(Note::ForeignAccess(addr)));
                    expect(pages, out);
                    out.push(Command::Note(Note::RegisterDump(pid)));
                    out.push(Command::Kill(pid));
                    assert(out@ =~= old(out)@ + self.next::<E::V>(
                        *layout,
                        pages@,
                        ch_stack,
                        reply,
                    ).cmds);
                    return Step::Done(Err(ExecError::Died(None)));
                }
                match ch_stack.checked_add(FAKE_STACK_SIZE / 2) {
                    Some(stack_ptr) => Step::Ask(
                        SegfaultHandler {
                            pid,
                            phase: SegfaultPhase::GettingRegs { addr, stack_ptr },
                        },
                    ),
                    None => Step::Abort,
                }
            },
            SegfaultPhase::GettingRegs { addr, stack_ptr } => {
                let regs: UserRegs = match reply {
                    Reply::Regs(regs) => regs,
                    _ => return Step::Abort,
                };
                let fault = Fault { addr, stack_ptr, regs };
                let page: usize = page_of(addr, layout.page_size);
                if page > isize::MAX as usize {
                    return Step::Abort;
                }
                let next_page: usize = match page.checked_add(layout.page_size) {
                    Some(next_page) => next_page,
                    None => return Step::Abort,
                };
                let count: usize = if has_page(pages, next_page) {
                    2
                } else {
                    1
                };
                out.push(Command::Write(pid, layout.page_addr_at, page));
                out.push(Command::Write(pid, layout.page_count_at, count));
                // Don't mess up the stack by accident!
                out.push(Command::SetRegs(pid, jump_into(&regs, layout.off, stack_ptr)));
                let wait = WaitForSignal::wait_for_signal(pid, Signal::Stop, true, out);
                assert(out@ =~= old(out)@ + self.unprotecting(*layout, pages@, fault));
                Step::Ask(
                    SegfaultHandler { pid, phase: SegfaultPhase::Unprotecting { fault, wait } },
                )
            },
            SegfaultPhase::Unprotecting { fault, wait } => match wait.advance(reply, out) {
                Step::Ask(wait) => Step::Ask(
                    SegfaultHandler { pid, phase: SegfaultPhase::Unprotecting { fault, wait } },
                ),
                Step::Done(Ok(())) => {
                    out.push(Command::SetRegs(pid, fault.regs));
                    out.push(Command::Step(pid));
                    assert(out@ =~= old(out)@ + self.next::<E::V>(
                        *layout,
                        pages@,
                        ch_stack,
                        reply,
                    ).cmds);
                    Step::Ask(SegfaultHandler { pid, phase: SegfaultPhase::Stepping { fault } })
                },
                Step::Done(Err(e)) => Step::Done(Err(e)),
                Step::Abort => Step::Abort,
            },
            SegfaultPhase::Stepping { fault } => match reply {
                Reply::Status(Some(_)) => Step::Ask(
                    SegfaultHandler { pid, phase: SegfaultPhase::Stepped { fault } },
                ),
                // Don't let it continue with unprotected memory if something errors!
                _ => Step::Done(Err(ExecError::Died(None))),
            },
            SegfaultPhase::Stepped { fault } => {
                let regs: UserRegs = match reply {
                    Reply::Regs(regs) => regs,
                    _ => return Step::Abort,
                };
                if regs.ip() < fault.regs.ip() {
                    return Step::Abort;
                }
                Step::Ask(SegfaultHandler { pid, phase: SegfaultPhase::Reading { fault, regs } })
            },
            SegfaultPhase::Reading { fault, regs } => {
                let found: Found = match reply {
                    Reply::Decoded(found) => found,
                    _ => return Step::Abort,
                };
                if !log_decoded(found, fault.addr, layout.page_size, acc_events) {
                    return Step::Abort;
                }
                out.push(Command::SetRegs(pid, jump_into(&regs, layout.on, fault.stack_ptr)));
                let wait = WaitForSignal::wait_for_signal(pid, Signal::Stop, true, out);
                assert(out@ =~= old(out)@ + self.reprotecting(*layout, regs, fault.stack_ptr));
                Step::Ask(
                    SegfaultHandler { pid, phase: SegfaultPhase::Reprotecting { regs, wait } },
                )
            },
            SegfaultPhase::Reprotecting { regs, wait } => match wait.advance(reply, out) {
                Step::Ask(wait) => Step::Ask(
                    SegfaultHandler { pid, phase: SegfaultPhase::Reprotecting { regs, wait } },
                ),
                Step::Done(Ok(())) => {
                    out.push(Command::SetRegs(pid, regs));
                    out.push(Command::Syscall(pid));
                    assert(out@ =~= old(out)@ + self.next::<E::V>(
                        *layout,
                        pages@,
                        ch_stack,
                        reply,
                    ).cmds);
                    Step::Done(Ok(()))
                },
                Step::Done(Err(e)) => Step::Done(Err(e)),
                Step::Abort => Step::Abort,
            },
        }
    }
}

/// Tells which pages foreign code was given.
fn expect<E: View>(pages: &Vec<usize>, out: &mut Outbox<E>)
    ensures
        final(out)@ == old(out)@ + expecting(pages@),
{
    let mut i: usize = 0;
    assert(out@ + expecting(pages@.take(0)) =~= out@);
    while i < pages.len()
        invariant
            i <= pages@.len(),
            out@ == old(out)@ + expecting(pages@.take(i as int)),
        decreases pages@.len() - i,
    {
        out.push(Command::Note(Note::ExpectedPage(pages[i])));
        assert(out@ =~= old(out)@ + expecting(pages@.take(i + 1)));
        i = i + 1;
    }
    assert(pages@.take(i as int) =~= pages@);
}

/// How many words it takes to read the instruction between the two addresses.
pub fn word_count(start: usize, end: usize) -> (count: usize)
    requires
        start <= end,
    ensures
        count == instr_words(start, end),
{
    let len: usize = end - start;
    if len % ARCH_WORD_SIZE == 0 {
        len / ARCH_WORD_SIZE
    } else {
        len / ARCH_WORD_SIZE + 1
    }
}

/// The instruction that is decoded is the one that was executed: its bytes come first, in
/// order, as they stand in memory.
pub proof fn law_decodes_what_was_executed(
    handler: SegfaultHandler,
    words: Seq<Option<usize>>,
    memory: spec_fn(int) -> u8,
)
    requires
        handler.wf(),
        handler.phase is Reading,
        handler.asks() matches Query::ReadWords { addr, stride, count, .. } && words.len() == count
            && crate::words::read_from(words, addr as int, stride as int, memory),
    ensures
        handler.phase matches SegfaultPhase::Reading { fault, regs } ==> {
            let len = regs.rip - fault.regs.rip;
            &&& len <= crate::words::bytes_of(words).len() < len + ARCH_WORD_SIZE
            &&& forall|k: int|
                0 <= k < len ==> #[trigger] crate::words::bytes_of(words)[k] == memory(
                    fault.regs.rip + k,
                )
        },
{
    if let SegfaultPhase::Reading { fault, .. } = handler.phase {
        crate::words::law_bytes_in_order(words, fault.regs.rip as int, memory);
    }
}

} // verus!
