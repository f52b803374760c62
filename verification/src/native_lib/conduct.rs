//! How the procedures go, from the first question to the last command.
use vstd::prelude::*;

use crate::native_lib::access::Found;
use crate::native_lib::catching::CatchingState;
use crate::native_lib::libc_fns::{LibcFn, LibcTable, PerFn};
use crate::native_lib::segfault::{FaultEnv, SegfaultPhase, SegfaultState};
use crate::native_lib::sigtrap::{SigtrapPhase, SigtrapState, SvEnv};
use crate::native_lib::wait::{InitialCont, WaitForSignal};
use crate::native_lib::{AccessEvent, ExecEnd};
use crate::regs::UserRegs;
use crate::tracee::{
    Command, Mapping, Note, Pid, Query, Reply, Signal, Step, WaitId, WaitStatus,
};

verus! {

/// The status tells that this thread was stopped by this signal.
pub open spec fn stopped_by(status: WaitStatus, pid: Pid, signal: Signal) -> bool {
    (status matches WaitStatus::Stopped(p, s) && p == pid && s == signal) || (
    status matches WaitStatus::PtraceEvent(p, s, _) && p == pid && s == signal)
}

/// A wait is over as soon as a thread is stopped by the signal that is waited for, and says
/// which thread it was. It is over with an error as soon as the thread is dead, with its return
/// code if it exited. Past any other signal the thread is let run on with that signal, and
/// then waited for again.
pub proof fn law_wait_for_signal<E, D>(
    pid: Pid,
    signal: Signal,
    stopped: Pid,
    other: Signal,
    status: WaitStatus,
    went: bool,
)
    requires
        stopped_by(status, stopped, other),
    ensures
        ({
            let wait = WaitForSignal::fresh(Some(pid), signal);
            let turn = wait.next::<E, D>(Reply::Status(Some(status)));
            &&& wait.asks() == Query::Wait(WaitId::Pid(pid))
            &&& other == signal ==> turn.comes_to(seq![], Step::Done(Ok(stopped)))
            &&& other != signal ==> {
                &&& turn.cmds =~= seq![]
                &&& turn.step matches Step::Ask(resuming) && {
                    &&& resuming.asks() == Query::TryCont(stopped, Some(other))
                    &&& resuming.next::<E, D>(Reply::Success(went)).comes_to(
                        seq![],
                        if went {
                            Step::Ask(wait)
                        } else {
                            Step::Done(Err(ExecEnd(None)))
                        },
                    )
                }
            }
        }),
{
}

/// What else a wait can hear: that the thread has died, or that it was let run, or entered a
/// system call, which it is let run on past.
pub proof fn law_wait_hears_the_rest<E, D>(pid: Pid, signal: Signal, status: WaitStatus)
    ensures
        ({
            let wait = WaitForSignal::fresh(Some(pid), signal);
            let turn = wait.next::<E, D>(Reply::Status(Some(status)));
            &&& wait.next::<E, D>(Reply::Status(None)).comes_to(
                seq![],
                Step::Done(Err(ExecEnd(None))),
            )
            &&& status matches WaitStatus::Exited(_, code) ==> turn.comes_to(
                seq![],
                Step::Done(Err(ExecEnd(Some(code)))),
            )
            &&& status is Signaled ==> turn.comes_to(seq![], Step::Done(Err(ExecEnd(None))))
            &&& status is PtraceSyscall || status is Continued || status is StillAlive
                ==> turn.comes_to(seq![Command::Cont(pid, None)], Step::Ask(wait))
        }),
{
}

/// A wait for no thread in particular takes the first that is stopped by the signal, and does
/// not wait twice.
pub proof fn law_wait_for_any<E, D>(
    signal: Signal,
    stopped: Pid,
    other: Signal,
    status: WaitStatus,
    went: bool,
)
    ensures
        ({
            let wait = WaitForSignal::fresh(None, signal);
            let turn = wait.next::<E, D>(Reply::Status(Some(status)));
            &&& wait.asks() == Query::Wait(WaitId::All)
            &&& stopped_by(status, stopped, other) && other == signal ==> turn.comes_to(
                seq![],
                Step::Done(Ok(stopped)),
            )
            &&& stopped_by(status, stopped, other) && other != signal ==> {
                &&& turn.cmds =~= seq![]
                &&& turn.step matches Step::Ask(resuming) && {
                    &&& resuming.asks() == Query::TryCont(stopped, Some(other))
                    &&& resuming.next::<E, D>(Reply::Success(went)).comes_to(
                        seq![],
                        Step::Done(Err(ExecEnd(None))),
                    )
                }
            }
            &&& wait.next::<E, D>(Reply::Status(None)).comes_to(
                seq![],
                Step::Done(Err(ExecEnd(None))),
            )
            &&& status matches WaitStatus::Exited(_, code) ==> turn.comes_to(
                seq![],
                Step::Done(Err(ExecEnd(Some(code)))),
            )
            &&& status is Signaled ==> turn.comes_to(seq![], Step::Done(Err(ExecEnd(None))))
            &&& status is PtraceSyscall || status is Continued || status is StillAlive
                ==> turn.step is Abort
        }),
{
}

/// A wait may begin by letting its thread run, and in no other way.
pub proof fn law_wait_begins<E>(pid: Pid, init_cont: InitialCont)
    ensures
        WaitForSignal::opening::<E>(Some(pid), InitialCont::Yes) =~= seq![
            Command::<E>::Cont(pid, None),
        ],
        WaitForSignal::opening::<E>(Some(pid), InitialCont::No) =~= seq![],
        WaitForSignal::opening::<E>(None, init_cont) =~= seq![],
{
}

/// Each function has a word of its own.
pub proof fn law_one_word_each(words: PerFn)
    ensures
        words.of(LibcFn::Malloc) == words.malloc,
        words.of(LibcFn::Calloc) == words.calloc,
        words.of(LibcFn::AlignedAlloc) == words.aligned_alloc,
        words.of(LibcFn::PosixMemalign) == words.posix_memalign,
        words.of(LibcFn::Realloc) == words.realloc,
        words.of(LibcFn::Free) == words.free,
{
}

/// The function that is found to begin at an address does begin there, and if none is found
/// none does.
pub proof fn law_fn_begins_there(table: LibcTable, addr: usize, f: LibcFn)
    ensures
        table.fn_at(addr) matches Some(g) ==> table.addrs.of(g) == addr,
        table.fn_at(addr) is None ==> table.addrs.of(f) != addr,
{
}

/// The commands write a word to the start of each function: six writes to this thread, one for
/// each.
pub open spec fn writes_each<E>(cmds: Seq<Command<E>>, pid: Pid, addrs: PerFn, words: PerFn) -> bool {
    cmds =~= seq![
        Command::Write(pid, addrs.malloc, words.malloc),
        Command::Write(pid, addrs.calloc, words.calloc),
        Command::Write(pid, addrs.posix_memalign, words.posix_memalign),
        Command::Write(pid, addrs.aligned_alloc, words.aligned_alloc),
        Command::Write(pid, addrs.realloc, words.realloc),
        Command::Write(pid, addrs.free, words.free),
    ]
}

/// The same word for each function.
pub open spec fn all_the_same(word: usize) -> PerFn {
    PerFn {
        malloc: word,
        calloc: word,
        aligned_alloc: word,
        posix_memalign: word,
        realloc: word,
        free: word,
    }
}

/// A call of one of the functions is sent to its shim like this. All of the functions get back
/// their own code. The return address is read where the stack pointer points, and it is found
/// out whether libc is what the function returns to. The shim is told so by its flag, and is
/// handed the accesses so far. Then the thread is sent into the shim of the very function that
/// it has called, and goes there with all of the call's registers: only the instruction pointer
/// is another.
pub proof fn law_course_to_the_shim(
    pid: Pid,
    env: SvEnv,
    pages: Seq<usize>,
    ch_stack: usize,
    acc_events: Seq<AccessEvent>,
    f: LibcFn,
    regs: UserRegs,
    ret_addr: usize,
    maps: Vec<Mapping>,
    ret_is_libc: bool,
    word: usize,
)
    requires
        env.libc.addrs.distinct(),
        regs.rip == env.libc.addrs.of(f) + 1,
        crate::native_lib::maps::in_libc(maps@, env.exit_addr, ret_addr) == Some(ret_is_libc),
    ensures
        ({
            let s0 = SigtrapState { pid, phase: SigtrapPhase::GettingRegs };
            let t0 = s0.next(env, pages, ch_stack, acc_events, Reply::Regs(regs));
            let s1 = t0.step->Ask_0;
            let t1 = s1.next(env, pages, ch_stack, acc_events, Reply::Word(ret_addr));
            let s2 = t1.step->Ask_0;
            let t2 = s2.next(env, pages, ch_stack, acc_events, Reply::Maps(maps));
            let s3 = t2.step->Ask_0;
            let t3 = s3.next(env, pages, ch_stack, acc_events, Reply::Word(word));
            let s4 = t3.step->Ask_0;
            &&& s0.asks(env) == Query::GetRegs(pid)
            &&& t0.step is Ask
            &&& writes_each(t0.cmds, pid, env.libc.addrs, env.libc.words)
            &&& s1.asks(env) == Query::Read(pid, regs.rsp)
            &&& t1.comes_to(seq![], Step::Ask(s2))
            &&& s2.asks(env) == Query::Maps(pid)
            &&& t2.comes_to(seq![], Step::Ask(s3))
            &&& s3.asks(env) == Query::Read(pid, env.ret_is_libc_at)
            &&& t3.step is Ask
            &&& t3.cmds.len() == 4
            &&& t3.cmds[0] matches Command::Write(p, at, flagged) && {
                &&& p == pid
                &&& at == env.ret_is_libc_at
                &&& flagged / 256 == word / 256
                &&& flagged % 256 == if ret_is_libc {
                    1int
                } else {
                    0int
                }
            }
            &&& t3.cmds[1] == Command::SendEvents(acc_events)
            &&& t3.cmds[2] matches Command::SetRegs(p, r) && {
                &&& p == pid
                &&& r.rip == env.libc.shims.of(f)
                &&& r == (UserRegs { rip: r.rip, ..regs })
            }
            &&& t3.cmds[3] == Command::<Seq<AccessEvent>>::Cont(pid, None)
            &&& s3.acc_after(env, pages, acc_events, Reply::Word(word)) =~= seq![]
            &&& s4.asks(env) == Query::Wait(WaitId::Pid(pid))
            &&& s4 == (SigtrapState {
                pid,
                phase: SigtrapPhase::InShim {
                    ret_addr,
                    shim: CatchingState::fresh(pid, Signal::Stop),
                },
            })
        }),
{
    crate::native_lib::libc_fns::law_fn_is_recognized(env.libc, f);
    crate::words::law_only_the_first_byte_changes(
        word,
        if ret_is_libc {
            1
        } else {
            0
        },
    );
    let flagged = crate::native_lib::sigtrap::flag_word(word, ret_is_libc);
    assert(flagged == word - word % 256 + if ret_is_libc {
        1int
    } else {
        0int
    });
}

/// No command gives a thread other registers than these, apart from the instruction pointer.
pub open spec fn keeps_registers<E>(cmds: Seq<Command<E>>, pid: Pid, regs: UserRegs) -> bool {
    forall|k: int|
        0 <= k < cmds.len() ==> (#[trigger] cmds[k] matches Command::SetRegs(p, r) ==> {
            &&& p == pid
            &&& r.rdi == regs.rdi
            &&& r.rsi == regs.rsi
            &&& r.rdx == regs.rdx
            &&& r.rcx == regs.rcx
            &&& r.rsp == regs.rsp
            &&& r == (UserRegs { rip: r.rip, ..regs })
        })
}

proof fn lemma_keeps_registers(
    state: SigtrapState,
    env: SvEnv,
    pages: Seq<usize>,
    ch_stack: usize,
    acc_events: Seq<AccessEvent>,
    regs: UserRegs,
    replies: Seq<Reply<Found>>,
)
    requires
        replies.len() > 0 ==> match state.phase {
            SigtrapPhase::GettingRegs => replies[0] == Reply::<Found>::Regs(regs) && replies.len()
                <= 4,
            SigtrapPhase::ReadingStack { regs: r, .. } => r == regs && replies.len() <= 3,
            SigtrapPhase::Mapping { regs: r, .. } => r == regs && replies.len() <= 2,
            SigtrapPhase::ReadingFlag { regs: r, .. } => r == regs && replies.len() <= 1,
            _ => false,
        },
    ensures
        keeps_registers(
            state.run(env, pages, ch_stack, acc_events, replies).turn.cmds,
            state.pid,
            regs,
        ),
    decreases replies.len(),
{
    if replies.len() > 0 {
        let turn = state.next(env, pages, ch_stack, acc_events, replies[0]);
        assert(keeps_registers(turn.cmds, state.pid, regs));
        if let Step::Ask(next) = turn.step {
            let pages_after = state.pages_after(env, pages, replies[0]);
            let acc_after = state.acc_after(env, pages, acc_events, replies[0]);
            let rest = replies.skip(1);
            lemma_keeps_registers(next, env, pages_after, ch_stack, acc_after, regs, rest);
        }
    }
}

/// Whatever is found out about a call, the thread gets no registers but those that it called
/// the function with, apart from the instruction pointer, until its shim runs: the arguments
/// and the stack are those of the call that was intercepted.
pub proof fn law_shim_sees_the_call(
    pid: Pid,
    env: SvEnv,
    pages: Seq<usize>,
    ch_stack: usize,
    acc_events: Seq<AccessEvent>,
    regs: UserRegs,
    ret_addr: usize,
    maps: Vec<Mapping>,
    word: usize,
)
    ensures
        ({
            let replies = seq![
                Reply::<Found>::Regs(regs),
                Reply::Word(ret_addr),
                Reply::Maps(maps),
                Reply::Word(word),
            ];
            let start = SigtrapState { pid, phase: SigtrapPhase::GettingRegs };
            let cmds = start.run(env, pages, ch_stack, acc_events, replies).turn.cmds;
            keeps_registers(cmds, pid, regs)
        }),
{
    let replies = seq![
        Reply::<Found>::Regs(regs),
        Reply::Word(ret_addr),
        Reply::Maps(maps),
        Reply::Word(word),
    ];
    let start = SigtrapState { pid, phase: SigtrapPhase::GettingRegs };
    lemma_keeps_registers(start, env, pages, ch_stack, acc_events, regs, replies);
}

/// A breakpoint that is at the start of none of the functions is told, and the thread runs on.
/// Where nobody can tell what is libc, the supervisor gives up.
pub proof fn law_other_traps(
    pid: Pid,
    env: SvEnv,
    pages: Seq<usize>,
    ch_stack: usize,
    acc_events: Seq<AccessEvent>,
    f: LibcFn,
    regs: UserRegs,
    ret_addr: usize,
    maps: Vec<Mapping>,
)
    ensures
        ({
            let s0 = SigtrapState { pid, phase: SigtrapPhase::GettingRegs };
            let t0 = s0.next(env, pages, ch_stack, acc_events, Reply::Regs(regs));
            let mapping = SigtrapState { pid, phase: SigtrapPhase::Mapping { f, regs, ret_addr } };
            &&& regs.rip == 0 ==> t0.step is Abort
            &&& regs.rip >= 1 && (forall|g: LibcFn|
                #[trigger] env.libc.addrs.of(g) != regs.rip - 1) ==> t0.comes_to(
                seq![Command::Note(Note::UnexpectedTrap(regs.rip)), Command::Syscall(pid)],
                Step::Done(Ok(())),
            )
            &&& crate::native_lib::maps::in_libc(maps@, env.exit_addr, ret_addr) is None
                ==> mapping.next(env, pages, ch_stack, acc_events, Reply::Maps(maps)).step is Abort
        }),
{
    if regs.rip >= 1 {
        if let Some(g) = env.libc.fn_at((regs.rip - 1) as usize) {
            law_fn_begins_there(env.libc, (regs.rip - 1) as usize, g);
            assert(env.libc.addrs.of(g) == regs.rip - 1);
        }
    }
}

/// When the shim has stopped by itself, it is let return like this. A breakpoint goes to the
/// return address of the call, and the shim runs into it. The code there is repaired, and the
/// thread is put back to where the breakpoint was, with what the shim has returned.
pub proof fn law_course_from_the_shim(
    pid: Pid,
    env: SvEnv,
    pages: Seq<usize>,
    ch_stack: usize,
    acc_events: Seq<AccessEvent>,
    ret_addr: usize,
    stopped: Pid,
    stop: WaitStatus,
    ret_bytes: usize,
    trap: WaitStatus,
    after: UserRegs,
)
    requires
        stopped_by(stop, stopped, Signal::Stop),
        stopped_by(trap, stopped, Signal::Trap),
        after.rip >= 1,
    ensures
        ({
            let s4 = SigtrapState {
                pid,
                phase: SigtrapPhase::InShim {
                    ret_addr,
                    shim: CatchingState::fresh(pid, Signal::Stop),
                },
            };
            let t4 = s4.next(env, pages, ch_stack, acc_events, Reply::Status(Some(stop)));
            let s5 = t4.step->Ask_0;
            let t5 = s5.next(env, pages, ch_stack, acc_events, Reply::Word(ret_bytes));
            let s6 = t5.step->Ask_0;
            let t6 = s6.next(env, pages, ch_stack, acc_events, Reply::Status(Some(trap)));
            let s7 = t6.step->Ask_0;
            let t7 = s7.next(env, pages, ch_stack, acc_events, Reply::Regs(after));
            &&& t4.comes_to(seq![], Step::Ask(s5))
            &&& s5.asks(env) == Query::Read(pid, ret_addr)
            &&& t5.comes_to(
                seq![Command::Write(pid, ret_addr, 0xCC), Command::Cont(pid, None)],
                Step::Ask(s6),
            )
            &&& s6.asks(env) == Query::Wait(WaitId::Pid(pid))
            &&& t6.comes_to(seq![Command::Write(pid, ret_addr, ret_bytes)], Step::Ask(s7))
            &&& s7.asks(env) == Query::GetRegs(pid)
            &&& t7.comes_to(
                seq![
                    Command::SetRegs(pid, UserRegs { rip: (after.rip - 1) as usize, ..after }),
                ],
                Step::Ask(SigtrapState { pid, phase: SigtrapPhase::NewAddr }),
            )
        }),
{
}

/// What the shim has left in its variables is read from them, the addresses first. An address
/// of zero means that there are no pages, and then nobody looks how many they are. At the end
/// all of the functions trap again, and the thread runs on to its next system call.
pub proof fn law_course_of_the_pages(
    pid: Pid,
    env: SvEnv,
    pages: Seq<usize>,
    ch_stack: usize,
    acc_events: Seq<AccessEvent>,
    addr: usize,
    count: usize,
)
    ensures
        ({
            let new_addr = SigtrapState { pid, phase: SigtrapPhase::NewAddr };
            let new_count = SigtrapState { pid, phase: SigtrapPhase::NewCount { addr } };
            let del_addr = SigtrapState { pid, phase: SigtrapPhase::DelAddr };
            let del_count = SigtrapState { pid, phase: SigtrapPhase::DelCount { addr } };
            let given = Reply::<Found>::Word(addr);
            let counted = Reply::<Found>::Word(count);
            let ended = if addr == 0 {
                del_addr.next(env, pages, ch_stack, acc_events, given)
            } else {
                del_count.next(env, pages, ch_stack, acc_events, counted)
            };
            &&& new_addr.asks(env) == Query::Read(pid, env.new_pages_addr_at)
            &&& new_count.asks(env) == Query::Read(pid, env.new_pages_count_at)
            &&& del_addr.asks(env) == Query::Read(pid, env.del_pages_addr_at)
            &&& del_count.asks(env) == Query::Read(pid, env.del_pages_count_at)
            &&& new_addr.next(env, pages, ch_stack, acc_events, given).comes_to(
                seq![],
                Step::Ask(
                    if addr == 0 {
                        del_addr
                    } else {
                        new_count
                    },
                ),
            )
            &&& new_count.next(env, pages, ch_stack, acc_events, counted).step is Ask
                ==> new_count.next(env, pages, ch_stack, acc_events, counted).comes_to(
                seq![],
                Step::Ask(del_addr),
            )
            &&& addr != 0 ==> del_addr.next(env, pages, ch_stack, acc_events, given).comes_to(
                seq![],
                Step::Ask(del_count),
            )
            &&& addr == 0 ==> ended.step is Done
            &&& ended.step is Done || ended.step is Abort
            &&& ended.step is Done ==> {
                &&& ended.step == Step::<SigtrapState, Result<(), ExecEnd>>::Done(Ok(()))
                &&& ended.cmds.len() == 7
                &&& writes_each(ended.cmds.take(6), pid, env.libc.addrs, all_the_same(0xCC))
                &&& ended.cmds[6] == Command::<Seq<AccessEvent>>::Syscall(pid)
            }
        }),
{
}

/// The list of pages changes when the shim has told of new pages or of deallocated ones, and
/// the accesses on record change when they are handed over and when a fault is logged. They do
/// not change at any other time.
pub proof fn law_little_changes_on_the_way(
    state: SigtrapState,
    env: SvEnv,
    pages: Seq<usize>,
    acc_events: Seq<AccessEvent>,
    reply: Reply<Found>,
)
    ensures
        !(state.phase is NewCount) && !(state.phase is DelCount) ==> state.pages_after(
            env,
            pages,
            reply,
        ) == pages,
        !(state.phase is ReadingFlag) && !(state.phase is InShim) ==> state.acc_after(
            env,
            pages,
            acc_events,
            reply,
        ) == acc_events,
        state.phase matches SigtrapPhase::InShim { shim, .. } ==> state.acc_after(
            env,
            pages,
            acc_events,
            reply,
        ) == acc_events + shim.logs(pages, env.fault.layout.page_size, reply),
{
}

/// While the shim runs, and while it returns, the handler asks and does just what its wait
/// does, and goes on where it was. If the thread dies in the shim, the handler is over. It is a
/// fault of the supervisor if it dies on the way back.
pub proof fn law_handler_is_patient(
    pid: Pid,
    env: SvEnv,
    pages: Seq<usize>,
    ch_stack: usize,
    acc_events: Seq<AccessEvent>,
    ret_addr: usize,
    ret_bytes: usize,
    shim: CatchingState,
    wait: WaitForSignal,
    reply: Reply<Found>,
)
    ensures
        ({
            let running = SigtrapState { pid, phase: SigtrapPhase::InShim { ret_addr, shim } };
            let caught = shim.next::<Seq<AccessEvent>>(env.fault, pages, ch_stack, reply);
            let ran = running.next(env, pages, ch_stack, acc_events, reply);
            let returning = SigtrapState {
                pid,
                phase: SigtrapPhase::Returning { ret_addr, ret_bytes, wait },
            };
            let waited = wait.next::<Seq<AccessEvent>, Found>(reply);
            let returned = returning.next(env, pages, ch_stack, acc_events, reply);
            &&& running.asks(env) == shim.asks()
            &&& running.fault_regs() == shim.fault_regs()
            &&& caught.step matches Step::Ask(c) ==> ran.comes_to(
                caught.cmds,
                Step::Ask(
                    SigtrapState { pid, phase: SigtrapPhase::InShim { ret_addr, shim: c } },
                ),
            )
            &&& caught.step matches Step::Done(Err(e)) ==> ran.comes_to(
                caught.cmds,
                Step::Done(Err(e)),
            )
            &&& caught.step is Abort ==> ran.step is Abort
            &&& returning.asks(env) == wait.asks()
            &&& waited.step matches Step::Ask(w) ==> returned.comes_to(
                waited.cmds,
                Step::Ask(
                    SigtrapState {
                        pid,
                        phase: SigtrapPhase::Returning { ret_addr, ret_bytes, wait: w },
                    },
                ),
            )
            &&& waited.step matches Step::Done(Err(_)) ==> returned.step is Abort
        }),
{
}

/// A fault during a wait is handled in the thread that faulted, and then the same wait goes on.
/// Anything else is as if the wait knew nothing of faults.
pub proof fn law_wait_catches_faults<E>(
    env: FaultEnv,
    pages: Seq<usize>,
    ch_stack: usize,
    pid: Pid,
    signal: Signal,
    faulted: Pid,
    status: WaitStatus,
    handler: SegfaultState,
    reply: Reply<Found>,
)
    requires
        signal != Signal::Segv,
    ensures
        ({
            let wait = WaitForSignal::fresh(Some(pid), signal);
            let idle = CatchingState::fresh(pid, signal);
            let busy = CatchingState { wait, fault: Some(handler) };
            let heard = idle.next::<E>(env, pages, ch_stack, Reply::Status(Some(status)));
            let plain = wait.next::<E, Found>(Reply::Status(Some(status)));
            let handled = handler.next::<E>(env, pages, ch_stack, reply);
            let turn = busy.next::<E>(env, pages, ch_stack, reply);
            &&& idle.asks() == Query::Wait(WaitId::Pid(pid))
            &&& stopped_by(status, faulted, Signal::Segv) ==> heard.comes_to(
                seq![],
                Step::Ask(
                    CatchingState {
                        wait,
                        fault: Some(
                            SegfaultState {
                                pid: faulted,
                                phase: SegfaultPhase::GettingRegs,
                                spans: seq![],
                            },
                        ),
                    },
                ),
            )
            &&& (forall|p: Pid| !stopped_by(status, p, Signal::Segv)) ==> heard.comes_to(
                plain.cmds,
                match plain.step {
                    Step::Ask(w) => Step::Ask(CatchingState { wait: w, fault: None }),
                    Step::Done(result) => Step::Done(result),
                    Step::Abort => Step::Abort,
                },
            )
            &&& busy.asks() == handler.asks()
            &&& busy.fault_regs() == handler.fault_regs()
            &&& idle.fault_regs() is None
            &&& busy.logs(pages, env.layout.page_size, reply) == handler.logs(
                pages,
                env.layout.page_size,
                reply,
            )
            &&& idle.logs(pages, env.layout.page_size, reply) =~= seq![]
            &&& turn.comes_to(
                handled.cmds,
                match handled.step {
                    Step::Ask(h) => Step::Ask(CatchingState { wait, fault: Some(h) }),
                    Step::Done(Ok(_)) => Step::Ask(idle),
                    Step::Done(Err(e)) => Step::Done(Err(e)),
                    Step::Abort => Step::Abort,
                },
            )
        }),
{
    let p = match status {
        WaitStatus::Stopped(p, _) => p,
        WaitStatus::PtraceEvent(p, _, _) => p,
        _ => faulted,
    };
    if stopped_by(status, p, Signal::Segv) {
        assert(!(forall|q: Pid| !stopped_by(status, q, Signal::Segv)));
    } else {
        assert(crate::native_lib::catching::caught(
            WaitForSignal::fresh(Some(pid), signal),
            Reply::Status(Some(status)),
        ) is None);
    }
}

/// A wait that lets the thread run on past a signal does so whatever is caught otherwise.
pub proof fn law_wait_resumes<E>(
    env: FaultEnv,
    pages: Seq<usize>,
    ch_stack: usize,
    wait: WaitForSignal,
    went: bool,
)
    requires
        wait.phase is Resuming,
    ensures
        ({
            let resuming = CatchingState { wait, fault: None };
            let plain = wait.next::<E, Found>(Reply::Success(went));
            &&& resuming.asks() == wait.asks()
            &&& resuming.next::<E>(env, pages, ch_stack, Reply::Success(went)).comes_to(
                plain.cmds,
                match plain.step {
                    Step::Ask(w) => Step::Ask(CatchingState { wait: w, fault: None }),
                    Step::Done(result) => Step::Done(result),
                    Step::Abort => Step::Abort,
                },
            )
        }),
{
}

/// The pages that a shim has left must fit the address space, and those that it deallocated
/// must be on the list, else the supervisor gives up. So it does on a breakpoint that was
/// executed at no address.
pub proof fn law_pages_out_of_reach(
    pid: Pid,
    env: SvEnv,
    pages: Seq<usize>,
    ch_stack: usize,
    acc_events: Seq<AccessEvent>,
    addr: usize,
    count: usize,
    regs: UserRegs,
)
    ensures
        ({
            let new_count = SigtrapState { pid, phase: SigtrapPhase::NewCount { addr } };
            let del_count = SigtrapState { pid, phase: SigtrapPhase::DelCount { addr } };
            let returned = SigtrapState { pid, phase: SigtrapPhase::Returned };
            let counted = Reply::<Found>::Word(count);
            let size = env.fault.layout.page_size;
            let fits = count == 0 || addr + (count - 1) * size <= usize::MAX;
            &&& new_count.next(env, pages, ch_stack, acc_events, counted).step is Abort <==> !fits
            &&& !fits ==> del_count.next(env, pages, ch_stack, acc_events, counted).step is Abort
            &&& regs.rip == 0 ==> returned.next(
                env,
                pages,
                ch_stack,
                acc_events,
                Reply::Regs(regs),
            ).step is Abort
        }),
{
}

} // verus!
