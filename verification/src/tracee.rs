//! The operations that a supervisor performs on a traced process, as data.
//!
//! A supervisor alternates between decisions and operations. An operation whose
//! outcome decides what comes next is a [`Query`], and its outcome a [`Reply`].
//! The others are [`Command`]s: they are carried out in order, and one that fails
//! is a fault of the supervisor itself, which gives up.
use vstd::prelude::*;

use crate::messages::TraceRequest;
use crate::native_lib::AccessEvent;
use crate::regs::UserRegs;

verus! {

/// The identifier of a traced thread.
#[derive(Debug, Clone, Copy, PartialEq, Eq, Structural)]
pub struct Pid {
    pub raw: i32,
}

/// A signal. `Other` holds the number of one that no decision rests on.
#[derive(Debug, Clone, Copy, PartialEq, Eq, Structural)]
pub enum Signal {
    Segv,
    Trap,
    Stop,
    Usr1,
    Cont,
    Other(i32),
}

/// What waiting on a child found.
#[derive(Debug, Clone, Copy, PartialEq, Eq, Structural)]
pub enum WaitStatus {
    /// It exited with this code.
    Exited(Pid, i32),
    /// It was killed by this signal, and left a core dump or not.
    Signaled(Pid, Signal, bool),
    /// It was stopped by this signal.
    Stopped(Pid, Signal),
    /// It was stopped by this signal at the given `ptrace` event.
    PtraceEvent(Pid, Signal, i32),
    /// It entered or left a system call.
    PtraceSyscall(Pid),
    /// It was resumed.
    Continued(Pid),
    /// There is nothing to report.
    StillAlive,
}

/// Which children to wait for.
#[derive(Debug, Clone, Copy, PartialEq, Eq, Structural)]
pub enum WaitId {
    /// Any of them.
    All,
    /// This one only.
    Pid(Pid),
}

/// Something to tell the user.
#[derive(Debug, Clone, Copy, PartialEq, Eq, Structural)]
pub enum Note {
    /// A stop outside of foreign code is passed over, and its signal passed along.
    IgnoringStop(Signal),
    /// A `ptrace` event outside of foreign code is passed over, and its signal passed
    /// along.
    IgnoringEvent(Signal),
    /// The thread was stopped by a signal that means nothing here.
    UnexpectedSignal(Signal),
    /// The thread hit a breakpoint that is not ours, at this address.
    UnexpectedTrap(usize),
    /// Foreign code touched memory at this address that it was not given.
    ForeignAccess(usize),
    /// Foreign code made this access to memory that it was not given.
    ForeignEvent(AccessEvent),
    /// Foreign code was given the page at this address.
    ExpectedPage(usize),
    /// The registers that the thread faulted with are to be shown.
    RegisterDump(Pid),
}

/// An operation whose outcome decides nothing.
#[derive(Debug)]
pub enum Command<E> {
    /// Set the registers of the thread.
    SetRegs(Pid, UserRegs),
    /// Write this word at this address of the thread's memory.
    Write(Pid, usize, usize),
    /// Let the thread run, delivering the signal if there is one.
    Cont(Pid, Option<Signal>),
    /// Let the thread run to the next system call.
    Syscall(Pid),
    /// Let the thread execute one instruction.
    Step(Pid),
    /// Kill the thread.
    Kill(Pid),
    /// Send the process this signal.
    Raise(Pid, Signal),
    /// Tell the child that its request was taken up.
    Confirm,
    /// Hand these events over to the child.
    SendEvents(E),
    /// Let other threads have the processor.
    Yield,
    /// Tell the user.
    Note(Note),
}

impl<E: View> View for Command<E> {
    type V = Command<E::V>;

    open spec fn view(&self) -> Command<E::V> {
        match *self {
            Command::SetRegs(pid, regs) => Command::SetRegs(pid, regs),
            Command::Write(pid, addr, word) => Command::Write(pid, addr, word),
            Command::Cont(pid, signal) => Command::Cont(pid, signal),
            Command::Syscall(pid) => Command::Syscall(pid),
            Command::Step(pid) => Command::Step(pid),
            Command::Kill(pid) => Command::Kill(pid),
            Command::Raise(pid, signal) => Command::Raise(pid, signal),
            Command::Confirm => Command::Confirm,
            Command::SendEvents(events) => Command::SendEvents(events@),
            Command::Yield => Command::Yield,
            Command::Note(note) => Command::Note(note),
        }
    }
}

/// Commands that wait to be carried out, in order.
#[derive(Debug)]
pub struct Outbox<E> {
    pub cmds: Vec<Command<E>>,
}

impl<E: View> View for Outbox<E> {
    type V = Seq<Command<E::V>>;

    closed spec fn view(&self) -> Seq<Command<E::V>> {
        self.cmds@.map_values(|cmd: Command<E>| cmd@)
    }
}

impl<E: View> Outbox<E> {
    /// An outbox without commands.
    pub fn new() -> (out: Outbox<E>)
        ensures
            out@ == Seq::<Command<E::V>>::empty(),
    {
        let out = Outbox { cmds: Vec::new() };
        assert(out@ =~= Seq::<Command<E::V>>::empty());
        out
    }

    /// Adds a command.
    pub fn push(&mut self, cmd: Command<E>)
        ensures
            final(self)@ == old(self)@.push(cmd@),
    {
        let ghost before = self@;
        self.cmds.push(cmd);
        assert(self@ =~= before.push(cmd@));
    }
}

/// An operation whose outcome decides what comes next.
#[derive(Debug, Clone, Copy, PartialEq, Eq, Structural)]
pub enum Query {
    /// Wait until there is something to report of these children.
    Wait(WaitId),
    /// Look, without waiting, whether there is something to report of any child.
    Poll,
    /// Look, without waiting, whether the child sent a request.
    Recv,
    /// Get the registers of the thread.
    GetRegs(Pid),
    /// Get the registers of the thread, if that can be done.
    TryGetRegs(Pid),
    /// Get the address that the thread faulted on, if that can be done.
    FaultAddr(Pid),
    /// Read the word at this address of the thread's memory.
    Read(Pid, usize),
    /// Read the word at this address of the thread's memory, if that can be done.
    TryRead(Pid, usize),
    /// Read `count` words, the first at `addr` and each `stride` bytes past the one
    /// before. With `lenient`, some of them need not be readable.
    ReadWords { pid: Pid, addr: usize, stride: usize, count: usize, lenient: bool },
    /// Let the thread run, delivering the signal if there is one, and say whether
    /// that worked.
    TryCont(Pid, Option<Signal>),
    /// Let the thread run to the next system call, and say whether that worked.
    TrySyscall(Pid),
    /// List what is mapped into the memory of the process.
    Maps(Pid),
}

/// A block of addresses that a process has mapped.
#[derive(Debug)]
pub struct Mapping {
    pub start: usize,
    pub size: usize,
    /// The bytes of the name of the file that it was mapped from, if it was.
    pub file: Option<Vec<u8>>,
}

/// The outcome of a [`Query`]. `D` is what a supervisor makes of the instruction
/// that some words hold.
#[derive(Debug)]
pub enum Reply<D> {
    /// To `Wait` and `Poll`; `None` if waiting failed.
    Status(Option<WaitStatus>),
    /// To `Recv`.
    Request(Option<TraceRequest>),
    /// To `GetRegs`.
    Regs(UserRegs),
    /// To `TryGetRegs`.
    MaybeRegs(Option<UserRegs>),
    /// To `FaultAddr`.
    MaybeAddr(Option<usize>),
    /// To `Read`.
    Word(usize),
    /// To `TryRead`.
    MaybeWord(Option<usize>),
    /// To `ReadWords`: each of the words, if it could be read.
    Words(Vec<Option<usize>>),
    /// What the bytes of those words came down to, once decoded.
    Decoded(D),
    /// To `TryCont` and `TrySyscall`.
    Success(bool),
    /// To `Maps`.
    Maps(Vec<Mapping>),
}

impl Query {
    /// Whether the reply is of the kind that this query asks for.
    pub open spec fn answered_by<D>(self, reply: Reply<D>) -> bool {
        match self {
            Query::ReadWords { count, lenient, .. } => reply matches Reply::Words(words)
                && words@.len() == count && (!lenient ==> forall|i: int|
                0 <= i < count ==> #[trigger] words@[i] is Some),
            _ => self.settled_by(reply),
        }
    }

    /// Whether the reply is of the kind that this query asks for, with the bytes of
    /// an instruction decoded.
    pub open spec fn settled_by<D>(self, reply: Reply<D>) -> bool {
        match self {
            Query::Wait(_) | Query::Poll => reply is Status,
            Query::Recv => reply is Request,
            Query::GetRegs(_) => reply is Regs,
            Query::TryGetRegs(_) => reply is MaybeRegs,
            Query::FaultAddr(_) => reply is MaybeAddr,
            Query::Read(_, _) => reply is Word,
            Query::TryRead(_, _) => reply is MaybeWord,
            Query::ReadWords { .. } => reply is Decoded,
            Query::TryCont(_, _) | Query::TrySyscall(_) => reply is Success,
            Query::Maps(_) => reply is Maps,
        }
    }
}

/// What a procedure does once it has been handed a reply: it asks another
/// question, is done, or finds that it must give up with a panic.
#[derive(Debug)]
pub enum Step<M, T> {
    Ask(M),
    Done(T),
    Abort,
}

impl<M: View, T> View for Step<M, T> {
    type V = Step<M::V, T>;

    open spec fn view(&self) -> Step<M::V, T> {
        match *self {
            Step::Ask(m) => Step::Ask(m@),
            Step::Done(t) => Step::Done(t),
            Step::Abort => Step::Abort,
        }
    }
}

/// The commands of one turn of a procedure and what it does after them.
pub ghost struct Turn<E, M, T> {
    pub cmds: Seq<Command<E>>,
    pub step: Step<M, T>,
}

impl<E, M, T> Turn<E, M, T> {
    /// Whether the turn consists of these commands and this step.
    pub open spec fn comes_to(self, cmds: Seq<Command<E>>, step: Step<M, T>) -> bool {
        self.cmds =~= cmds && self.step == step
    }
}

/// A command is taken for just what it is, with the events that it hands over as they are.
pub proof fn law_commands_as_they_are<E: View>(
    pid: Pid,
    regs: UserRegs,
    addr: usize,
    word: usize,
    signal: Option<Signal>,
    raised: Signal,
    events: E,
    note: Note,
)
    ensures
        Command::<E>::SetRegs(pid, regs)@ == Command::<E::V>::SetRegs(pid, regs),
        Command::<E>::Write(pid, addr, word)@ == Command::<E::V>::Write(pid, addr, word),
        Command::<E>::Cont(pid, signal)@ == Command::<E::V>::Cont(pid, signal),
        Command::<E>::Syscall(pid)@ == Command::<E::V>::Syscall(pid),
        Command::<E>::Step(pid)@ == Command::<E::V>::Step(pid),
        Command::<E>::Kill(pid)@ == Command::<E::V>::Kill(pid),
        Command::<E>::Raise(pid, raised)@ == Command::<E::V>::Raise(pid, raised),
        Command::<E>::Confirm@ == Command::<E::V>::Confirm,
        Command::<E>::SendEvents(events)@ == Command::<E::V>::SendEvents(events@),
        Command::<E>::Yield@ == Command::<E::V>::Yield,
        Command::<E>::Note(note)@ == Command::<E::V>::Note(note),
{
}

/// A step is taken for just what it is.
pub proof fn law_steps_as_they_are<M: View, T>(m: M, t: T)
    ensures
        Step::<M, T>::Ask(m)@ == Step::<M::V, T>::Ask(m@),
        Step::<M, T>::Done(t)@ == Step::<M::V, T>::Done(t),
        Step::<M, T>::Abort@ == Step::<M::V, T>::Abort,
{
}

} // verus!
