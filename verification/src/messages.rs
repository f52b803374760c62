//! What a child asks of its supervisor.
use vstd::prelude::*;

verus! {

/// Information needed to begin tracing.
#[derive(Debug)]
pub struct StartFfiInfo {
    /// The addresses of the pages that foreign code may be handed pointers into.
    pub page_ptrs: Vec<usize>,
    /// The address of an allocation that can serve as a temporary stack.
    pub stack_ptr: usize,
}

/// A request from the child.
#[derive(Debug)]
pub enum TraceRequest {
    /// Begin tracing.
    StartFfi(StartFfiInfo),
    /// Report this return code instead of the one that the child exits with.
    OverrideRetcode(i32),
}

/// A unified event representing something happening on the child process.
#[derive(Debug)]
pub enum ExecEvent {
    /// Child process requests that we begin monitoring it.
    Start(StartFfiInfo),
    /// Child requests that we stop monitoring and pass over the events we
    /// detected.
    End,
    /// The child process with the specified pid was stopped by the given signal.
    Status(crate::tracee::Pid, crate::tracee::Signal),
    /// The child process with the specified pid entered or exited a syscall.
    Syscall(crate::tracee::Pid),
    /// A child process exited or was killed; if we have a return code, it is
    /// specified.
    Died(Option<i32>),
}

} // verus!
