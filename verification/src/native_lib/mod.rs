//! A supervisor that records the accesses of foreign code to the pages it was
//! given, and sends calls of allocation functions to shims.
pub mod access;
pub mod catching;
pub mod conduct;
pub mod containment;
pub mod faults;
pub mod libc_fns;
pub mod listener;
pub mod maps;
pub mod paths;
pub mod segfault;
pub mod session;
pub mod sigtrap;
pub mod sv_loop;
pub mod wait;

use vstd::prelude::*;

verus! {

/// A block of memory that was accessed.
#[derive(Debug, Clone, Copy, PartialEq, Eq, Structural)]
pub struct AccessRange {
    /// Its first address.
    pub addr: usize,
    /// How many bytes it has.
    pub size: usize,
}

/// A single memory access.
#[derive(Debug, Clone, Copy, PartialEq, Eq, Structural)]
pub enum AccessEvent {
    /// A read occurred on this memory range.
    Read(AccessRange),
    /// A write may have occurred on this memory range. Some instructions *may*
    /// write memory without *always* doing that, so this can be an
    /// over-approximation. The flag is set if it is certain that the write
    /// happened.
    Write(AccessRange, bool),
}

impl AccessEvent {
    /// The memory that was accessed.
    pub open spec fn range(self) -> AccessRange {
        match self {
            AccessEvent::Read(range) => range,
            AccessEvent::Write(range, _) => range,
        }
    }

    /// The first address that was accessed.
    pub fn base_addr(&self) -> (addr: usize)
        ensures
            addr == self.range().addr,
    {
        match self {
            AccessEvent::Read(range) => range.addr,
            AccessEvent::Write(range, _) => range.addr,
        }
    }
}

/// The results of an FFI trace, or of a part of one.
#[derive(Debug)]
pub struct MemEvents {
    /// An ordered list of memory accesses that occurred.
    pub acc_events: Vec<AccessEvent>,
}

impl View for MemEvents {
    type V = Seq<AccessEvent>;

    open spec fn view(&self) -> Seq<AccessEvent> {
        self.acc_events@
    }
}

/// An error came up while waiting on the child process to do something.
/// It likely died, with this return code if we have one.
#[derive(Debug, Clone, Copy, PartialEq, Eq, Structural)]
pub struct ExecEnd(pub Option<i32>);

} // verus!
