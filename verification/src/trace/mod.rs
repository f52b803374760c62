//! A supervisor that records the accesses of foreign code to the pages it was
//! given, and also the heap and page allocations that it made.
pub mod access;
pub mod conduct;
pub mod containment;
pub mod libc_events;
pub mod listener;
pub mod mmap_events;
pub mod segfault;
pub mod session;
pub mod sigtrap;
pub mod sv_loop;
pub mod wait;

use std::ops::Range;

use vstd::prelude::*;

verus! {

/// The size of the allocation that the stack pointer can be moved into.
pub const FAKE_STACK_SIZE: usize = 1024;

/// A single memory access, conservatively overestimated in case of ambiguity.
#[derive(Debug)]
pub enum AccessEvent {
    /// A read may have occurred on no more than the specified address range.
    Read(Range<usize>),
    /// A write may have occurred on no more than the specified address range.
    Write(Range<usize>),
}

/// The result(s) of a call to a `libc` allocation-related function. Note that
/// some function e.g. `realloc` will generate multiple events (an allocation
/// and a deallocation).
#[derive(Debug)]
pub enum LibcEvent {
    /// A heap allocation was created spanning the addresses in the range.
    Malloc(Range<usize>),
    /// A pointer with the inner address was `free`d.
    Free(usize),
}

/// A singular page mapping or unmapping. The inner field is always a page-aligned
/// address, representing a single system page being mapped/unmapped.
#[derive(Debug, Clone, Copy, PartialEq, Eq, Structural)]
pub enum MmapEvent {
    /// The range from this address to one system page past it was mapped to
    /// memory.
    Mmap(usize),
    /// The range from this address to one system page past it was unmapped
    /// from memory
    Munmap(usize),
}

/// The final results of an FFI trace, containing every relevant event detected
/// by the tracer.
#[derive(Debug)]
pub struct MemEvents {
    /// An ordered list of memory accesses that occurred.
    pub acc_events: Vec<AccessEvent>,
    /// A value modulo which `AccessEvent` ranges stay the same length. Makes
    /// parsing the events a lot easier. Should likely just be the page size.
    pub alloc_cutoff: usize,
    /// An ordered list of libc events that occurred. `malloc`s which were `free`d
    /// before the end of the FFI call will have been removed on a best-effort
    /// basis, but nothing else.
    pub libc_events: Vec<LibcEvent>,
    /// An ordered list of page mappings and unmappings that occurred. Same as
    /// for `libc_events`, mappings that were unmapped will have been removed,
    /// but nothing else.
    pub mmap_events: Vec<MmapEvent>,
}

/// An error came up while waiting on the child process to do something.
#[derive(Debug, Clone, Copy, PartialEq, Eq, Structural)]
pub enum ExecError {
    /// The child process died with this return code, if we have one.
    Died(Option<i32>),
    /// Something errored, but we should ignore it and proceed.
    Shrug,
}

} // verus!
