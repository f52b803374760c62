//! The decisions of a process supervisor that watches foreign code run.
//!
//! A supervisor attaches to a child process with `ptrace`, lets it call into
//! foreign code, and records which of the memory pages handed to that code were
//! touched, and how. Every operation on the child is performed by the caller:
//! the library says which operation comes next, is handed what came of it, and
//! says what comes after that.
//!
//! Two supervisors are provided. [`trace`] also keeps a record of heap and page
//! allocations made by the foreign code; [`native_lib`] redirects allocation
//! calls into shims of the child and follows the pages that these hand out. Both look
//! at the registers of x86-64 threads; what an instruction accesses can be told for the
//! other architectures in [`arch`] too.
pub mod arch;
pub mod arch_regs;
pub mod disasm;
pub mod mempr;
pub mod messages;
pub mod native_lib;
pub mod pages;
pub mod regs;
pub mod script;
pub mod seqs;
pub mod trace;
pub mod tracee;
pub mod words;
