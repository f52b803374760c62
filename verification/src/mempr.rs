//! Opening and closing pages for foreign code.
//!
//! The child holds two routines that change the protection of a run of pages, and
//! variables that tell them which. A supervisor fills in the variables, jumps a
//! stopped thread into a routine, and lets it run until it stops again.
use vstd::prelude::*;

use crate::regs::UserRegs;
use crate::tracee::{Command, Pid};

verus! {

/// What the pages of a run are to be accessible for.
#[derive(Debug, Clone, Copy, PartialEq, Eq, Structural)]
pub enum Prot {
    /// Reading and writing.
    ReadWrite,
    /// Nothing.
    NoAccess,
}

/// A change of protection.
#[derive(Debug, Clone, Copy, PartialEq, Eq, Structural)]
pub struct Mprotect {
    pub addr: usize,
    /// The length of the region in bytes. That of a region that does not end before
    /// the last address is cut down to a word; whoever fills in the variables sees
    /// to it that there is none.
    pub len: usize,
    pub prot: Prot,
}

/// What is left for a routine to do. It can neither return early nor unwind: nothing
/// called it.
#[derive(Debug, Clone, Copy, PartialEq, Eq, Structural)]
pub enum MemprNext {
    /// Stop the thread, so that the supervisor takes over again.
    RaiseStop,
    /// Nothing, until the supervisor moves the thread elsewhere.
    Rest,
    /// End the process with this code.
    Exit(i32),
}

/// The code that a process ends with when a routine fails.
pub const EXIT_FAILURE: i32 = -1;

/// The length of a run of pages in bytes, as far as it fits a word.
pub open spec fn run_len(page_size: usize, page_count: usize) -> usize {
    page_size.wrapping_mul(page_count)
}

/// Disables protections on `page_count` pages from `page_addr` on.
pub fn mempr_off(page_addr: usize, page_size: usize, page_count: usize) -> (call: Mprotect)
    ensures
        call == (Mprotect {
            addr: page_addr,
            len: run_len(page_size, page_count),
            prot: Prot::ReadWrite,
        }),
{
    Mprotect { addr: page_addr, len: page_size.wrapping_mul(page_count), prot: Prot::ReadWrite }
}

/// Reenables protection on `page_count` pages from `page_addr` on.
pub fn mempr_on(page_addr: usize, page_size: usize, page_count: usize) -> (call: Mprotect)
    ensures
        call == (Mprotect {
            addr: page_addr,
            len: run_len(page_size, page_count),
            prot: Prot::NoAccess,
        }),
{
    Mprotect { addr: page_addr, len: page_size.wrapping_mul(page_count), prot: Prot::NoAccess }
}

/// What a routine does once it has asked for the change: `result` is what `mprotect`
/// returned.
pub fn after_mprotect(result: i32) -> (next: MemprNext)
    ensures
        next == (if result == 0 {
            MemprNext::RaiseStop
        } else {
            MemprNext::Exit(EXIT_FAILURE)
        }),
{
    if result != 0 {
        MemprNext::Exit(EXIT_FAILURE)
    } else {
        MemprNext::RaiseStop
    }
}

/// What a routine does once it has tried to stop the thread.
pub fn after_raise(raised: bool) -> (next: MemprNext)
    ensures
        next == (if raised {
            MemprNext::Rest
        } else {
            MemprNext::Exit(EXIT_FAILURE)
        }),
{
    if raised {
        MemprNext::Rest
    } else {
        MemprNext::Exit(EXIT_FAILURE)
    }
}

/// A region whose length fits a word is as long as its pages are together.
pub proof fn law_run_len(page_size: usize, page_count: usize)
    requires
        page_size * page_count <= usize::MAX,
    ensures
        run_len(page_size, page_count) == page_size * page_count,
{
    assert(0 <= page_size * page_count) by (nonlinear_arith);
    vstd::arithmetic::div_mod::lemma_small_mod(
        (page_size * page_count) as nat,
        (usize::MAX + 1) as nat,
    );
}

/// Where the routines and their variables are in the memory of the child.
#[derive(Debug, Clone, Copy, PartialEq, Eq, Structural)]
pub struct MemprLayout {
    pub page_size: usize,
    /// The routine that disables protection.
    pub off: usize,
    /// The routine that enables it again.
    pub on: usize,
    /// The variable that holds the address of the first page.
    pub page_addr_at: usize,
    /// The variable that holds the number of pages.
    pub page_count_at: usize,
}

impl MemprLayout {
    /// Whether the routines and variables are told apart by their addresses.
    pub open spec fn wf(self) -> bool {
        &&& self.page_size > 0
        &&& self.off != self.on
        &&& self.page_addr_at != self.page_count_at
    }
}

/// The registers that send a thread into a routine.
pub open spec fn jump(regs: UserRegs, routine: usize, stack_ptr: usize) -> UserRegs {
    UserRegs { rip: routine, rsp: stack_ptr, ..regs }
}

/// The registers that send a thread into a routine.
pub fn jump_into(regs: &UserRegs, routine: usize, stack_ptr: usize) -> (new_regs: UserRegs)
    ensures
        new_regs == jump(*regs, routine, stack_ptr),
{
    let mut new_regs: UserRegs = *regs;
    new_regs.set_ip(routine);
    new_regs.set_sp(stack_ptr);
    new_regs
}

/// The starts of `count` pages from `addr` on.
pub open spec fn page_set(addr: usize, count: usize, page_size: usize) -> Set<int> {
    Set::new(|pg: int| exists|k: int| 0 <= k < count && pg == #[trigger] (addr + k * page_size))
}

/// Whether every page starts at a multiple of the page size.
pub open spec fn pages_aligned(pages: Seq<usize>, page_size: usize) -> bool {
    forall|j: int| 0 <= j < pages.len() ==> #[trigger] pages[j] % page_size == 0
}

/// The starts of those of the pages that hold one of the `len` bytes from `addr` on.
pub open spec fn touched_pages(
    pages: Seq<usize>,
    page_size: usize,
    addr: usize,
    len: int,
) -> Set<int> {
    Set::new(
        |pg: int|
            exists|j: int|
                0 <= j < pages.len() && pg == #[trigger] pages[j] && addr < pg + page_size && pg
                    < addr + len,
    )
}

/// Bytes that fit a page touch at most the page that they start on and the next one.
pub proof fn lemma_touched_pages(
    pages: Seq<usize>,
    page_size: usize,
    addr: usize,
    len: int,
    count: usize,
)
    requires
        page_size > 0,
        pages_aligned(pages, page_size),
        len <= page_size,
        count >= 1,
        forall|j: int|
            0 <= j < pages.len() && #[trigger] pages[j] == crate::pages::page_base(addr, page_size)
                + page_size ==> count >= 2,
    ensures
        touched_pages(pages, page_size, addr, len).subset_of(
            page_set(crate::pages::page_base(addr, page_size), count, page_size),
        ),
{
    let base = crate::pages::page_base(addr, page_size);
    let p = page_size as int;
    crate::pages::lemma_page_base(addr, page_size);
    assert forall|pg: int| touched_pages(pages, page_size, addr, len).contains(pg) implies page_set(
        base,
        count,
        page_size,
    ).contains(pg) by {
        let j = choose|j: int|
            0 <= j < pages.len() && pg == #[trigger] pages[j] && addr < pg + page_size && pg < addr
                + len;
        let b = base as int;
        assert(pg % p == 0 && b % p == 0);
        assert(pg == b || pg == b + p) by (nonlinear_arith)
            requires
                p > 0,
                pg % p == 0,
                b % p == 0,
                b - p < pg < b + 2 * p,
        ;
        assert(base + 0 * page_size == b);
        assert(base + 1 * page_size == b + p);
    }
}

/// The state of a thread's pages, as far as commands to the thread determine it. A
/// thread that is let run in a routine is taken to come to its end.
pub ghost struct Guard {
    /// What the variables of the routines hold.
    pub page_addr: usize,
    pub page_count: usize,
    /// The registers that the thread was given last, unless it has run since.
    pub regs: Option<UserRegs>,
    /// The pages that are accessible.
    pub open: Set<int>,
    /// Whether the thread was ever let run on foreign code with a page accessible.
    pub leaked: bool,
    /// Whether the thread was ever let execute an instruction that it was stopped at
    /// while a page that this needed was not accessible.
    pub missed: bool,
    /// The registers with which it was last let execute one instruction.
    pub stepped_with: Option<UserRegs>,
    /// The registers with which it was last let run on foreign code.
    pub freed_with: Option<UserRegs>,
}

impl Guard {
    /// Whether the thread was sent to the start of a routine, and has not left it.
    pub open spec fn inside(self, routine: usize) -> bool {
        self.regs matches Some(regs) && regs.rip == routine
    }

    /// What one command does. `needs` are the pages that the instruction at hand
    /// accesses.
    pub open spec fn obey<E>(
        self,
        layout: MemprLayout,
        pid: Pid,
        needs: Set<int>,
        cmd: Command<E>,
    ) -> Guard {
        match cmd {
            Command::Write(p, addr, word) => if p != pid {
                self
            } else if addr == layout.page_addr_at {
                Guard { page_addr: word, ..self }
            } else if addr == layout.page_count_at {
                Guard { page_count: word, ..self }
            } else {
                self
            },
            Command::SetRegs(p, regs) => if p == pid {
                Guard { regs: Some(regs), ..self }
            } else {
                self
            },
            Command::Cont(p, _) => {
                let run = page_set(self.page_addr, self.page_count, layout.page_size);
                if p != pid {
                    self
                } else if self.inside(layout.off) {
                    Guard { open: self.open.union(run), ..self }
                } else if self.inside(layout.on) {
                    Guard { open: self.open.difference(run), ..self }
                } else {
                    Guard {
                        leaked: self.leaked || self.open != Set::<int>::empty(),
                        regs: None,
                        ..self
                    }
                }
            },
            Command::Syscall(p) => if p == pid {
                Guard {
                    leaked: self.leaked || self.open != Set::<int>::empty(),
                    freed_with: self.regs,
                    regs: None,
                    ..self
                }
            } else {
                self
            },
            Command::Step(p) => if p == pid {
                Guard {
                    missed: self.missed || !needs.subset_of(self.open),
                    stepped_with: self.regs,
                    regs: None,
                    ..self
                }
            } else {
                self
            },
            _ => self,
        }
    }

    /// What commands do, one after the other.
    pub open spec fn obey_all<E>(
        self,
        layout: MemprLayout,
        pid: Pid,
        needs: Set<int>,
        cmds: Seq<Command<E>>,
    ) -> Guard
        decreases cmds.len(),
    {
        if cmds.len() == 0 {
            self
        } else {
            self.obey_all(layout, pid, needs, cmds.drop_last()).obey(
                layout,
                pid,
                needs,
                cmds.last(),
            )
        }
    }

    /// No page is accessible, and no fault was committed.
    pub open spec fn shut(self) -> bool {
        self.open == Set::<int>::empty() && !self.leaked && !self.missed
    }

    /// No page is accessible, and the thread is not inside of a routine.
    pub open spec fn calm(self, layout: MemprLayout) -> bool {
        self.shut() && !self.inside(layout.off) && !self.inside(layout.on)
    }
}

/// Commands can be obeyed in two goes.
pub proof fn lemma_obey_add<E>(
    guard: Guard,
    layout: MemprLayout,
    pid: Pid,
    needs: Set<int>,
    first: Seq<Command<E>>,
    then: Seq<Command<E>>,
)
    ensures
        guard.obey_all(layout, pid, needs, first + then) == guard.obey_all(
            layout,
            pid,
            needs,
            first,
        ).obey_all(layout, pid, needs, then),
    decreases then.len(),
{
    if then.len() == 0 {
        assert(first + then =~= first);
    } else {
        assert((first + then).drop_last() =~= first + then.drop_last());
        lemma_obey_add(guard, layout, pid, needs, first, then.drop_last());
    }
}

/// Whether no command sends a thread into a routine.
pub open spec fn tame<E>(layout: MemprLayout, cmds: Seq<Command<E>>) -> bool {
    forall|i: int|
        0 <= i < cmds.len() ==> (#[trigger] cmds[i] matches Command::SetRegs(_, regs) ==> regs.rip
            != layout.off && regs.rip != layout.on)
}

/// Whether no command is for the thread.
pub open spec fn spares<E>(pid: Pid, cmds: Seq<Command<E>>) -> bool {
    forall|i: int|
        0 <= i < cmds.len() ==> match #[trigger] cmds[i] {
            Command::SetRegs(p, _) => p != pid,
            Command::Write(p, _, _) => p != pid,
            Command::Cont(p, _) => p != pid,
            Command::Syscall(p) => p != pid,
            Command::Step(p) => p != pid,
            _ => true,
        }
}

/// Where no page is accessible, commands that send nobody into a routine keep it so.
pub proof fn lemma_tame<E>(layout: MemprLayout, pid: Pid, guard: Guard, cmds: Seq<Command<E>>)
    requires
        layout.wf(),
        guard.calm(layout),
        tame(layout, cmds),
    ensures
        guard.obey_all(layout, pid, Set::empty(), cmds).calm(layout),
    decreases cmds.len(),
{
    if cmds.len() > 0 {
        let most = cmds.drop_last();
        assert forall|i: int| 0 <= i < most.len() implies (
        #[trigger] most[i] matches Command::SetRegs(_, regs) ==> regs.rip != layout.off && regs.rip
            != layout.on) by {
            assert(most[i] == cmds[i]);
        }
        lemma_tame(layout, pid, guard, most);
        assert(cmds.last() == cmds[cmds.len() - 1]);
    }
}

/// A thread does not notice commands that are not for it.
pub proof fn lemma_spares<E>(
    layout: MemprLayout,
    pid: Pid,
    guard: Guard,
    needs: Set<int>,
    cmds: Seq<Command<E>>,
)
    requires
        spares(pid, cmds),
    ensures
        guard.obey_all(layout, pid, needs, cmds) == guard,
    decreases cmds.len(),
{
    if cmds.len() > 0 {
        let most = cmds.drop_last();
        assert(cmds.last() == cmds[cmds.len() - 1]);
        assert forall|i: int| 0 <= i < most.len() implies match #[trigger] most[i] {
            Command::SetRegs(p, _) => p != pid,
            Command::Write(p, _, _) => p != pid,
            Command::Cont(p, _) => p != pid,
            Command::Syscall(p) => p != pid,
            Command::Step(p) => p != pid,
            _ => true,
        } by {
            assert(most[i] == cmds[i]);
        }
        lemma_spares(layout, pid, guard, needs, most);
    }
}

/// The length of a region is what its pages have together, less a whole turn of the address
/// space as often as it takes to fit a word.
pub proof fn law_run_len_wraps(page_size: usize, page_count: usize)
    ensures
        run_len(page_size, page_count) == (page_size * page_count) % (usize::MAX + 1),
{
}

/// A thread is sent into a routine with another instruction pointer and another stack pointer,
/// and with all else as it was.
pub proof fn law_jump(regs: UserRegs, routine: usize, stack_ptr: usize)
    ensures
        jump(regs, routine, stack_ptr).rip == routine,
        jump(regs, routine, stack_ptr).rsp == stack_ptr,
        (UserRegs { rip: regs.rip, rsp: regs.rsp, ..jump(regs, routine, stack_ptr) }) == regs,
{
}

} // verus!
