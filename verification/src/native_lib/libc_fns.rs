//! The allocation functions of libc, and the shims that stand in for them.
use vstd::prelude::*;

use crate::arch::{BREAKPT_INSTR, BREAKPT_INSTR_SIZE};
use crate::tracee::{Command, Outbox, Pid};

verus! {

/// The libc functions we shim.
#[derive(Debug, Clone, Copy, PartialEq, Eq, Structural)]
pub enum LibcFn {
    Malloc,
    Calloc,
    AlignedAlloc,
    PosixMemalign,
    Realloc,
    Free,
}

/// A word for each of the functions.
#[derive(Debug, Clone, Copy, PartialEq, Eq, Structural)]
pub struct PerFn {
    pub malloc: usize,
    pub calloc: usize,
    pub aligned_alloc: usize,
    pub posix_memalign: usize,
    pub realloc: usize,
    pub free: usize,
}

impl PerFn {
    /// The word for one of them.
    pub open spec fn of(self, f: LibcFn) -> usize {
        match f {
            LibcFn::Malloc => self.malloc,
            LibcFn::Calloc => self.calloc,
            LibcFn::AlignedAlloc => self.aligned_alloc,
            LibcFn::PosixMemalign => self.posix_memalign,
            LibcFn::Realloc => self.realloc,
            LibcFn::Free => self.free,
        }
    }

    /// Whether the words differ from each other.
    pub open spec fn distinct(self) -> bool {
        forall|f: LibcFn, g: LibcFn| #[trigger] self.of(f) == #[trigger] self.of(g) ==> f == g
    }
}

/// What there is to know of the functions.
#[derive(Debug, Clone, Copy, PartialEq, Eq, Structural)]
pub struct LibcTable {
    /// The addresses at which they begin.
    pub addrs: PerFn,
    /// The first word of machine code of each.
    pub words: PerFn,
    /// The addresses of the matching shim functions.
    pub shims: PerFn,
}

impl LibcFn {
    /// Grabs the address of the matching shim function.
    pub fn shim_addr(&self, table: &LibcTable) -> (addr: usize)
        ensures
            addr == table.shims.of(*self),
    {
        match self {
            LibcFn::Malloc => table.shims.malloc,
            LibcFn::Calloc => table.shims.calloc,
            LibcFn::AlignedAlloc => table.shims.aligned_alloc,
            LibcFn::PosixMemalign => table.shims.posix_memalign,
            LibcFn::Realloc => table.shims.realloc,
            LibcFn::Free => table.shims.free,
        }
    }
}

impl LibcTable {
    /// The function that begins at an address: the first that does, should there be
    /// several.
    pub open spec fn fn_at(self, addr: usize) -> Option<LibcFn> {
        if addr == self.addrs.malloc {
            Some(LibcFn::Malloc)
        } else if addr == self.addrs.calloc {
            Some(LibcFn::Calloc)
        } else if addr == self.addrs.aligned_alloc {
            Some(LibcFn::AlignedAlloc)
        } else if addr == self.addrs.posix_memalign {
            Some(LibcFn::PosixMemalign)
        } else if addr == self.addrs.realloc {
            Some(LibcFn::Realloc)
        } else if addr == self.addrs.free {
            Some(LibcFn::Free)
        } else {
            None
        }
    }

    /// The commands that write a word to the start of each function.
    pub open spec fn writing<E>(self, pid: Pid, words: PerFn) -> Seq<Command<E>> {
        seq![
            Command::Write(pid, self.addrs.malloc, words.malloc),
            Command::Write(pid, self.addrs.calloc, words.calloc),
            Command::Write(pid, self.addrs.posix_memalign, words.posix_memalign),
            Command::Write(pid, self.addrs.aligned_alloc, words.aligned_alloc),
            Command::Write(pid, self.addrs.realloc, words.realloc),
            Command::Write(pid, self.addrs.free, words.free),
        ]
    }

    /// The commands that make the functions trap.
    pub open spec fn trapping<E>(self, pid: Pid) -> Seq<Command<E>> {
        self.writing(pid, breakpoints())
    }

    /// The commands that give the functions back their original first words.
    pub open spec fn fixing<E>(self, pid: Pid) -> Seq<Command<E>> {
        self.writing(pid, self.words)
    }

    /// Gets the libc function that an instruction pointer corresponds to, one
    /// instruction past its start.
    pub fn get_libc_fn(&self, addr: usize) -> (found: Option<LibcFn>)
        requires
            addr >= BREAKPT_INSTR_SIZE,
        ensures
            found == self.fn_at((addr - BREAKPT_INSTR_SIZE) as usize),
    {
        let start: usize = addr - BREAKPT_INSTR_SIZE;
        if start == self.addrs.malloc {
            Some(LibcFn::Malloc)
        } else if start == self.addrs.calloc {
            Some(LibcFn::Calloc)
        } else if start == self.addrs.aligned_alloc {
            Some(LibcFn::AlignedAlloc)
        } else if start == self.addrs.posix_memalign {
            Some(LibcFn::PosixMemalign)
        } else if start == self.addrs.realloc {
            Some(LibcFn::Realloc)
        } else if start == self.addrs.free {
            Some(LibcFn::Free)
        } else {
            None
        }
    }

    fn write_all<E: View>(&self, pid: Pid, words: &PerFn, out: &mut Outbox<E>)
        ensures
            final(out)@ == old(out)@ + self.writing(pid, *words),
    {
        out.push(Command::Write(pid, self.addrs.malloc, words.malloc));
        out.push(Command::Write(pid, self.addrs.calloc, words.calloc));
        out.push(Command::Write(pid, self.addrs.posix_memalign, words.posix_memalign));
        out.push(Command::Write(pid, self.addrs.aligned_alloc, words.aligned_alloc));
        out.push(Command::Write(pid, self.addrs.realloc, words.realloc));
        out.push(Command::Write(pid, self.addrs.free, words.free));
        assert(out@ =~= old(out)@ + self.writing(pid, *words));
    }

    /// Sets up breakpoints on the first few bytes of `malloc`, `free` and the others.
    pub fn trap_libc<E: View>(&self, pid: Pid, out: &mut Outbox<E>)
        ensures
            final(out)@ == old(out)@ + self.trapping(pid),
    {
        let words = PerFn {
            malloc: BREAKPT_INSTR,
            calloc: BREAKPT_INSTR,
            aligned_alloc: BREAKPT_INSTR,
            posix_memalign: BREAKPT_INSTR,
            realloc: BREAKPT_INSTR,
            free: BREAKPT_INSTR,
        };
        self.write_all(pid, &words, out);
    }

    /// Fixes up the functions.
    pub fn fixup_libc<E: View>(&self, pid: Pid, out: &mut Outbox<E>)
        ensures
            final(out)@ == old(out)@ + self.fixing(pid),
    {
        self.write_all(pid, &self.words, out);
    }
}

/// A breakpoint for each of the functions.
pub open spec fn breakpoints() -> PerFn {
    PerFn {
        malloc: BREAKPT_INSTR,
        calloc: BREAKPT_INSTR,
        aligned_alloc: BREAKPT_INSTR,
        posix_memalign: BREAKPT_INSTR,
        realloc: BREAKPT_INSTR,
        free: BREAKPT_INSTR,
    }
}

/// Writing to the functions leaves each with its word, and touches nothing else.
pub proof fn lemma_writing<E>(table: LibcTable, pid: Pid, words: PerFn)
    requires
        table.addrs.distinct(),
    ensures
        forall|f: LibcFn|
            crate::script::last_write(
                table.writing::<E>(pid, words),
                pid,
                #[trigger] table.addrs.of(f),
            ) == Some(words.of(f)),
        forall|p: Pid, addr: usize|
            p != pid || table.fn_at(addr) is None ==> #[trigger] crate::script::last_write(
                table.writing::<E>(pid, words),
                p,
                addr,
            ) is None,
{
    reveal_with_fuel(crate::script::last_write, 7);
    let a = table.addrs;
    assert(a.of(LibcFn::Malloc) != a.of(LibcFn::Calloc));
    assert(a.of(LibcFn::AlignedAlloc) != a.of(LibcFn::PosixMemalign));
    assert(a.of(LibcFn::Realloc) != a.of(LibcFn::Free));
}

/// Once the functions are made to trap each begins with a breakpoint, and once they are
/// fixed up each begins with its own code again. Nothing else is ever written to.
pub proof fn law_fixup_undoes_trap<E>(table: LibcTable, pid: Pid)
    requires
        table.addrs.distinct(),
    ensures
        ({
            let trapped = table.trapping::<E>(pid);
            let both = trapped + table.fixing::<E>(pid);
            &&& forall|f: LibcFn|
                crate::script::last_write(trapped, pid, #[trigger] table.addrs.of(f)) == Some(
                    BREAKPT_INSTR,
                )
            &&& forall|f: LibcFn|
                crate::script::last_write(both, pid, #[trigger] table.addrs.of(f)) == Some(
                    table.words.of(f),
                )
            &&& forall|p: Pid, addr: usize|
                p != pid || table.fn_at(addr) is None ==> #[trigger] crate::script::last_write(
                    both,
                    p,
                    addr,
                ) is None
        }),
{
    lemma_writing::<E>(table, pid, breakpoints());
    lemma_writing::<E>(table, pid, table.words);
    let trapped = table.trapping::<E>(pid);
    let fixed = table.fixing::<E>(pid);
    assert forall|p: Pid, addr: usize| #[trigger]
        crate::script::last_write(trapped + fixed, p, addr) == (match crate::script::last_write(
        fixed,
        p,
        addr,
    ) {
        Some(word) => Some(word),
        None => crate::script::last_write(trapped, p, addr),
    }) by {
        crate::script::lemma_last_write_add(trapped, fixed, p, addr);
    }
}

/// A thread that executed the breakpoint at the start of a function is found to have
/// called that function.
pub proof fn law_fn_is_recognized(table: LibcTable, f: LibcFn)
    requires
        table.addrs.distinct(),
    ensures
        table.fn_at(table.addrs.of(f)) == Some(f),
{
    let a = table.addrs;
    assert(a.of(LibcFn::Malloc) == a.malloc);
    assert(a.of(LibcFn::Calloc) == a.calloc);
    assert(a.of(LibcFn::AlignedAlloc) == a.aligned_alloc);
    assert(a.of(LibcFn::PosixMemalign) == a.posix_memalign);
    assert(a.of(LibcFn::Realloc) == a.realloc);
    assert(a.of(LibcFn::Free) == a.free);
}

} // verus!
