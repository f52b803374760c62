//! What a list of commands comes to.
use vstd::prelude::*;

use crate::tracee::{Command, Pid};

verus! {

/// The word that the commands leave at an address of a thread, if they write there.
pub open spec fn last_write<E>(cmds: Seq<Command<E>>, pid: Pid, addr: usize) -> Option<usize>
    decreases cmds.len(),
{
    if cmds.len() == 0 {
        None
    } else {
        match cmds.last() {
            Command::Write(p, a, word) => if p == pid && a == addr {
                Some(word)
            } else {
                last_write(cmds.drop_last(), pid, addr)
            },
            _ => last_write(cmds.drop_last(), pid, addr),
        }
    }
}

/// What later commands write counts, and what earlier ones wrote where the later
/// ones do not.
pub proof fn lemma_last_write_add<E>(
    first: Seq<Command<E>>,
    then: Seq<Command<E>>,
    pid: Pid,
    addr: usize,
)
    ensures
        last_write(first + then, pid, addr) == (match last_write(then, pid, addr) {
            Some(word) => Some(word),
            None => last_write(first, pid, addr),
        }),
    decreases then.len(),
{
    if then.len() == 0 {
        assert(first + then =~= first);
    } else {
        assert((first + then).drop_last() =~= first + then.drop_last());
        assert((first + then).last() == then.last());
        lemma_last_write_add(first, then.drop_last(), pid, addr);
    }
}

} // verus!
