//! The record of heap allocations, and the functions it is about.
use std::ops::Range;

use vstd::prelude::*;

use crate::trace::LibcEvent;
use crate::tracee::{Command, Outbox, Pid};

verus! {

/// Values needed for us to intercept calls to certain libc functions, such as
/// their addresses and original content (before we overwrote them).
#[derive(Debug, Clone, Copy, PartialEq, Eq, Structural)]
pub struct MagicLibcValues {
    /// The address at which `malloc` begins in memory.
    pub malloc_addr: usize,
    /// The address at which `realloc` begins in memory.
    pub realloc_addr: usize,
    /// The address at which `free` begins in memory.
    pub free_addr: usize,
    /// The first word of machine code in `malloc`.
    pub malloc_bytes: usize,
    /// The first word of machine code in `realloc`.
    pub realloc_bytes: usize,
    /// The first word of machine code in `free`.
    pub free_bytes: usize,
}

impl MagicLibcValues {
    /// Whether the three functions stand at different addresses.
    pub open spec fn apart(self) -> bool {
        &&& self.malloc_addr != self.realloc_addr
        &&& self.malloc_addr != self.free_addr
        &&& self.realloc_addr != self.free_addr
    }

    /// The commands that give the functions back their original first words.
    pub open spec fn restoring<E>(self, pid: Pid) -> Seq<Command<E>> {
        seq![
            Command::Write(pid, self.malloc_addr, self.malloc_bytes),
            Command::Write(pid, self.realloc_addr, self.realloc_bytes),
            Command::Write(pid, self.free_addr, self.free_bytes),
        ]
    }

    /// The commands that put `data` at the start of each function.
    pub open spec fn overwriting<E>(self, pid: Pid, data: usize) -> Seq<Command<E>> {
        seq![
            Command::Write(pid, self.malloc_addr, data),
            Command::Write(pid, self.realloc_addr, data),
            Command::Write(pid, self.free_addr, data),
        ]
    }

    /// Restores the data at the start of the stored functions to its original
    /// contents on the child process.
    pub fn restore<E: View>(&self, pid: Pid, out: &mut Outbox<E>)
        ensures
            final(out)@ == old(out)@ + self.restoring(pid),
    {
        out.push(Command::Write(pid, self.malloc_addr, self.malloc_bytes));
        out.push(Command::Write(pid, self.realloc_addr, self.realloc_bytes));
        out.push(Command::Write(pid, self.free_addr, self.free_bytes));
        assert(out@ =~= old(out)@ + self.restoring(pid));
    }

    /// Overwrites the first word of the stored functions with the specified data, in
    /// the child process. `data` should be some kind of breakpoint instruction.
    pub fn overwrite_all<E: View>(&self, pid: Pid, data: usize, out: &mut Outbox<E>)
        ensures
            final(out)@ == old(out)@ + self.overwriting(pid, data),
    {
        out.push(Command::Write(pid, self.malloc_addr, data));
        out.push(Command::Write(pid, self.realloc_addr, data));
        out.push(Command::Write(pid, self.free_addr, data));
        assert(out@ =~= old(out)@ + self.overwriting(pid, data));
    }
}

/// Once the functions are overwritten each begins with the given word, and once they
/// are restored each begins with its own again. Nothing else is ever written to.
pub proof fn law_restore_undoes_overwrite<E>(vals: MagicLibcValues, pid: Pid, data: usize)
    requires
        vals.apart(),
    ensures
        ({
            let trapped = vals.overwriting::<E>(pid, data);
            let both = trapped + vals.restoring::<E>(pid);
            &&& crate::script::last_write(trapped, pid, vals.malloc_addr) == Some(data)
            &&& crate::script::last_write(trapped, pid, vals.realloc_addr) == Some(data)
            &&& crate::script::last_write(trapped, pid, vals.free_addr) == Some(data)
            &&& crate::script::last_write(both, pid, vals.malloc_addr) == Some(vals.malloc_bytes)
            &&& crate::script::last_write(both, pid, vals.realloc_addr) == Some(vals.realloc_bytes)
            &&& crate::script::last_write(both, pid, vals.free_addr) == Some(vals.free_bytes)
            &&& forall|p: Pid, a: usize|
                p != pid || (a != vals.malloc_addr && a != vals.realloc_addr && a != vals.free_addr)
                    ==> #[trigger] crate::script::last_write(both, p, a) is None
        }),
{
    reveal_with_fuel(crate::script::last_write, 4);
    let trapped = vals.overwriting::<E>(pid, data);
    let restored = vals.restoring::<E>(pid);
    assert forall|p: Pid, a: usize| #[trigger]
        crate::script::last_write(trapped + restored, p, a) == (match crate::script::last_write(
        restored,
        p,
        a,
    ) {
        Some(word) => Some(word),
        None => crate::script::last_write(trapped, p, a),
    }) by {
        crate::script::lemma_last_write_add(trapped, restored, p, a);
    }
}

/// Whether the event is an allocation that `ptr` points into. An allocation may be
/// freed by a pointer offset from its start.
pub open spec fn holds(event: LibcEvent, ptr: usize) -> bool {
    event matches LibcEvent::Malloc(range) && range.start <= ptr < range.end
}

/// Whether the event at `i` is the first that `ptr` points into.
pub open spec fn first_holding(events: Seq<LibcEvent>, ptr: usize, i: int) -> bool {
    &&& 0 <= i < events.len()
    &&& holds(events[i], ptr)
    &&& forall|j: int| 0 <= j < i ==> !holds(#[trigger] events[j], ptr)
}

/// The record after `ptr` was freed. An allocation that is on record is forgotten;
/// for any other the release is put on record.
pub open spec fn after_free(events: Seq<LibcEvent>, ptr: usize) -> Seq<LibcEvent> {
    if exists|i: int| first_holding(events, ptr, i) {
        events.remove(choose|i: int| first_holding(events, ptr, i))
    } else {
        events.push(LibcEvent::Free(ptr))
    }
}

/// The allocation of `size` bytes at `ptr`.
pub open spec fn allocation(ptr: usize, size: usize) -> LibcEvent {
    LibcEvent::Malloc(Range { start: ptr, end: (ptr + size) as usize })
}

/// The record after `size` bytes were allocated at `ptr`.
pub open spec fn after_malloc(events: Seq<LibcEvent>, ptr: usize, size: usize) -> Seq<LibcEvent> {
    events.push(allocation(ptr, size))
}

/// The record after `old_ptr` was moved to an allocation of `size` bytes at `ptr`.
pub open spec fn after_realloc(
    events: Seq<LibcEvent>,
    old_ptr: usize,
    ptr: usize,
    size: usize,
) -> Seq<LibcEvent> {
    after_malloc(after_free(events, old_ptr), ptr, size)
}

proof fn lemma_first_unique(events: Seq<LibcEvent>, ptr: usize, i: int)
    requires
        first_holding(events, ptr, i),
    ensures
        after_free(events, ptr) == events.remove(i),
{
    let k = choose|k: int| first_holding(events, ptr, k);
    assert(first_holding(events, ptr, k));
    if k < i {
        assert(!holds(events[k], ptr));
    } else if i < k {
        assert(!holds(events[i], ptr));
    }
}

/// Puts the release of `ptr` on record.
pub fn record_free(events: &mut Vec<LibcEvent>, ptr: usize)
    ensures
        final(events)@ == after_free(old(events)@, ptr),
{
    let mut i: usize = 0;
    while i < events.len()
        invariant
            i <= events@.len(),
            events@ == old(events)@,
            forall|j: int| 0 <= j < i ==> !holds(#[trigger] events@[j], ptr),
        decreases events@.len() - i,
    {
        let found: bool = match &events[i] {
            LibcEvent::Malloc(range) => range.start <= ptr && ptr < range.end,
            LibcEvent::Free(_) => false,
        };
        if found {
            proof {
                assert(first_holding(events@, ptr, i as int));
                lemma_first_unique(events@, ptr, i as int);
            }
            events.remove(i);
            return;
        }
        i = i + 1;
    }
    events.push(LibcEvent::Free(ptr));
}

/// Puts the allocation of `size` bytes at `ptr` on record.
pub fn record_malloc(events: &mut Vec<LibcEvent>, ptr: usize, size: usize)
    requires
        ptr + size <= usize::MAX,
    ensures
        final(events)@ == after_malloc(old(events)@, ptr, size),
{
    events.push(LibcEvent::Malloc(ptr..ptr + size));
}

/// An allocation that is freed again leaves no mark, if it was not empty and no other
/// on record holds the pointer it is freed by.
pub proof fn law_transient_allocation(events: Seq<LibcEvent>, ptr: usize, size: usize, by: usize)
    requires
        ptr + size <= usize::MAX,
        ptr <= by < ptr + size,
        forall|i: int| 0 <= i < events.len() ==> !holds(#[trigger] events[i], by),
    ensures
        after_free(after_malloc(events, ptr, size), by) == events,
{
    let all = after_malloc(events, ptr, size);
    let n = events.len() as int;
    assert forall|j: int| 0 <= j < n implies !holds(#[trigger] all[j], by) by {
        assert(all[j] == events[j]);
    }
    assert(first_holding(all, by, n));
    lemma_first_unique(all, by, n);
    assert(all.remove(n) =~= events);
}

/// A release of memory that is not on record is put on record, and changes nothing
/// else. One of memory that is on record removes one allocation that holds the
/// pointer, and changes nothing else.
pub proof fn law_free(events: Seq<LibcEvent>, ptr: usize)
    ensures
        (forall|i: int| 0 <= i < events.len() ==> !holds(#[trigger] events[i], ptr))
            ==> after_free(events, ptr) == events.push(LibcEvent::Free(ptr)),
        (exists|i: int| 0 <= i < events.len() && holds(#[trigger] events[i], ptr)) ==> exists|k: int|
            0 <= k < events.len() && holds(events[k], ptr) && after_free(events, ptr)
                == #[trigger] events.remove(k),
{
    if exists|i: int| 0 <= i < events.len() && holds(#[trigger] events[i], ptr) {
        let i = choose|i: int| 0 <= i < events.len() && holds(#[trigger] events[i], ptr);
        lemma_some_first(events, ptr, i);
        let k = choose|k: int| first_holding(events, ptr, k);
        lemma_first_unique(events, ptr, k);
    }
}

proof fn lemma_some_first(events: Seq<LibcEvent>, ptr: usize, i: int)
    requires
        0 <= i < events.len(),
        holds(events[i], ptr),
    ensures
        exists|k: int| first_holding(events, ptr, k),
    decreases i,
{
    if exists|j: int| 0 <= j < i && holds(#[trigger] events[j], ptr) {
        let j = choose|j: int| 0 <= j < i && holds(#[trigger] events[j], ptr);
        lemma_some_first(events, ptr, j);
    } else {
        assert(first_holding(events, ptr, i));
    }
}

/// Whether some allocation on record holds the pointer, and `i` is the first that does.
pub open spec fn first_with(events: Seq<LibcEvent>, ptr: usize, i: int) -> bool {
    &&& 0 <= i < events.len()
    &&& events[i] matches LibcEvent::Malloc(range) && range.start <= ptr < range.end
    &&& forall|j: int|
        0 <= j < i ==> !(#[trigger] events[j] matches LibcEvent::Malloc(range) && range.start <= ptr
            < range.end)
}

/// A release forgets the first allocation that holds the pointer. If there is none, the
/// release is put at the end. Nothing else changes.
pub proof fn law_free_forgets_the_first(events: Seq<LibcEvent>, ptr: usize, i: int)
    ensures
        first_with(events, ptr, i) ==> after_free(events, ptr) == events.remove(i),
        (forall|j: int| !#[trigger] first_with(events, ptr, j)) ==> after_free(events, ptr)
            == events.push(LibcEvent::Free(ptr)),
{
    assert forall|j: int| #[trigger] first_with(events, ptr, j) == first_holding(events, ptr, j) by {
        if first_with(events, ptr, j) {
            assert forall|k: int| 0 <= k < j implies !holds(#[trigger] events[k], ptr) by {}
        }
        if first_holding(events, ptr, j) {
            assert forall|k: int| 0 <= k < j implies !(
            #[trigger] events[k] matches LibcEvent::Malloc(range) && range.start <= ptr
                < range.end) by {
                assert(!holds(events[k], ptr));
            }
        }
    }
    if first_with(events, ptr, i) {
        lemma_first_unique(events, ptr, i);
    }
    if forall|j: int| !#[trigger] first_with(events, ptr, j) {
        assert forall|j: int| !#[trigger] first_holding(events, ptr, j) by {
            assert(!first_with(events, ptr, j));
        }
    }
}

/// An allocation is put at the end, from its pointer to as many bytes past it as were asked
/// for. Nothing else changes.
pub proof fn law_malloc_is_put_last(events: Seq<LibcEvent>, ptr: usize, size: usize)
    requires
        ptr + size <= usize::MAX,
    ensures
        after_malloc(events, ptr, size).len() == events.len() + 1,
        after_malloc(events, ptr, size).drop_last() == events,
        after_malloc(events, ptr, size).last() matches LibcEvent::Malloc(range) && range.start
            == ptr && range.end == ptr + size,
{
    assert(after_malloc(events, ptr, size).drop_last() =~= events);
}

/// A reallocation is a release of the old pointer followed by an allocation at the new one,
/// wherever that is, the same place included.
pub proof fn law_realloc_frees_then_allocates(
    events: Seq<LibcEvent>,
    old_ptr: usize,
    ptr: usize,
    size: usize,
    i: int,
)
    requires
        ptr + size <= usize::MAX,
    ensures
        ({
            let after = after_realloc(events, old_ptr, ptr, size);
            &&& first_with(events, old_ptr, i) ==> after.drop_last() == events.remove(i)
            &&& (forall|j: int| !#[trigger] first_with(events, old_ptr, j)) ==> after.drop_last()
                == events.push(LibcEvent::Free(old_ptr))
            &&& after.len() > 0
            &&& after.last() matches LibcEvent::Malloc(range) && range.start == ptr && range.end
                == ptr + size
        }),
{
    law_free_forgets_the_first(events, old_ptr, i);
    law_malloc_is_put_last(after_free(events, old_ptr), ptr, size);
}

/// Whether no byte belongs to two allocations on record.
pub open spec fn disjoint(events: Seq<LibcEvent>) -> bool {
    forall|i: int, j: int, byte: usize|
        0 <= i < j < events.len() && #[trigger] holds(events[i], byte) ==> !#[trigger] holds(
            events[j],
            byte,
        )
}

/// If no byte belongs to two allocations on record, none does after a reallocation to memory
/// that was free, or was the old allocation's own.
pub proof fn law_realloc_keeps_disjoint(
    events: Seq<LibcEvent>,
    old_ptr: usize,
    ptr: usize,
    size: usize,
    i: int,
)
    requires
        ptr + size <= usize::MAX,
        disjoint(events),
        first_with(events, old_ptr, i),
        forall|j: int, byte: usize|
            0 <= j < events.len() && j != i && ptr <= byte < ptr + size ==> !#[trigger] holds(
                events[j],
                byte,
            ),
    ensures
        disjoint(after_realloc(events, old_ptr, ptr, size)),
{
    law_realloc_frees_then_allocates(events, old_ptr, ptr, size, i);
    let after = after_realloc(events, old_ptr, ptr, size);
    let left = events.remove(i);
    let n = left.len() as int;
    assert(after.len() == n + 1);
    assert forall|a: int| 0 <= a < n implies after[a] == left[a] by {
        assert(after.drop_last()[a] == after[a]);
    }
    assert forall|a: int, b: int, byte: usize|
        0 <= a < b < after.len() && #[trigger] holds(after[a], byte) implies !#[trigger] holds(
        after[b],
        byte,
    ) by {
        let ea = if a < i {
            a
        } else {
            a + 1
        };
        assert(left[a] == events[ea]);
        if b < n {
            let eb = if b < i {
                b
            } else {
                b + 1
            };
            assert(left[b] == events[eb]);
            assert(holds(events[ea], byte));
        } else {
            assert(holds(events[ea], byte));
        }
    }
}

/// An allocation that is moved, or grows where it is, and is then freed leaves no mark, if
/// neither it nor what it became was empty and nothing else on record holds the pointers.
pub proof fn law_moved_allocation_vanishes(
    events: Seq<LibcEvent>,
    p: usize,
    old_size: usize,
    q: usize,
    size: usize,
)
    requires
        0 < old_size,
        0 < size,
        p + old_size <= usize::MAX,
        q + size <= usize::MAX,
        forall|i: int|
            0 <= i < events.len() ==> !holds(#[trigger] events[i], p) && !holds(events[i], q),
    ensures
        after_free(
            after_realloc(after_malloc(events, p, old_size), p, q, size),
            q,
        ) == events,
{
    law_transient_allocation(events, p, old_size, p);
    law_transient_allocation(events, q, size, q);
    let n = events.len() as int;
    let held = after_malloc(events, p, old_size);
    assert(first_with(held, p, n)) by {
        assert forall|j: int| 0 <= j < n implies !(
        #[trigger] held[j] matches LibcEvent::Malloc(range) && range.start <= p < range.end) by {
            assert(held[j] == events[j]);
            assert(!holds(events[j], p));
        }
    }
    law_realloc_frees_then_allocates(held, p, q, size, n);
    law_malloc_is_put_last(events, q, size);
    let moved = after_realloc(held, p, q, size);
    assert(held.remove(n) =~= events);
    assert(moved =~= after_malloc(events, q, size)) by {
        assert(moved.drop_last() == events);
        let direct = after_malloc(events, q, size);
        assert(moved =~= moved.drop_last().push(moved.last()));
        assert(direct =~= direct.drop_last().push(direct.last()));
        assert(moved.last() == direct.last());
    }
}

} // verus!
