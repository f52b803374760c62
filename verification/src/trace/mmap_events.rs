//! The record of pages mapped and unmapped.
use vstd::prelude::*;

use crate::pages::page_at;
use crate::trace::MmapEvent;

verus! {

/// The record after a run of pages was mapped. Unmappings of the same pages stay:
/// pointers into memory that was deallocated do not come back to life when it gets
/// reallocated.
pub open spec fn after_mmap(events: Seq<MmapEvent>, run: Seq<usize>) -> Seq<MmapEvent> {
    events + run.map_values(|pg: usize| MmapEvent::Mmap(pg))
}

/// Whether the event is the mapping of one of the pages.
pub open spec fn maps_one_of(event: MmapEvent, run: Seq<usize>) -> bool {
    event matches MmapEvent::Mmap(pg) && run.contains(pg)
}

/// The record after a run of pages was unmapped: mappings of them are removed, and
/// the pages of which no mapping was on record are put down as unmapped.
pub open spec fn after_munmap(events: Seq<MmapEvent>, run: Seq<usize>) -> Seq<MmapEvent> {
    events.filter(|e: MmapEvent| !maps_one_of(e, run)) + run.filter(
        |pg: usize| !events.contains(MmapEvent::Mmap(pg)),
    ).map_values(|pg: usize| MmapEvent::Munmap(pg))
}

/// Puts the mapping of a run of pages on record.
pub fn record_mmap(events: &mut Vec<MmapEvent>, addr: usize, count: usize, page_size: usize)
    requires
        crate::pages::run_fits(addr, count, page_size),
    ensures
        final(events)@ == after_mmap(
            old(events)@,
            crate::pages::page_run(addr, count, page_size),
        ),
{
    let ghost maps = crate::pages::page_run(addr, count, page_size).map_values(
        |pg: usize| MmapEvent::Mmap(pg),
    );
    let mut i: usize = 0;
    while i < count
        invariant
            i <= count,
            crate::pages::run_fits(addr, count, page_size),
            maps == crate::pages::page_run(addr, count, page_size).map_values(
                |pg: usize| MmapEvent::Mmap(pg),
            ),
            events@ == old(events)@ + maps.take(i as int),
        decreases count - i,
    {
        events.push(MmapEvent::Mmap(page_at(addr, i, count, page_size)));
        assert(maps.take(i + 1) =~= maps.take(i as int).push(maps[i as int]));
        i = i + 1;
    }
    assert(maps.take(count as int) =~= maps);
}

/// Whether the page is one of a run.
pub fn in_run(pg: usize, addr: usize, count: usize, page_size: usize) -> (found: bool)
    requires
        crate::pages::run_fits(addr, count, page_size),
    ensures
        found == crate::pages::page_run(addr, count, page_size).contains(pg),
{
    let ghost run = crate::pages::page_run(addr, count, page_size);
    let mut i: usize = 0;
    while i < count
        invariant
            i <= count,
            crate::pages::run_fits(addr, count, page_size),
            run == crate::pages::page_run(addr, count, page_size),
            forall|j: int| 0 <= j < i ==> run[j] != pg,
        decreases count - i,
    {
        if page_at(addr, i, count, page_size) == pg {
            return true;
        }
        i = i + 1;
    }
    false
}

/// Whether the mapping of a page is on record.
pub fn is_mapped(events: &Vec<MmapEvent>, pg: usize) -> (found: bool)
    ensures
        found == events@.contains(MmapEvent::Mmap(pg)),
{
    let mut i: usize = 0;
    while i < events.len()
        invariant
            i <= events@.len(),
            forall|j: int| 0 <= j < i ==> events@[j] != MmapEvent::Mmap(pg),
        decreases events@.len() - i,
    {
        if events[i] == MmapEvent::Mmap(pg) {
            return true;
        }
        i = i + 1;
    }
    false
}

/// Whether the mapping of any page is on record.
pub open spec fn has_mapping(events: Seq<MmapEvent>) -> bool {
    exists|i: int| 0 <= i < events.len() && #[trigger] events[i] is Mmap
}

/// Whether the mapping of any page is on record.
pub fn any_mapped(events: &Vec<MmapEvent>) -> (found: bool)
    ensures
        found == has_mapping(events@),
{
    let mut i: usize = 0;
    while i < events.len()
        invariant
            i <= events@.len(),
            forall|j: int| 0 <= j < i ==> !(#[trigger] events@[j] is Mmap),
        decreases events@.len() - i,
    {
        if let MmapEvent::Mmap(_) = events[i] {
            return true;
        }
        i = i + 1;
    }
    false
}

/// Updates the record following the unmapping of a run of pages, removing their
/// mappings from it if possible or registering it as an unmapping of other memory
/// otherwise.
pub fn record_munmap(events: &mut Vec<MmapEvent>, addr: usize, count: usize, page_size: usize)
    requires
        crate::pages::run_fits(addr, count, page_size),
    ensures
        final(events)@ == after_munmap(
            old(events)@,
            crate::pages::page_run(addr, count, page_size),
        ),
{
    let ghost run = crate::pages::page_run(addr, count, page_size);
    let ghost keep = |e: MmapEvent| !maps_one_of(e, run);
    let ghost fresh = |pg: usize| !events@.contains(MmapEvent::Mmap(pg));
    let ghost unmap = |pg: usize| MmapEvent::Munmap(pg);
    let mut left: Vec<MmapEvent> = Vec::new();
    let mut i: usize = 0;
    assert(events@.take(0).filter(keep) =~= Seq::empty());
    while i < events.len()
        invariant
            i <= events@.len(),
            events@ == old(events)@,
            crate::pages::run_fits(addr, count, page_size),
            run == crate::pages::page_run(addr, count, page_size),
            keep == |e: MmapEvent| !maps_one_of(e, run),
            left@ == events@.take(i as int).filter(keep),
        decreases events@.len() - i,
    {
        let event: MmapEvent = events[i];
        let gone: bool = match event {
            MmapEvent::Mmap(pg) => in_run(pg, addr, count, page_size),
            MmapEvent::Munmap(_) => false,
        };
        proof {
            crate::seqs::lemma_filter_step(events@, i as int, keep);
        }
        if !gone {
            left.push(event);
        }
        i = i + 1;
    }
    assert(events@.take(i as int) =~= events@);
    let ghost kept = left@;
    let mut i: usize = 0;
    assert(kept + run.take(0).filter(fresh).map_values(unmap) =~= kept);
    while i < count
        invariant
            i <= count,
            events@ == old(events)@,
            crate::pages::run_fits(addr, count, page_size),
            run == crate::pages::page_run(addr, count, page_size),
            fresh == |pg: usize| !events@.contains(MmapEvent::Mmap(pg)),
            unmap == |pg: usize| MmapEvent::Munmap(pg),
            left@ == kept + run.take(i as int).filter(fresh).map_values(unmap),
        decreases count - i,
    {
        let pg: usize = page_at(addr, i, count, page_size);
        proof {
            crate::seqs::lemma_filter_step(run, i as int, fresh);
        }
        if !is_mapped(events, pg) {
            left.push(MmapEvent::Munmap(pg));
        }
        assert(left@ =~= kept + run.take(i + 1).filter(fresh).map_values(unmap));
        i = i + 1;
    }
    assert(run.take(count as int) =~= run);
    *events = left;
}

/// A mapping that is undone before the trace ends leaves no mark, if the pages were
/// not on record as mapped before.
pub proof fn law_transient_mapping(events: Seq<MmapEvent>, run: Seq<usize>)
    requires
        forall|i: int| 0 <= i < run.len() ==> !events.contains(MmapEvent::Mmap(#[trigger] run[i])),
    ensures
        after_munmap(after_mmap(events, run), run) == events,
{
    let maps = run.map_values(|pg: usize| MmapEvent::Mmap(pg));
    let all = after_mmap(events, run);
    let keep = |e: MmapEvent| !maps_one_of(e, run);
    let fresh = |pg: usize| !all.contains(MmapEvent::Mmap(pg));
    assert forall|i: int| 0 <= i < events.len() implies keep(#[trigger] events[i]) by {
        if maps_one_of(events[i], run) {
            let pg = events[i]->Mmap_0;
            let k = choose|k: int| 0 <= k < run.len() && run[k] == pg;
            assert(run[k] == pg);
            assert(events.contains(events[i]));
        }
    }
    assert forall|i: int| 0 <= i < maps.len() implies !keep(#[trigger] maps[i]) by {
        assert(run.contains(run[i]));
    }
    assert forall|i: int| 0 <= i < run.len() implies !fresh(#[trigger] run[i]) by {
        assert(all[events.len() + i] == MmapEvent::Mmap(run[i]));
    }
    Seq::filter_distributes_over_add(events, maps, keep);
    crate::seqs::lemma_filter_all(events, keep);
    crate::seqs::lemma_filter_none(maps, keep);
    crate::seqs::lemma_filter_none(run, fresh);
    assert(after_munmap(all, run) =~= events);
}

/// After an unmapping none of its pages is on record as mapped, and those that were
/// not mapped before are on record as unmapped.
pub proof fn law_unmapped(events: Seq<MmapEvent>, run: Seq<usize>, pg: usize)
    requires
        run.contains(pg),
    ensures
        !after_munmap(events, run).contains(MmapEvent::Mmap(pg)),
        !events.contains(MmapEvent::Mmap(pg)) ==> after_munmap(events, run).contains(
            MmapEvent::Munmap(pg),
        ),
{
    let keep = |e: MmapEvent| !maps_one_of(e, run);
    let fresh = |p: usize| !events.contains(MmapEvent::Mmap(p));
    let kept = events.filter(keep);
    let new = run.filter(fresh);
    let news = new.map_values(|p: usize| MmapEvent::Munmap(p));
    let all = after_munmap(events, run);
    if all.contains(MmapEvent::Mmap(pg)) {
        let k = choose|k: int| 0 <= k < all.len() && all[k] == MmapEvent::Mmap(pg);
        if k < kept.len() {
            assert(keep(kept[k]));
        } else {
            assert(all[k] == news[k - kept.len()]);
        }
    }
    if !events.contains(MmapEvent::Mmap(pg)) {
        assert(fresh(pg));
        assert(new.contains(pg));
        let k = choose|k: int| 0 <= k < new.len() && new[k] == pg;
        assert(all[kept.len() + k] == MmapEvent::Munmap(pg));
    }
}

/// Whether every address on record is a multiple of the page size.
pub open spec fn aligned(events: Seq<MmapEvent>, page_size: usize) -> bool {
    forall|i: int|
        0 <= i < events.len() ==> (match #[trigger] events[i] {
            MmapEvent::Mmap(pg) => pg,
            MmapEvent::Munmap(pg) => pg,
        }) % page_size == 0
}

/// The record holds page-aligned addresses only, as long as what is mapped and
/// unmapped starts at a page.
pub proof fn law_aligned(
    events: Seq<MmapEvent>,
    addr: usize,
    count: usize,
    page_size: usize,
)
    requires
        page_size > 0,
        addr % page_size == 0,
        crate::pages::run_fits(addr, count, page_size),
        aligned(events, page_size),
    ensures
        aligned(after_mmap(events, crate::pages::page_run(addr, count, page_size)), page_size),
        aligned(after_munmap(events, crate::pages::page_run(addr, count, page_size)), page_size),
{
    let run = crate::pages::page_run(addr, count, page_size);
    crate::pages::lemma_run_aligned(addr, count, page_size);
    let keep = |e: MmapEvent| !maps_one_of(e, run);
    let fresh = |p: usize| !events.contains(MmapEvent::Mmap(p));
    let kept = events.filter(keep);
    let new = run.filter(fresh);
    let all = after_munmap(events, run);
    assert forall|i: int| 0 <= i < all.len() implies (match #[trigger] all[i] {
        MmapEvent::Mmap(pg) => pg,
        MmapEvent::Munmap(pg) => pg,
    }) % page_size == 0 by {
        if i < kept.len() {
            assert(all[i] == kept[i]);
            assert(kept.contains(kept[i]));
            events.lemma_filter_contains_rev(keep, kept[i]);
            assert(events.contains(kept[i]));
        } else {
            assert(all[i] == MmapEvent::Munmap(new[i - kept.len()]));
            assert(new.contains(new[i - kept.len()]));
            run.lemma_filter_contains_rev(fresh, new[i - kept.len()]);
            assert(run.contains(new[i - kept.len()]));
        }
    }
}

/// A mapping is put at the end, page by page in the order of the pages. Nothing else
/// changes.
pub proof fn law_mapping_is_put_last(events: Seq<MmapEvent>, run: Seq<usize>, i: int)
    ensures
        after_mmap(events, run).len() == events.len() + run.len(),
        0 <= i < events.len() ==> after_mmap(events, run)[i] == events[i],
        0 <= i < run.len() ==> after_mmap(events, run)[events.len() + i] == MmapEvent::Mmap(run[i]),
{
}

/// What an unmapping does to a record is what it does to its parts: the events that it leaves
/// of one part are followed by those that it leaves of the next, and the pages that are put
/// down as unmapped come last, in their order.
pub proof fn law_unmapping_keeps_order(events: Seq<MmapEvent>, run: Seq<usize>, e: MmapEvent)
    requires
        !(e matches MmapEvent::Mmap(pg) && run.contains(pg)),
        forall|pg: usize| #[trigger] run.contains(pg) ==> events.contains(MmapEvent::Mmap(pg)),
    ensures
        after_munmap(events.push(e), run) == after_munmap(events, run).push(e),
{
    let keep = |x: MmapEvent| !maps_one_of(x, run);
    let more = events.push(e);
    let fresh = |pg: usize| !events.contains(MmapEvent::Mmap(pg));
    let fresh_more = |pg: usize| !more.contains(MmapEvent::Mmap(pg));
    assert forall|i: int| 0 <= i < run.len() implies !fresh(#[trigger] run[i]) && !fresh_more(
        run[i],
    ) by {
        assert(run.contains(run[i]));
        let k = choose|k: int| 0 <= k < events.len() && events[k] == MmapEvent::Mmap(run[i]);
        assert(more[k] == MmapEvent::Mmap(run[i]));
    }
    crate::seqs::lemma_filter_none(run, fresh);
    crate::seqs::lemma_filter_none(run, fresh_more);
    let n = events.len() as int;
    crate::seqs::lemma_filter_step(more, n, keep);
    assert(more.take(n + 1) =~= more);
    assert(more.take(n) =~= events);
    assert(after_munmap(more, run) =~= after_munmap(events, run).push(e));
}

/// Events that are no mappings of the pages stay on record as they are, and pages of which no
/// mapping is on record are put down as unmapped behind them, in their order.
pub proof fn law_unmapping_of_others(events: Seq<MmapEvent>, run: Seq<usize>, i: int)
    requires
        forall|k: int|
            0 <= k < events.len() ==> !(#[trigger] events[k] matches MmapEvent::Mmap(pg)
                && run.contains(pg)),
    ensures
        after_munmap(events, run).len() == events.len() + run.len(),
        0 <= i < events.len() ==> after_munmap(events, run)[i] == events[i],
        0 <= i < run.len() ==> after_munmap(events, run)[events.len() + i] == MmapEvent::Munmap(
            run[i],
        ),
{
    let keep = |x: MmapEvent| !maps_one_of(x, run);
    let fresh = |pg: usize| !events.contains(MmapEvent::Mmap(pg));
    crate::seqs::lemma_filter_all(events, keep);
    assert forall|k: int| 0 <= k < run.len() implies fresh(#[trigger] run[k]) by {
        if events.contains(MmapEvent::Mmap(run[k])) {
            let j = choose|j: int| 0 <= j < events.len() && events[j] == MmapEvent::Mmap(run[k]);
            assert(run.contains(run[k]));
        }
    }
    crate::seqs::lemma_filter_all(run, fresh);
}

/// An unmapping loses nothing but mappings of its pages, and adds nothing but unmappings of
/// them.
pub proof fn law_unmapping_spares_others(events: Seq<MmapEvent>, run: Seq<usize>, e: MmapEvent)
    ensures
        events.contains(e) && !(e matches MmapEvent::Mmap(pg) && run.contains(pg))
            ==> after_munmap(events, run).contains(e),
        after_munmap(events, run).contains(e) && !events.contains(e) ==> (
        e matches MmapEvent::Munmap(pg) && run.contains(pg) && !events.contains(
            MmapEvent::Mmap(pg),
        )),
{
    let keep = |x: MmapEvent| !maps_one_of(x, run);
    let fresh = |pg: usize| !events.contains(MmapEvent::Mmap(pg));
    let kept = events.filter(keep);
    let new = run.filter(fresh);
    let all = after_munmap(events, run);
    if events.contains(e) && keep(e) {
        assert(kept.contains(e));
        let k = choose|k: int| 0 <= k < kept.len() && kept[k] == e;
        assert(all[k] == e);
    }
    if all.contains(e) && !events.contains(e) {
        let k = choose|k: int| 0 <= k < all.len() && all[k] == e;
        if k < kept.len() {
            assert(kept.contains(kept[k]));
            events.lemma_filter_contains_rev(keep, kept[k]);
        } else {
            let pg = new[k - kept.len()];
            assert(new.contains(pg));
            run.lemma_filter_contains_rev(fresh, pg);
            assert(fresh(pg));
        }
    }
}

/// Whether any page is on record as mapped.
pub proof fn law_has_mapping(events: Seq<MmapEvent>)
    ensures
        has_mapping(events) <==> exists|pg: usize| #[trigger] events.contains(MmapEvent::Mmap(pg)),
{
    if has_mapping(events) {
        let i = choose|i: int| 0 <= i < events.len() && #[trigger] events[i] is Mmap;
        let pg = events[i]->Mmap_0;
        assert(events.contains(MmapEvent::Mmap(pg)));
    }
}

/// Unmapping a stretch of pages is unmapping its first part and then the rest, as long as the
/// two have no page in common.
pub proof fn law_unmapping_in_two_goes(events: Seq<MmapEvent>, a: Seq<usize>, b: Seq<usize>)
    requires
        forall|i: int, j: int| 0 <= i < a.len() && 0 <= j < b.len() ==> a[i] != b[j],
    ensures
        after_munmap(events, a + b) == after_munmap(after_munmap(events, a), b),
{
    let run = a + b;
    let keep_a = |e: MmapEvent| !maps_one_of(e, a);
    let keep_b = |e: MmapEvent| !maps_one_of(e, b);
    let keep = |e: MmapEvent| !maps_one_of(e, run);
    let fresh = |pg: usize| !events.contains(MmapEvent::Mmap(pg));
    let between = after_munmap(events, a);
    let fresh_b = |pg: usize| !between.contains(MmapEvent::Mmap(pg));
    let unmap = |pg: usize| MmapEvent::Munmap(pg);
    let kept_a = events.filter(keep_a);
    let new_a = a.filter(fresh);
    let new_b = b.filter(fresh);
    let news_a = new_a.map_values(unmap);
    assert forall|i: int| 0 <= i < events.len() implies keep(#[trigger] events[i]) == (keep_a(
        events[i],
    ) && keep_b(events[i])) by {
        if let MmapEvent::Mmap(pg) = events[i] {
            if a.contains(pg) {
                let k = choose|k: int| 0 <= k < a.len() && a[k] == pg;
                assert(run[k] == pg);
            }
            if b.contains(pg) {
                let k = choose|k: int| 0 <= k < b.len() && b[k] == pg;
                assert(run[a.len() + k] == pg);
            }
            if run.contains(pg) {
                let k = choose|k: int| 0 <= k < run.len() && run[k] == pg;
                if k < a.len() {
                    assert(a[k] == pg);
                } else {
                    assert(b[k - a.len()] == pg);
                }
            }
        }
    }
    crate::seqs::lemma_filter_filter(events, keep_a, keep_b, keep);
    assert forall|i: int| 0 <= i < news_a.len() implies keep_b(#[trigger] news_a[i]) by {}
    crate::seqs::lemma_filter_all(news_a, keep_b);
    Seq::filter_distributes_over_add(kept_a, news_a, keep_b);
    assert forall|j: int| 0 <= j < b.len() implies fresh(#[trigger] b[j]) == fresh_b(b[j]) by {
        let e = MmapEvent::Mmap(b[j]);
        assert(!a.contains(b[j])) by {
            if a.contains(b[j]) {
                let k = choose|k: int| 0 <= k < a.len() && a[k] == b[j];
            }
        }
        law_unmapping_spares_others(events, a, e);
    }
    crate::seqs::lemma_filter_same(b, fresh, fresh_b);
    Seq::filter_distributes_over_add(a, b, fresh);
    assert((new_a + new_b).map_values(unmap) =~= news_a + new_b.map_values(unmap));
    assert(after_munmap(events, run) =~= after_munmap(between, b));
}

/// A page that was mapped more than once is taken off the record all the same.
pub proof fn law_unmapping_takes_all(events: Seq<MmapEvent>, run: Seq<usize>, pg: usize)
    requires
        run.contains(pg),
        events.contains(MmapEvent::Mmap(pg)),
    ensures
        after_munmap(events.push(MmapEvent::Mmap(pg)), run) == after_munmap(events, run),
{
    let e = MmapEvent::Mmap(pg);
    let keep = |x: MmapEvent| !maps_one_of(x, run);
    let more = events.push(e);
    let fresh = |p: usize| !events.contains(MmapEvent::Mmap(p));
    let fresh_more = |p: usize| !more.contains(MmapEvent::Mmap(p));
    let n = events.len() as int;
    crate::seqs::lemma_filter_step(more, n, keep);
    assert(more.take(n + 1) =~= more);
    assert(more.take(n) =~= events);
    assert forall|i: int| 0 <= i < run.len() implies fresh(#[trigger] run[i]) == fresh_more(
        run[i],
    ) by {
        let x = MmapEvent::Mmap(run[i]);
        if events.contains(x) {
            let k = choose|k: int| 0 <= k < events.len() && events[k] == x;
            assert(more[k] == x);
        }
        if more.contains(x) {
            let k = choose|k: int| 0 <= k < more.len() && more[k] == x;
            if k < n {
                assert(events[k] == x);
            }
        }
    }
    crate::seqs::lemma_filter_same(run, fresh, fresh_more);
}

} // verus!
