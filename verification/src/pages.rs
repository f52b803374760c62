//! Pages, runs of consecutive pages, and the list of pages that foreign code may
//! touch.
use vstd::prelude::*;

verus! {

/// Whether `addr` lies in the page that starts at `pg`.
pub open spec fn in_page(pg: usize, page_size: usize, addr: usize) -> bool {
    pg <= addr < pg + page_size
}

/// Whether `addr` lies in one of the pages.
pub open spec fn owned(pages: Seq<usize>, page_size: usize, addr: usize) -> bool {
    exists|i: int| 0 <= i < pages.len() && in_page(#[trigger] pages[i], page_size, addr)
}

/// The start of the page that holds `addr`, on a machine whose pages start at
/// multiples of the page size.
pub open spec fn page_base(addr: usize, page_size: usize) -> usize {
    (addr - addr % page_size) as usize
}

/// Whether the last of `count` pages from `addr` on still starts at an address.
pub open spec fn run_fits(addr: usize, count: usize, page_size: usize) -> bool {
    count > 0 ==> addr + (count - 1) * page_size <= usize::MAX
}

/// The starts of `count` consecutive pages from `addr` on.
pub open spec fn page_run(addr: usize, count: usize, page_size: usize) -> Seq<usize> {
    Seq::new(count as nat, |i: int| (addr + i * page_size) as usize)
}

/// Whether `addr` lies in one of the pages.
pub fn owns(pages: &Vec<usize>, page_size: usize, addr: usize) -> (found: bool)
    ensures
        found == owned(pages@, page_size, addr),
{
    let mut i: usize = 0;
    while i < pages.len()
        invariant
            i <= pages@.len(),
            forall|j: int| 0 <= j < i ==> !in_page(#[trigger] pages@[j], page_size, addr),
        decreases pages@.len() - i,
    {
        let pg: usize = pages[i];
        if pg <= addr && addr - pg < page_size {
            assert(in_page(pages@[i as int], page_size, addr));
            return true;
        }
        i = i + 1;
    }
    false
}

/// Whether the page that starts at `pg` is in the list.
pub fn has_page(pages: &Vec<usize>, pg: usize) -> (found: bool)
    ensures
        found == pages@.contains(pg),
{
    let mut i: usize = 0;
    while i < pages.len()
        invariant
            i <= pages@.len(),
            forall|j: int| 0 <= j < i ==> pages@[j] != pg,
        decreases pages@.len() - i,
    {
        if pages[i] == pg {
            return true;
        }
        i = i + 1;
    }
    false
}

/// The start of the page that holds `addr`.
pub fn page_of(addr: usize, page_size: usize) -> (pg: usize)
    requires
        page_size > 0,
    ensures
        pg == page_base(addr, page_size),
        pg % page_size == 0,
        pg <= addr < pg + page_size,
{
    proof {
        lemma_page_base(addr, page_size);
    }
    addr - addr % page_size
}

/// The page that holds an address starts at a multiple of the page size, at or
/// below the address and less than a page from it.
pub proof fn lemma_page_base(addr: usize, page_size: usize)
    requires
        page_size > 0,
    ensures
        page_base(addr, page_size) % page_size == 0,
        page_base(addr, page_size) <= addr < page_base(addr, page_size) + page_size,
        addr % page_size <= addr,
{
    let a = addr as int;
    let p = page_size as int;
    assert(0 <= a % p < p && a % p <= a && (a - a % p) % p == 0) by (nonlinear_arith)
        requires
            a >= 0,
            p > 0,
    ;
}

/// Whether the last of `count` pages from `addr` on still starts at an address.
pub fn check_run(addr: usize, count: usize, page_size: usize) -> (fits: bool)
    ensures
        fits == run_fits(addr, count, page_size),
{
    if count == 0 {
        return true;
    }
    match (count - 1).checked_mul(page_size) {
        Some(offset) => addr.checked_add(offset).is_some(),
        None => {
            assert(addr + (count - 1) * page_size > usize::MAX);
            false
        },
    }
}

/// The start of the page `i` pages past the one at `addr`.
pub fn page_at(addr: usize, i: usize, count: usize, page_size: usize) -> (pg: usize)
    requires
        run_fits(addr, count, page_size),
        i < count,
    ensures
        pg == page_run(addr, count, page_size)[i as int],
        pg == addr + i * page_size,
{
    proof {
        lemma_run_index(addr, i as int, count, page_size);
    }
    addr + i * page_size
}

/// Each page of a run that fits starts `page_size` past the one before.
pub proof fn lemma_run_index(addr: usize, i: int, count: usize, page_size: usize)
    requires
        run_fits(addr, count, page_size),
        0 <= i < count,
    ensures
        0 <= i * page_size <= usize::MAX,
        page_run(addr, count, page_size)[i] == addr + i * page_size,
        addr + i * page_size <= usize::MAX,
{
    let p = page_size as int;
    let c = count as int;
    assert(0 <= i * p <= (c - 1) * p) by (nonlinear_arith)
        requires
            0 <= i <= c - 1,
            p >= 0,
    ;
}

/// No two pages of a run are the same.
pub proof fn lemma_run_distinct(addr: usize, count: usize, page_size: usize)
    requires
        run_fits(addr, count, page_size),
        page_size > 0,
    ensures
        page_run(addr, count, page_size).no_duplicates(),
{
    let run = page_run(addr, count, page_size);
    assert forall|i: int, j: int| 0 <= i < run.len() && 0 <= j < run.len() && i != j implies run[i]
        != run[j] by {
        lemma_run_index(addr, i, count, page_size);
        lemma_run_index(addr, j, count, page_size);
        let p = page_size as int;
        assert(i * p != j * p) by (nonlinear_arith)
            requires
                i != j,
                p > 0,
        ;
    }
}

/// The pages of a run that starts at a multiple of the page size are multiples too.
pub proof fn lemma_run_aligned(addr: usize, count: usize, page_size: usize)
    requires
        run_fits(addr, count, page_size),
        page_size > 0,
        addr % page_size == 0,
    ensures
        forall|i: int|
            0 <= i < count ==> #[trigger] page_run(addr, count, page_size)[i] % page_size == 0,
{
    assert forall|i: int| 0 <= i < count implies #[trigger] page_run(addr, count, page_size)[i]
        % page_size == 0 by {
        lemma_run_index(addr, i, count, page_size);
        let a = addr as int;
        let p = page_size as int;
        assert((a + i * p) % p == 0) by {
            vstd::arithmetic::div_mod::lemma_mod_multiples_vanish(i, a, p);
            assert(p * i + a == a + i * p) by (nonlinear_arith);
        }
    }
}

/// Adds a run of pages to the list.
pub fn add_pages(pages: &mut Vec<usize>, addr: usize, count: usize, page_size: usize)
    requires
        run_fits(addr, count, page_size),
    ensures
        final(pages)@ == old(pages)@ + page_run(addr, count, page_size),
{
    let ghost run = page_run(addr, count, page_size);
    let mut i: usize = 0;
    while i < count
        invariant
            i <= count,
            run_fits(addr, count, page_size),
            run == page_run(addr, count, page_size),
            pages@ == old(pages)@ + run.take(i as int),
        decreases count - i,
    {
        let pg: usize = page_at(addr, i, count, page_size);
        pages.push(pg);
        assert(run.take(i + 1) =~= run.take(i as int).push(run[i as int]));
        i = i + 1;
    }
    assert(run.take(count as int) =~= run);
}

/// The list without the first occurrence of each of the pages in `gone`, or `None`
/// if one of them is not there to be removed.
pub open spec fn without(pages: Seq<usize>, gone: Seq<usize>) -> Option<Seq<usize>>
    decreases gone.len(),
{
    if gone.len() == 0 {
        Some(pages)
    } else if pages.contains(gone[0]) {
        without(pages.remove(pages.index_of_first(gone[0])->0), gone.skip(1))
    } else {
        None
    }
}

/// Removes the page that starts at `pg` from the list, where it first occurs, and
/// says whether it did.
pub fn remove_page(pages: &mut Vec<usize>, pg: usize) -> (found: bool)
    ensures
        found == old(pages)@.contains(pg),
        found ==> final(pages)@ == old(pages)@.remove(old(pages)@.index_of_first(pg)->0),
        !found ==> final(pages)@ == old(pages)@,
{
    let mut i: usize = 0;
    while i < pages.len()
        invariant
            i <= pages@.len(),
            pages@ == old(pages)@,
            forall|j: int| 0 <= j < i ==> pages@[j] != pg,
        decreases pages@.len() - i,
    {
        if pages[i] == pg {
            proof {
                pages@.index_of_first_ensures(pg);
            }
            pages.remove(i);
            return true;
        }
        i = i + 1;
    }
    false
}

/// Removes a run of pages from the list, each where it first occurs. `false` means
/// that one of them was not in the list; the removal stopped there.
pub fn del_pages(pages: &mut Vec<usize>, addr: usize, count: usize, page_size: usize) -> (all: bool)
    requires
        run_fits(addr, count, page_size),
    ensures
        all == (without(old(pages)@, page_run(addr, count, page_size)) is Some),
        all ==> without(old(pages)@, page_run(addr, count, page_size)) == Some(final(pages)@),
{
    let ghost run = page_run(addr, count, page_size);
    let mut i: usize = 0;
    assert(run.skip(0) =~= run);
    while i < count
        invariant
            i <= count,
            run_fits(addr, count, page_size),
            run == page_run(addr, count, page_size),
            run.len() == count,
            without(pages@, run.skip(i as int)) == without(old(pages)@, run),
        decreases count - i,
    {
        let pg: usize = page_at(addr, i, count, page_size);
        assert(run.skip(i as int)[0] == pg);
        assert(run.skip(i as int).skip(1) =~= run.skip(i + 1));
        if !remove_page(pages, pg) {
            return false;
        }
        i = i + 1;
    }
    true
}

/// Pages that are added and then removed leave the list as it was, if none of them
/// was in it.
pub proof fn law_add_then_del(pages: Seq<usize>, gone: Seq<usize>)
    requires
        gone.no_duplicates(),
        forall|i: int| 0 <= i < gone.len() ==> !pages.contains(#[trigger] gone[i]),
    ensures
        without(pages + gone, gone) == Some(pages),
    decreases gone.len(),
{
    let all = pages + gone;
    if gone.len() == 0 {
        assert(all =~= pages);
    } else {
        let pg = gone[0];
        assert(all[pages.len() as int] == pg);
        assert(all.contains(pg));
        all.index_of_first_ensures(pg);
        let k = all.index_of_first(pg)->0;
        assert(k == pages.len()) by {
            if k < pages.len() {
                assert(pages[k] == pg);
                assert(pages.contains(pg));
            }
        }
        assert(all.remove(k) =~= pages + gone.skip(1));
        assert forall|i: int| 0 <= i < gone.skip(1).len() implies !pages.contains(
            #[trigger] gone.skip(1)[i],
        ) by {
            assert(gone.skip(1)[i] == gone[i + 1]);
        }
        law_add_then_del(pages, gone.skip(1));
    }
}

/// A run of pages that is added and then removed leaves the list as it was, if none of
/// its pages was in it.
pub proof fn law_run_comes_and_goes(
    pages: Seq<usize>,
    addr: usize,
    count: usize,
    page_size: usize,
)
    requires
        page_size > 0,
        run_fits(addr, count, page_size),
        forall|i: int|
            0 <= i < count ==> !pages.contains(#[trigger] page_run(addr, count, page_size)[i]),
    ensures
        without(
            pages + page_run(addr, count, page_size),
            page_run(addr, count, page_size),
        ) == Some(pages),
{
    lemma_run_distinct(addr, count, page_size);
    law_add_then_del(pages, page_run(addr, count, page_size));
}

/// Removing pages takes exactly them out, as often as they are named, wherever in
/// the list they were.
pub proof fn law_del_takes_exactly(pages: Seq<usize>, gone: Seq<usize>)
    requires
        without(pages, gone) is Some,
    ensures
        without(pages, gone)->0.to_multiset().add(gone.to_multiset()) == pages.to_multiset(),
    decreases gone.len(),
{
    if gone.len() == 0 {
        assert(gone =~= Seq::<usize>::empty());
        gone.to_multiset_ensures();
        assert(gone.to_multiset() =~= vstd::multiset::Multiset::empty());
        assert(pages.to_multiset().add(gone.to_multiset()) =~= pages.to_multiset());
    } else {
        let pg = gone[0];
        pages.index_of_first_ensures(pg);
        let k = pages.index_of_first(pg)->0;
        law_del_takes_exactly(pages.remove(k), gone.skip(1));
        let left = without(pages, gone)->0.to_multiset();
        pages.to_multiset_ensures();
        gone.to_multiset_ensures();
        assert(pages.remove(k).to_multiset() =~= pages.to_multiset().remove(pg));
        assert(gone.remove(0) =~= gone.skip(1));
        assert(gone.skip(1).to_multiset() =~= gone.to_multiset().remove(pg));
        assert(gone.to_multiset().contains(pg)) by {
            assert(gone.contains(gone[0]));
        }
        assert(pages.to_multiset().contains(pg));
        let fewer = left.add(gone.skip(1).to_multiset());
        assert(fewer == pages.to_multiset().remove(pg));
        assert forall|v: usize|
            #![auto]
            left.add(gone.to_multiset()).count(v) == pages.to_multiset().count(v) by {
            assert(fewer.count(v) == left.count(v) + gone.to_multiset().remove(pg).count(v));
        }
        assert(left.add(gone.to_multiset()) =~= pages.to_multiset());
    }
}

/// The start of the page that holds an address is the one multiple of the page size that is
/// not past it, and less than a page before it.
pub proof fn law_page_base(addr: usize, page_size: usize, pg: int)
    requires
        page_size > 0,
    ensures
        page_base(addr, page_size) as int % page_size as int == 0,
        page_base(addr, page_size) <= addr < page_base(addr, page_size) + page_size,
        pg % page_size as int == 0 && pg <= addr < pg + page_size ==> pg == page_base(
            addr,
            page_size,
        ),
{
    lemma_page_base(addr, page_size);
    let b = page_base(addr, page_size) as int;
    let p = page_size as int;
    if pg % p == 0 && pg <= addr < pg + p {
        assert(pg == b) by (nonlinear_arith)
            requires
                p > 0,
                pg % p == 0,
                b % p == 0,
                b - p < pg < b + p,
        ;
    }
}

/// An address is owned exactly if it lies in one of the pages, from its first byte to its
/// last.
pub proof fn law_owned(pages: Seq<usize>, page_size: usize, addr: usize, i: int)
    ensures
        0 <= i < pages.len() && pages[i] <= addr < pages[i] + page_size ==> owned(
            pages,
            page_size,
            addr,
        ),
        owned(pages, page_size, addr) ==> exists|j: int|
            0 <= j < pages.len() && #[trigger] pages[j] <= addr < pages[j] + page_size,
{
    if 0 <= i < pages.len() && pages[i] <= addr < pages[i] + page_size {
        assert(in_page(pages[i], page_size, addr));
    }
    if owned(pages, page_size, addr) {
        let j = choose|j: int| 0 <= j < pages.len() && in_page(#[trigger] pages[j], page_size, addr);
        assert(pages[j] <= addr < pages[j] + page_size);
    }
}

/// A run has as many pages as were asked for, each one page past the one before. It fits if
/// its last page starts at an address.
pub proof fn law_run(addr: usize, count: usize, page_size: usize, i: int)
    ensures
        page_run(addr, count, page_size).len() == count,
        run_fits(addr, count, page_size) && 0 <= i < count ==> page_run(addr, count, page_size)[i]
            == addr + i * page_size,
        run_fits(addr, count, page_size) <==> (count == 0 || addr + (count - 1) * page_size
            <= usize::MAX),
{
    if run_fits(addr, count, page_size) && 0 <= i < count {
        lemma_run_index(addr, i, count, page_size);
    }
}

/// Pages are removed one after the other, each where it first occurs.
pub proof fn law_removal_in_order(pages: Seq<usize>, pg: usize, gone: Seq<usize>, k: int)
    ensures
        without(pages, seq![]) == Some(pages),
        0 <= k < pages.len() && pages[k] == pg && (forall|j: int| 0 <= j < k ==> pages[j] != pg)
            ==> without(pages, seq![pg] + gone) == without(pages.remove(k), gone),
        !pages.contains(pg) ==> without(pages, seq![pg] + gone) is None,
{
    let all = seq![pg] + gone;
    assert(all.skip(1) =~= gone);
    if 0 <= k < pages.len() && pages[k] == pg && (forall|j: int| 0 <= j < k ==> pages[j] != pg) {
        pages.index_of_first_ensures(pg);
        let first = pages.index_of_first(pg)->0;
        assert(first == k);
    }
}

} // verus!
