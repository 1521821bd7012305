//! A pool of memory pages that are cut into slices.
//!
//! A page lives on the device and is a handle `P` here; what only the page can do is given by
//! functions. The pool keeps the order and the numbers of its pages, decides which page is
//! asked and which is given back, and counts for diagnostics.

use vstd::prelude::*;

verus! {

/// Memory in use.
#[derive(Clone, Copy, Debug, PartialEq, Eq, Structural)]
pub struct MemoryUsage {
    pub number_allocs: u64,
    pub bytes_in_use: u64,
    pub bytes_padding: u64,
    pub bytes_reserved: u64,
}

/// How much of a page is free, after free neighbours were merged.
#[derive(Clone, Copy, Debug, PartialEq, Eq, Structural)]
pub struct PageSummary {
    pub amount_free: u64,
    pub amount_total: u64,
}

/// A page with the number of its storage and its own number within the pool.
pub struct PoolPage<P> {
    pub page: P,
    pub storage: u64,
    pub pos: u16,
}

/// A pool of sliced pages.
pub struct SlicedPool<P> {
    pages: Vec<PoolPage<P>>,
    page_size: u64,
    alignment: u64,
    max_alloc_size: u64,
    pool_pos: u8,
    reuse_hits: u64,
    new_pages: u64,
}

/// Pages between two diagnostic reports.
pub const REPORT_EVERY: u64 = 100;

impl<P> SlicedPool<P> {
    /// The pages in order.
    pub closed spec fn pages(self) -> Seq<PoolPage<P>> {
        self.pages@
    }

    pub closed spec fn page_size(self) -> u64 {
        self.page_size
    }

    pub closed spec fn alignment(self) -> u64 {
        self.alignment
    }

    pub closed spec fn max_alloc_size(self) -> u64 {
        self.max_alloc_size
    }

    pub closed spec fn pool_pos(self) -> u8 {
        self.pool_pos
    }

    /// How often a free slice was used again.
    pub closed spec fn reuse_hits(self) -> u64 {
        self.reuse_hits
    }

    /// How many pages were opened.
    pub closed spec fn new_pages(self) -> u64 {
        self.new_pages
    }

    /// The settings that never change.
    pub open spec fn same_settings(self, other: Self) -> bool {
        &&& self.page_size() == other.page_size()
        &&& self.alignment() == other.alignment()
        &&& self.max_alloc_size() == other.max_alloc_size()
        &&& self.pool_pos() == other.pool_pos()
    }

    /// Every page knows its place in the pool.
    pub open spec fn wf(self) -> bool {
        forall|i: int| 0 <= i < self.pages().len() ==> (#[trigger] self.pages()[i]).pos == i as u16
    }

    /// An empty pool.
    pub fn new(page_size: u64, max_slice_size: u64, alignment: u64, pool_pos: u8) -> (r: Self)
        ensures
            r.wf(),
            r.pages() == Seq::<PoolPage<P>>::empty(),
            r.page_size() == page_size,
            r.max_alloc_size() == max_slice_size,
            r.alignment() == alignment,
            r.pool_pos() == pool_pos,
            r.reuse_hits() == 0,
            r.new_pages() == 0,
    {
        SlicedPool {
            pages: Vec::new(),
            page_size,
            alignment,
            max_alloc_size: max_slice_size,
            pool_pos,
            reuse_hits: 0,
            new_pages: 0,
        }
    }

    /// Whether the pool takes requests of a size: those up to its largest slice, and those
    /// that leave less than a fifth of a page unused.
    pub fn accept(&self, size: u64) -> (r: bool)
        ensures
            r == takes(self.max_alloc_size(), self.page_size(), size),
    {
        if self.max_alloc_size >= size {
            return true;
        }
        if self.page_size < size {
            return false;
        }
        let diff: u64 = self.page_size - size;
        (diff as u128) * 5 < self.page_size as u128
    }

    /// Number of pages.
    pub fn len(&self) -> (n: usize)
        ensures
            n == self.pages().len(),
    {
        self.pages.len()
    }

    /// The page with a number: where a slice that lives on it is looked up or bound.
    pub fn find(&self, page: usize) -> (r: &P)
        requires
            page < self.pages().len(),
        ensures
            *r == self.pages()[page as int].page,
    {
        &self.pages[page].page
    }

    /// Takes a slice of an open page: the pages are asked in order, and the first one that
    /// has room gives it. `reserve` merges the free neighbours of a page and then asks it.
    pub fn try_reserve<S, F: Fn(&P, u64) -> Option<S>>(&mut self, size: u64, reserve: &F) -> (r:
        Option<S>)
        requires
            forall|p: &P| reserve.requires((p, size)),
            old(self).reuse_hits() < u64::MAX,
        ensures
            final(self).pages() == old(self).pages(),
            final(self).same_settings(*old(self)),
            final(self).new_pages() == old(self).new_pages(),
            match r {
                Some(h) => {
                    &&& final(self).reuse_hits() == old(self).reuse_hits() + 1
                    &&& exists|i: int| reserved_at(*reserve, old(self).pages(), size, i, h)
                },
                None => {
                    &&& final(self).reuse_hits() == old(self).reuse_hits()
                    &&& forall|i: int|
                        0 <= i < old(self).pages().len() ==> reserve.ensures(
                            (&(#[trigger] old(self).pages()[i]).page, size),
                            None,
                        )
                },
            },
    {
        let mut i: usize = 0;
        while i < self.pages.len()
            invariant
                i <= self.pages@.len(),
                *self == *old(self),
                forall|p: &P| reserve.requires((p, size)),
                old(self).reuse_hits() < u64::MAX,
                forall|k: int|
                    0 <= k < i ==> reserve.ensures(
                        (&(#[trigger] old(self).pages()[k]).page, size),
                        None,
                    ),
            decreases self.pages@.len() - i,
        {
            match reserve(&self.pages[i].page, size) {
                Some(h) => {
                    proof {
                        assert(reserved_at(*reserve, old(self).pages(), size, i as int, h));
                    }
                    self.reuse_hits = self.reuse_hits + 1;
                    return Some(h);
                },
                None => {},
            }
            i += 1;
        }
        None
    }

    /// Number that the next page gets.
    pub fn next_pos(&self) -> (p: u16)
        ensures
            p == self.pages().len() as u16,
    {
        self.pages.len() as u16
    }

    /// Adds a page that was opened with the number of [`Self::next_pos`]. Says whether a
    /// diagnostic report is due: after every hundredth new page, while diagnostics are on.
    pub fn alloc_page(&mut self, page: P, storage: u64, diag: bool) -> (report: bool)
        requires
            old(self).wf(),
            old(self).new_pages() < u64::MAX,
        ensures
            final(self).wf(),
            final(self).pages() == old(self).pages().push(
                (PoolPage { page, storage, pos: old(self).pages().len() as u16 }),
            ),
            final(self).same_settings(*old(self)),
            final(self).reuse_hits() == old(self).reuse_hits(),
            final(self).new_pages() == old(self).new_pages() + 1,
            report == (diag && final(self).new_pages() % REPORT_EVERY == 0),
    {
        let pos: u16 = self.next_pos();
        self.pages.push(PoolPage { page, storage, pos });
        self.new_pages = self.new_pages + 1;
        diag && self.new_pages % REPORT_EVERY == 0
    }
}

/// Whether a pool with this largest slice and pages of this size takes requests of a size.
pub open spec fn takes(max_alloc: u64, page_size: u64, size: u64) -> bool {
    size <= max_alloc || size <= page_size && 5 * (page_size - size) < page_size
}

/// Page `i` gave slice `h`, and no page before it had room.
pub open spec fn reserved_at<P, S, F: Fn(&P, u64) -> Option<S>>(
    reserve: F,
    pages: Seq<PoolPage<P>>,
    size: u64,
    i: int,
    h: S,
) -> bool {
    &&& 0 <= i < pages.len()
    &&& reserve.ensures((&pages[i].page, size), Some(h))
    &&& forall|k: int|
        0 <= k < i ==> reserve.ensures((&(#[trigger] pages[k]).page, size), None::<S>)
}

/// Whether nothing on a page is in use.
pub open spec fn is_empty_page(s: PageSummary) -> bool {
    s.amount_free == s.amount_total
}

/// The pages among the first `n` that are kept, numbered anew.
pub open spec fn kept_pages<P>(
    pages: Seq<PoolPage<P>>,
    sums: Seq<PageSummary>,
    n: int,
) -> Seq<PoolPage<P>>
    decreases n,
{
    if n <= 0 {
        Seq::empty()
    } else {
        let before = kept_pages(pages, sums, n - 1);
        if is_empty_page(sums[n - 1]) {
            before
        } else {
            before.push(PoolPage { pos: before.len() as u16, ..pages[n - 1] })
        }
    }
}

/// The storages among the first `n` that are given back.
pub open spec fn freed_storages<P>(
    pages: Seq<PoolPage<P>>,
    sums: Seq<PageSummary>,
    n: int,
) -> Seq<u64>
    decreases n,
{
    if n <= 0 {
        Seq::empty()
    } else {
        let before = freed_storages(pages, sums, n - 1);
        if is_empty_page(sums[n - 1]) {
            before.push(pages[n - 1].storage)
        } else {
            before
        }
    }
}

/// What an explicit cleanup makes of the pages: `sums` are what the pages said of themselves.
pub open spec fn cleaned<P, F: Fn(&P) -> PageSummary, U: Fn(&P, u16)>(
    summary: F,
    renumber: U,
    before: Seq<PoolPage<P>>,
    after: Seq<PoolPage<P>>,
    freed: Seq<u64>,
    sums: Seq<PageSummary>,
) -> bool {
    &&& sums.len() == before.len()
    &&& forall|i: int|
        0 <= i < before.len() ==> summary.ensures((&before[i].page,), #[trigger] sums[i])
    &&& after == kept_pages(before, sums, before.len() as int)
    &&& freed == freed_storages(before, sums, before.len() as int)
    &&& forall|i: int|
        0 <= i < after.len() ==> renumber.ensures((&(#[trigger] after[i]).page, after[i].pos), ())
}

impl<P> SlicedPool<P> {
    /// Gives back every page on which nothing is in use, if the cleanup is explicit, and
    /// numbers the others anew, in order. Returns the storages to release.
    ///
    /// `summary` merges the free neighbours of a page and says how much of it is free;
    /// `renumber` tells a page its number.
    pub fn cleanup<F: Fn(&P) -> PageSummary, U: Fn(&P, u16)>(
        &mut self,
        explicit: bool,
        summary: &F,
        renumber: &U,
    ) -> (freed: Vec<u64>)
        requires
            old(self).wf(),
            forall|p: &P| summary.requires((p,)),
            forall|p: &P, n: u16| renumber.requires((p, n)),
        ensures
            final(self).wf(),
            final(self).same_settings(*old(self)),
            final(self).reuse_hits() == old(self).reuse_hits(),
            final(self).new_pages() == old(self).new_pages(),
            !explicit ==> final(self).pages() == old(self).pages() && freed@ == Seq::<
                u64,
            >::empty(),
            explicit ==> exists|sums: Seq<PageSummary>|
                cleaned(
                    *summary,
                    *renumber,
                    old(self).pages(),
                    final(self).pages(),
                    freed@,
                    sums,
                ),
    {
        let mut freed: Vec<u64> = Vec::new();
        if !explicit {
            return freed;
        }
        let mut pages: Vec<PoolPage<P>> = Vec::new();
        std::mem::swap(&mut pages, &mut self.pages);
        let ghost all = pages@;
        let ghost mut sums: Seq<PageSummary> = Seq::empty();
        let mut kept: Vec<PoolPage<P>> = Vec::new();
        for p in it: pages
            invariant
                it.seq() == all,
                forall|p: &P| summary.requires((p,)),
                forall|p: &P, n: u16| renumber.requires((p, n)),
                sums.len() == it.index(),
                forall|i: int|
                    0 <= i < it.index() ==> summary.ensures((&all[i].page,), #[trigger] sums[i]),
                kept@ == kept_pages(all, sums, it.index() as int),
                freed@ == freed_storages(all, sums, it.index() as int),
                forall|i: int|
                    0 <= i < kept@.len() ==> {
                        &&& renumber.ensures((&(#[trigger] kept@[i]).page, kept@[i].pos), ())
                        &&& kept@[i].pos == i as u16
                    },
        {
            let ghost n = it.index() as int;
            assert(p == all[n]);
            let s = summary(&p.page);
            proof {
                let grown = sums.push(s);
                kept_pages_prefix(all, sums, grown, n);
                freed_storages_prefix(all, sums, grown, n);
                sums = grown;
            }
            if s.amount_free == s.amount_total {
                freed.push(p.storage);
            } else {
                let pos: u16 = kept.len() as u16;
                renumber(&p.page, pos);
                kept.push(PoolPage { page: p.page, storage: p.storage, pos });
            }
        }
        self.pages = kept;
        proof {
            assert(all == old(self).pages());
            assert(cleaned(*summary, *renumber, old(self).pages(), self.pages(), freed@, sums));
        }
        freed
    }
}

proof fn kept_pages_prefix<P>(
    pages: Seq<PoolPage<P>>,
    a: Seq<PageSummary>,
    b: Seq<PageSummary>,
    n: int,
)
    requires
        0 <= n <= a.len(),
        a.len() <= b.len(),
        forall|i: int| 0 <= i < n ==> a[i] == b[i],
    ensures
        kept_pages(pages, a, n) == kept_pages(pages, b, n),
    decreases n,
{
    if n > 0 {
        kept_pages_prefix(pages, a, b, n - 1);
    }
}

proof fn freed_storages_prefix<P>(
    pages: Seq<PoolPage<P>>,
    a: Seq<PageSummary>,
    b: Seq<PageSummary>,
    n: int,
)
    requires
        0 <= n <= a.len(),
        a.len() <= b.len(),
        forall|i: int| 0 <= i < n ==> a[i] == b[i],
    ensures
        freed_storages(pages, a, n) == freed_storages(pages, b, n),
    decreases n,
{
    if n > 0 {
        freed_storages_prefix(pages, a, b, n - 1);
    }
}

/// Cleanup loses no page: each is either kept or given back, a page with anything in use is
/// kept, and an empty one is given back.
pub proof fn cleanup_splits_pages<P>(pages: Seq<PoolPage<P>>, sums: Seq<PageSummary>, n: int, i: int)
    requires
        0 <= i < n <= pages.len(),
        n <= sums.len(),
    ensures
        kept_pages(pages, sums, n).len() + freed_storages(pages, sums, n).len() == n,
        !is_empty_page(sums[i]) ==> exists|k: int|
            0 <= k < kept_pages(pages, sums, n).len() && (#[trigger] kept_pages(
                pages,
                sums,
                n,
            )[k]).page == pages[i].page && kept_pages(pages, sums, n)[k].storage
                == pages[i].storage,
        is_empty_page(sums[i]) ==> freed_storages(pages, sums, n).contains(pages[i].storage),
    decreases n,
{
    let kept = kept_pages(pages, sums, n);
    let before = kept_pages(pages, sums, n - 1);
    let freed = freed_storages(pages, sums, n);
    let freed_before = freed_storages(pages, sums, n - 1);
    if n > 1 {
        cleanup_splits_pages(pages, sums, n - 1, if i < n - 1 {
            i
        } else {
            0
        });
    } else {
        assert(kept_pages(pages, sums, 0) =~= Seq::empty());
        assert(freed_storages(pages, sums, 0) =~= Seq::empty());
    }
    if i == n - 1 {
        if is_empty_page(sums[i]) {
            assert(freed[freed.len() - 1] == pages[i].storage);
        } else {
            assert(kept[kept.len() - 1].page == pages[i].page);
        }
    } else {
        if is_empty_page(sums[i]) {
            let k = choose|k: int| 0 <= k < freed_before.len() && freed_before[k] == pages[i].storage;
            assert(freed[k] == pages[i].storage);
        } else {
            let k = choose|k: int|
                0 <= k < before.len() && (#[trigger] before[k]).page == pages[i].page
                    && before[k].storage == pages[i].storage;
            assert(kept[k] == before[k]);
        }
    }
}

/// Usage of the first `n` pages together.
pub open spec fn total_usage(u: Seq<MemoryUsage>, n: int) -> (int, int, int, int)
    decreases n,
{
    if n <= 0 {
        (0, 0, 0, 0)
    } else {
        let t = total_usage(u, n - 1);
        let c = u[n - 1];
        (
            t.0 + c.number_allocs,
            t.1 + c.bytes_in_use,
            t.2 + c.bytes_padding,
            t.3 + c.bytes_reserved,
        )
    }
}

/// Memory in use on all pages, given what each page says of itself.
pub fn get_memory_usage(pages: &[MemoryUsage]) -> (u: MemoryUsage)
    requires
        total_usage(pages@, pages@.len() as int).0 <= u64::MAX,
        total_usage(pages@, pages@.len() as int).1 <= u64::MAX,
        total_usage(pages@, pages@.len() as int).2 <= u64::MAX,
        total_usage(pages@, pages@.len() as int).3 <= u64::MAX,
    ensures
        (u.number_allocs as int, u.bytes_in_use as int, u.bytes_padding as int, u.bytes_reserved as int)
            == total_usage(pages@, pages@.len() as int),
{
    let mut u = MemoryUsage {
        number_allocs: 0,
        bytes_in_use: 0,
        bytes_padding: 0,
        bytes_reserved: 0,
    };
    let mut i: usize = 0;
    while i < pages.len()
        invariant
            i <= pages@.len(),
            total_usage(pages@, pages@.len() as int).0 <= u64::MAX,
            total_usage(pages@, pages@.len() as int).1 <= u64::MAX,
            total_usage(pages@, pages@.len() as int).2 <= u64::MAX,
            total_usage(pages@, pages@.len() as int).3 <= u64::MAX,
            (u.number_allocs as int, u.bytes_in_use as int, u.bytes_padding as int, u.bytes_reserved as int)
                == total_usage(pages@, i as int),
        decreases pages@.len() - i,
    {
        let c = pages[i];
        proof {
            total_usage_mono(pages@, i + 1);
        }
        u =
        MemoryUsage {
            number_allocs: u.number_allocs + c.number_allocs,
            bytes_in_use: u.bytes_in_use + c.bytes_in_use,
            bytes_padding: u.bytes_padding + c.bytes_padding,
            bytes_reserved: u.bytes_reserved + c.bytes_reserved,
        };
        i += 1;
    }
    u
}

proof fn total_usage_mono(u: Seq<MemoryUsage>, k: int)
    requires
        0 <= k <= u.len(),
    ensures
        total_usage(u, k).0 <= total_usage(u, u.len() as int).0,
        total_usage(u, k).1 <= total_usage(u, u.len() as int).1,
        total_usage(u, k).2 <= total_usage(u, u.len() as int).2,
        total_usage(u, k).3 <= total_usage(u, u.len() as int).3,
    decreases u.len() - k,
{
    if k < u.len() {
        total_usage_mono(u, k + 1);
    }
}

/// A pool takes every request up to its largest slice. A greater one it takes only if it fits a
/// page and fills more than four fifths of it, so that a whole page is always taken and nothing
/// beyond it.
pub proof fn requests_fill_pages(max_alloc: u64, page_size: u64, size: u64)
    ensures
        size <= max_alloc ==> takes(max_alloc, page_size, size),
        max_alloc < size <= page_size ==> (takes(max_alloc, page_size, size) <==> 5 * size > 4
            * page_size),
        size > max_alloc && size > page_size ==> !takes(max_alloc, page_size, size),
        page_size > 0 ==> takes(max_alloc, page_size, page_size),
{
}

/// The first page that has room gives the slice: no page before it had any.
pub proof fn earlier_pages_were_full<P, S, F: Fn(&P, u64) -> Option<S>>(
    reserve: F,
    pages: Seq<PoolPage<P>>,
    size: u64,
    i: int,
    h: S,
    k: int,
)
    requires
        // what `try_reserve` says of a slice
        reserved_at(reserve, pages, size, i, h),
        0 <= k < i,
    ensures
        reserve.ensures((&pages[i].page, size), Some(h)),
        reserve.ensures((&pages[k].page, size), None::<S>),
{
    assert(reserve.ensures((&(pages[k]).page, size), None::<S>));
}

/// The memory in use of all pages together, figure by figure: adding a page adds each of its
/// figures to the same figure.
pub proof fn usage_adds_up(u: Seq<MemoryUsage>, c: MemoryUsage)
    ensures
        ({
            let n = u.len() as int;
            let a = total_usage(u, n);
            let b = total_usage(u.push(c), n + 1);
            &&& b.0 - a.0 == c.number_allocs
            &&& b.1 - a.1 == c.bytes_in_use
            &&& b.2 - a.2 == c.bytes_padding
            &&& b.3 - a.3 == c.bytes_reserved
        }),
        total_usage(Seq::empty(), 0) == (0int, 0int, 0int, 0int),
{
    usage_of_prefix(u, u.push(c), u.len() as int);
}

proof fn usage_of_prefix(u: Seq<MemoryUsage>, v: Seq<MemoryUsage>, n: int)
    requires
        0 <= n <= u.len(),
        n <= v.len(),
        forall|i: int| 0 <= i < n ==> u[i] == v[i],
    ensures
        total_usage(u, n) == total_usage(v, n),
    decreases n,
{
    if n > 0 {
        usage_of_prefix(u, v, n - 1);
    }
}

/// Exactly the pages on which nothing is in use are given back, in order; those that stay keep
/// their contents and are numbered from the first on.
pub proof fn free_pages_alone_are_given_back<P>(
    pages: Seq<PoolPage<P>>,
    sums: Seq<PageSummary>,
    n: int,
    i: int,
)
    requires
        0 <= n <= pages.len(),
        pages.len() == sums.len(),
        0 <= i < n,
    ensures
        sums[i].amount_free == sums[i].amount_total ==> freed_storages(pages, sums, n).contains(
            pages[i].storage,
        ),
        sums[i].amount_free != sums[i].amount_total ==> exists|k: int|
            0 <= k <= i && k < kept_pages(pages, sums, n).len() && (#[trigger] kept_pages(
                pages,
                sums,
                n,
            )[k]).page == pages[i].page && kept_pages(pages, sums, n)[k].storage
                == pages[i].storage && kept_pages(pages, sums, n)[k].pos == k as u16,
        kept_pages(pages, sums, n).len() + freed_storages(pages, sums, n).len() == n,
    decreases n,
{
    let m = n - 1;
    let kept = kept_pages(pages, sums, m);
    let freed = freed_storages(pages, sums, m);
    let all = kept_pages(pages, sums, n);
    pages_are_split(pages, sums, m);
    if i < m {
        free_pages_alone_are_given_back(pages, sums, m, i);
        if sums[i].amount_free == sums[i].amount_total {
            let k = choose|k: int| 0 <= k < freed.len() && freed[k] == pages[i].storage;
            assert(freed_storages(pages, sums, n)[k] == pages[i].storage);
        } else {
            let k = choose|k: int|
                0 <= k <= i && k < kept.len() && (#[trigger] kept[k]).page == pages[i].page
                    && kept[k].storage == pages[i].storage && kept[k].pos == k as u16;
            assert(all[k] == kept[k]);
        }
    } else {
        if sums[i].amount_free == sums[i].amount_total {
            assert(freed_storages(pages, sums, n)[freed.len() as int] == pages[i].storage);
        } else {
            assert(all[kept.len() as int].page == pages[i].page);
        }
    }
}

proof fn pages_are_split<P>(pages: Seq<PoolPage<P>>, sums: Seq<PageSummary>, n: int)
    requires
        0 <= n <= pages.len(),
        pages.len() == sums.len(),
    ensures
        kept_pages(pages, sums, n).len() + freed_storages(pages, sums, n).len() == n,
    decreases n,
{
    if n > 0 {
        pages_are_split(pages, sums, n - 1);
    }
}

} // verus!
