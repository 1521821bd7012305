//! The diagnostic report of a pool: how its slices are held, and what pins the rest.

use crate::alloc_sizes;
use crate::alloc_sizes::AllocSizes;
use vstd::prelude::*;

verus! {

/// What one page tells of its slices: how many are free, held twice, three times and more
/// often, and the allocation numbers of the pinned ones.
pub struct PageDiag {
    pub counts: [u64; 4],
    pub pinned: Vec<u64>,
}

/// The report.
pub struct PoolReport {
    pub pages: u64,
    pub slices: u64,
    /// Slices of all pages by how they are held.
    pub counts: [u64; 4],
    /// The most frequent sizes of pinned slices, with how often each occurs.
    pub pinned_sizes: Vec<(u64, u64)>,
    /// The smallest numbers of a sample of pinned slices.
    pub pinned_ids: Vec<u64>,
}

/// Pinned sizes that are listed.
pub const TOP_SIZES: usize = 8;

/// Pinned slices that are sampled.
pub const SAMPLE: usize = 400;

/// Numbers of pinned slices that are listed.
pub const LISTED: usize = 24;

/// Slices held in way `k` on the first `n` pages.
pub open spec fn count_sum(pages: Seq<PageDiag>, k: int, n: int) -> int
    decreases n,
{
    if n <= 0 {
        0
    } else {
        count_sum(pages, k, n - 1) + pages[n - 1].counts[k]
    }
}

/// Numbers of all pinned slices of the first `n` pages, in page order.
pub open spec fn all_pinned(pages: Seq<PageDiag>, n: int) -> Seq<u64>
    decreases n,
{
    if n <= 0 {
        Seq::empty()
    } else {
        all_pinned(pages, n - 1) + pages[n - 1].pinned@
    }
}

/// Whether a slice number is known to have a size.
pub open spec fn has_size(reg: AllocSizes, id: u64, size: u64) -> bool {
    reg.enabled() && reg.sizes().contains_key(id) && reg.sizes()[id] == size
}

/// How many of the first `n` numbers have a size.
pub open spec fn size_count(reg: AllocSizes, ids: Seq<u64>, size: u64, n: int) -> int
    decreases n,
{
    if n <= 0 {
        0
    } else {
        size_count(reg, ids, size, n - 1) + if has_size(reg, ids[n - 1], size) {
            1int
        } else {
            0int
        }
    }
}

/// The order of listed sizes: more frequent ones first, of equally frequent ones the smaller.
pub open spec fn listed_before(a: (u64, u64), b: (u64, u64)) -> bool {
    a.1 > b.1 || a.1 == b.1 && a.0 < b.0
}

/// A complete list of sizes with their counts, in listing order.
pub open spec fn is_size_list(reg: AllocSizes, ids: Seq<u64>, n: int, list: Seq<(u64, u64)>) -> bool {
    &&& forall|i: int, j: int|
        0 <= i < j < list.len() ==> listed_before(#[trigger] list[i], #[trigger] list[j])
    &&& forall|i: int|
        0 <= i < list.len() ==> (#[trigger] list[i]).1 > 0 && list[i].1 == size_count(
            reg,
            ids,
            list[i].0,
            n,
        )
    &&& forall|size: u64|
        #![trigger size_count(reg, ids, size, n)]
        size_count(reg, ids, size, n) > 0 ==> exists|i: int|
            0 <= i < list.len() && (#[trigger] list[i]).0 == size
}

/// A list in ascending order with the same items.
pub open spec fn is_sorting(list: Seq<u64>, of: Seq<u64>) -> bool {
    &&& forall|i: int, j: int| 0 <= i < j < list.len() ==> list[i] <= list[j]
    &&& list.to_multiset() == of.to_multiset()
}

/// The first `k` items, or all if there are fewer.
pub open spec fn at_most<T>(s: Seq<T>, k: int) -> Seq<T> {
    s.take(
        if k < s.len() {
            k
        } else {
            s.len() as int
        },
    )
}

/// Sizes with their counts, each size once, in any order.
spec fn is_table(reg: AllocSizes, ids: Seq<u64>, n: int, t: Seq<(u64, u64)>) -> bool {
    &&& forall|i: int, j: int| 0 <= i < j < t.len() ==> (#[trigger] t[i]).0 != (#[trigger] t[j]).0
    &&& forall|i: int|
        0 <= i < t.len() ==> (#[trigger] t[i]).1 > 0 && t[i].1 == size_count(reg, ids, t[i].0, n)
    &&& forall|size: u64|
        #![trigger size_count(reg, ids, size, n)]
        size_count(reg, ids, size, n) > 0 ==> exists|i: int|
            0 <= i < t.len() && (#[trigger] t[i]).0 == size
}

proof fn size_count_bound(reg: AllocSizes, ids: Seq<u64>, size: u64, n: int)
    requires
        0 <= n,
    ensures
        0 <= size_count(reg, ids, size, n) <= n,
    decreases n,
{
    if n > 0 {
        size_count_bound(reg, ids, size, n - 1);
    }
}

/// Counts the sizes of slices.
fn size_table(reg: &AllocSizes, ids: &Vec<u64>) -> (t: Vec<(u64, u64)>)
    requires
        reg.wf(),
    ensures
        is_table(*reg, ids@, ids@.len() as int, t@),
{
    let mut t: Vec<(u64, u64)> = Vec::new();
    let mut n: usize = 0;
    while n < ids.len()
        invariant
            n <= ids@.len(),
            reg.wf(),
            is_table(*reg, ids@, n as int, t@),
        decreases ids@.len() - n,
    {
        let ghost before = t@;
        match alloc_sizes::lookup(reg, ids[n]) {
            None => {
                assert forall|z: u64| #[trigger]
                    size_count(*reg, ids@, z, n + 1) == size_count(*reg, ids@, z, n as int) by {}
                assert(is_table(*reg, ids@, n + 1, t@));
            },
            Some(size) => {
                let mut i: usize = 0;
                while i < t.len() && t[i].0 != size
                    invariant
                        i <= t@.len(),
                        forall|k: int| 0 <= k < i ==> (#[trigger] t@[k]).0 != size,
                    decreases t@.len() - i,
                {
                    i += 1;
                }
                proof {
                    size_count_bound(*reg, ids@, size, n as int);
                }
                if i < t.len() {
                    let c: u64 = t[i].1;
                    t.set(i, (size, c + 1));
                    proof {
                        assert forall|k: int| 0 <= k < t@.len() implies (#[trigger] t@[k]).1 > 0
                            && t@[k].1 == size_count(*reg, ids@, t@[k].0, n + 1) by {
                            assert(before[k].1 == size_count(*reg, ids@, before[k].0, n as int));
                            if k != i {
                                assert(before[k].0 != before[i as int].0);
                            }
                        }
                        assert forall|z: u64|
                            #![trigger size_count(*reg, ids@, z, n + 1)]
                            size_count(*reg, ids@, z, n + 1) > 0 implies exists|k: int|
                            0 <= k < t@.len() && (#[trigger] t@[k]).0 == z by {
                            if z == size {
                                assert(t@[i as int].0 == z);
                            } else {
                                assert(size_count(*reg, ids@, z, n as int) > 0);
                                let k = choose|k: int|
                                    0 <= k < before.len() && (#[trigger] before[k]).0 == z;
                                assert(t@[k].0 == z);
                            }
                        }
                    }
                } else {
                    t.push((size, 1));
                    proof {
                        assert(size_count(*reg, ids@, size, n as int) == 0);
                        assert forall|k: int| 0 <= k < t@.len() implies (#[trigger] t@[k]).1 > 0
                            && t@[k].1 == size_count(*reg, ids@, t@[k].0, n + 1) by {
                            if k < before.len() {
                                assert(before[k].1 == size_count(
                                    *reg,
                                    ids@,
                                    before[k].0,
                                    n as int,
                                ));
                                assert(before[k].0 != size);
                            }
                        }
                        assert forall|z: u64|
                            #![trigger size_count(*reg, ids@, z, n + 1)]
                            size_count(*reg, ids@, z, n + 1) > 0 implies exists|k: int|
                            0 <= k < t@.len() && (#[trigger] t@[k]).0 == z by {
                            if z == size {
                                assert(t@[before.len() as int].0 == z);
                            } else {
                                assert(size_count(*reg, ids@, z, n as int) > 0);
                                let k = choose|k: int|
                                    0 <= k < before.len() && (#[trigger] before[k]).0 == z;
                                assert(t@[k].0 == z);
                            }
                        }
                    }
                }
            },
        }
        n += 1;
    }
    t
}

/// Puts a size into a list in listing order.
fn insert_listed(list: &mut Vec<(u64, u64)>, e: (u64, u64))
    requires
        forall|i: int, j: int|
            0 <= i < j < old(list)@.len() ==> listed_before(
                #[trigger] old(list)@[i],
                #[trigger] old(list)@[j],
            ),
        forall|i: int| 0 <= i < old(list)@.len() ==> (#[trigger] old(list)@[i]).0 != e.0,
    ensures
        forall|i: int, j: int|
            0 <= i < j < final(list)@.len() ==> listed_before(
                #[trigger] final(list)@[i],
                #[trigger] final(list)@[j],
            ),
        exists|p: int| 0 <= p <= old(list)@.len() && final(list)@ == old(list)@.insert(p, e),
{
    let ghost before = list@;
    let mut p: usize = 0;
    while p < list.len() && (list[p].1 > e.1 || list[p].1 == e.1 && list[p].0 < e.0)
        invariant
            p <= list@.len(),
            list@ == before,
            forall|i: int| 0 <= i < p ==> listed_before(#[trigger] list@[i], e),
        decreases list@.len() - p,
    {
        p += 1;
    }
    list.insert(p, e);
    proof {
        assert forall|i: int, j: int| 0 <= i < j < list@.len() implies listed_before(
            #[trigger] list@[i],
            #[trigger] list@[j],
        ) by {
            let bi = if i < p {
                i
            } else {
                i - 1
            };
            let bj = if j < p {
                j
            } else {
                j - 1
            };
            if i != p && j != p {
                assert(list@[i] == before[bi] && list@[j] == before[bj]);
                assert(listed_before(before[bi], before[bj]));
            } else if j == p {
                assert(list@[i] == before[i]);
            } else {
                assert(list@[j] == before[bj]);
                assert(before[p as int].0 != e.0);
                if bj > p {
                    assert(listed_before(before[p as int], before[bj]));
                }
            }
        }
    }
}

/// Whether an entry is among the first `k`.
spec fn among(t: Seq<(u64, u64)>, k: int, e: (u64, u64)) -> bool {
    exists|m: int| 0 <= m < k && t[m] == e
}

/// Sorts a table into listing order.
fn sort_table(reg: &AllocSizes, ids: &Vec<u64>, t: &Vec<(u64, u64)>) -> (list: Vec<(u64, u64)>)
    requires
        is_table(*reg, ids@, ids@.len() as int, t@),
    ensures
        is_size_list(*reg, ids@, ids@.len() as int, list@),
{
    let mut list: Vec<(u64, u64)> = Vec::new();
    let mut k: usize = 0;
    while k < t.len()
        invariant
            k <= t@.len(),
            forall|i: int, j: int|
                0 <= i < j < t@.len() ==> (#[trigger] t@[i]).0 != (#[trigger] t@[j]).0,
            forall|i: int, j: int|
                0 <= i < j < list@.len() ==> listed_before(
                    #[trigger] list@[i],
                    #[trigger] list@[j],
                ),
            forall|i: int| 0 <= i < list@.len() ==> among(t@, k as int, #[trigger] list@[i]),
            forall|m: int| 0 <= m < k ==> among(list@, list@.len() as int, #[trigger] t@[m]),
        decreases t@.len() - k,
    {
        let e = t[k];
        let ghost before = list@;
        proof {
            assert forall|i: int| 0 <= i < list@.len() implies (#[trigger] list@[i]).0 != e.0 by {
                assert(among(t@, k as int, list@[i]));
                let m = choose|m: int| 0 <= m < k && t@[m] == list@[i];
                assert(t@[m].0 != t@[k as int].0);
            }
        }
        insert_listed(&mut list, e);
        proof {
            let p = choose|p: int| 0 <= p <= before.len() && list@ == before.insert(p, e);
            assert forall|i: int| 0 <= i < list@.len() implies among(
                t@,
                k + 1,
                #[trigger] list@[i],
            ) by {
                if i == p {
                    assert(t@[k as int] == list@[i]);
                } else {
                    let bi = if i < p {
                        i
                    } else {
                        i - 1
                    };
                    assert(list@[i] == before[bi]);
                    assert(among(t@, k as int, before[bi]));
                    let m = choose|m: int| 0 <= m < k && t@[m] == before[bi];
                    assert(t@[m] == list@[i]);
                }
            }
            assert forall|m: int| 0 <= m < k + 1 implies among(
                list@,
                list@.len() as int,
                #[trigger] t@[m],
            ) by {
                if m == k {
                    assert(list@[p] == t@[m]);
                } else {
                    assert(among(before, before.len() as int, t@[m]));
                    let bi = choose|i: int| 0 <= i < before.len() && before[i] == t@[m];
                    let i = if bi < p {
                        bi
                    } else {
                        bi + 1
                    };
                    assert(list@[i] == t@[m]);
                }
            }
        }
        k += 1;
    }
    proof {
        let n = ids@.len() as int;
        assert forall|i: int| 0 <= i < list@.len() implies (#[trigger] list@[i]).1 > 0 && list@[i].1
            == size_count(*reg, ids@, list@[i].0, n) by {
            assert(among(t@, k as int, list@[i]));
            let m = choose|m: int| 0 <= m < k && t@[m] == list@[i];
            assert(t@[m].1 > 0);
        }
        assert forall|size: u64|
            #![trigger size_count(*reg, ids@, size, n)]
            size_count(*reg, ids@, size, n) > 0 implies exists|i: int|
            0 <= i < list@.len() && (#[trigger] list@[i]).0 == size by {
            let m = choose|m: int| 0 <= m < t@.len() && (#[trigger] t@[m]).0 == size;
            assert(among(list@, list@.len() as int, t@[m]));
            let i = choose|i: int| 0 <= i < list@.len() && list@[i] == t@[m];
            assert(list@[i].0 == size);
        }
    }
    list
}

/// Putting an item anywhere adds it once.
proof fn insert_items(s: Seq<u64>, p: int, e: u64)
    requires
        0 <= p <= s.len(),
    ensures
        s.insert(p, e).to_multiset() == s.to_multiset().insert(e),
{
    broadcast use vstd::seq_lib::group_to_multiset_ensures;
    broadcast use vstd::multiset::group_multiset_axioms;

    let t = s.insert(p, e);
    assert(t.remove(p) =~= s);
    vstd::seq_lib::to_multiset_remove(t, p);
    assert(t[p] == e);
    assert(t.contains(e));
    assert(t.to_multiset() =~= s.to_multiset().insert(e));
}

/// Sorts numbers in ascending order.
fn sort_ids(v: &Vec<u64>) -> (list: Vec<u64>)
    ensures
        is_sorting(list@, v@),
{
    broadcast use vstd::seq_lib::group_to_multiset_ensures;

    let mut list: Vec<u64> = Vec::new();
    let mut k: usize = 0;
    assert(v@.take(0) =~= Seq::empty());
    while k < v.len()
        invariant
            k <= v@.len(),
            forall|i: int, j: int| 0 <= i < j < list@.len() ==> list@[i] <= list@[j],
            list@.to_multiset() == v@.take(k as int).to_multiset(),
        decreases v@.len() - k,
    {
        broadcast use vstd::seq_lib::group_to_multiset_ensures;

        let e: u64 = v[k];
        let ghost before = list@;
        let mut p: usize = 0;
        while p < list.len() && list[p] <= e
            invariant
                p <= list@.len(),
                list@ == before,
                forall|i: int| 0 <= i < p ==> list@[i] <= e,
            decreases list@.len() - p,
        {
            p += 1;
        }
        list.insert(p, e);
        proof {
            insert_items(before, p as int, e);
            assert(v@.take(k + 1) =~= v@.take(k as int).push(e));
            assert forall|i: int, j: int| 0 <= i < j < list@.len() implies list@[i] <= list@[j] by {
                let bi = if i < p {
                    i
                } else {
                    i - 1
                };
                let bj = if j < p {
                    j
                } else {
                    j - 1
                };
                if i != p {
                    assert(list@[i] == before[bi]);
                }
                if j != p {
                    assert(list@[j] == before[bj]);
                }
                if i == p && bj > p {
                    assert(before[p as int] <= before[bj]);
                }
            }
        }
        k += 1;
    }
    assert(v@.take(v@.len() as int) =~= v@);
    list
}

/// Numbers of all pinned slices, in page order.
fn collect_pinned(pages: &[PageDiag]) -> (ids: Vec<u64>)
    ensures
        ids@ == all_pinned(pages@, pages@.len() as int),
{
    let mut ids: Vec<u64> = Vec::new();
    let mut n: usize = 0;
    while n < pages.len()
        invariant
            n <= pages@.len(),
            ids@ == all_pinned(pages@, n as int),
        decreases pages@.len() - n,
    {
        let p = &pages[n].pinned;
        let ghost before = ids@;
        let mut i: usize = 0;
        assert(ids@ =~= before + p@.take(0));
        while i < p.len()
            invariant
                i <= p@.len(),
                ids@ == before + p@.take(i as int),
            decreases p@.len() - i,
        {
            ids.push(p[i]);
            assert(ids@ =~= before + p@.take(i + 1));
            i += 1;
        }
        assert(p@.take(p@.len() as int) =~= p@);
        n += 1;
    }
    ids
}

proof fn count_sum_mono(pages: Seq<PageDiag>, k: int, n: int)
    requires
        0 <= n <= pages.len(),
    ensures
        0 <= count_sum(pages, k, n) <= count_sum(pages, k, pages.len() as int),
    decreases pages.len() - n,
{
    count_sum_nonneg(pages, k, n);
    if n < pages.len() {
        count_sum_mono(pages, k, n + 1);
    }
}

proof fn count_sum_nonneg(pages: Seq<PageDiag>, k: int, n: int)
    ensures
        0 <= count_sum(pages, k, n),
    decreases n,
{
    if n > 0 {
        count_sum_nonneg(pages, k, n - 1);
    }
}

/// The first `k` items, or all if there are fewer.
fn first_ids(v: &Vec<u64>, k: usize) -> (r: Vec<u64>)
    ensures
        r@ == at_most(v@, k as int),
{
    let n: usize = if k < v.len() {
        k
    } else {
        v.len()
    };
    let mut r: Vec<u64> = Vec::new();
    let mut i: usize = 0;
    while i < n
        invariant
            i <= n <= v@.len(),
            r@ == v@.take(i as int),
        decreases n - i,
    {
        r.push(v[i]);
        assert(r@ =~= v@.take(i + 1));
        i += 1;
    }
    r
}

/// Slices in all ways of holding together.
pub open spec fn slice_sum(pages: Seq<PageDiag>) -> int {
    let n = pages.len() as int;
    count_sum(pages, 0, n) + count_sum(pages, 1, n) + count_sum(pages, 2, n) + count_sum(
        pages,
        3,
        n,
    )
}

/// The report on a pool: slices by how they are held, the eight most frequent sizes of pinned
/// slices, and the 24 smallest numbers among the first 400 pinned slices.
pub fn pool_report(pages: &[PageDiag], reg: &AllocSizes) -> (r: PoolReport)
    requires
        reg.wf(),
        slice_sum(pages@) <= u64::MAX,
    ensures
        r.pages == pages@.len(),
        r.slices == slice_sum(pages@),
        forall|k: int|
            0 <= k < 4 ==> #[trigger] r.counts[k] == count_sum(pages@, k, pages@.len() as int),
        ({
            let ids = all_pinned(pages@, pages@.len() as int);
            &&& exists|list: Seq<(u64, u64)>|
                #![trigger is_size_list(*reg, ids, ids.len() as int, list)]
                is_size_list(*reg, ids, ids.len() as int, list) && r.pinned_sizes@ == at_most(
                    list,
                    TOP_SIZES as int,
                )
            &&& exists|list: Seq<u64>|
                #![trigger is_sorting(list, at_most(ids, SAMPLE as int))]
                is_sorting(list, at_most(ids, SAMPLE as int)) && r.pinned_ids@ == at_most(
                    list,
                    LISTED as int,
                )
        }),
{
    let mut c0: u64 = 0;
    let mut c1: u64 = 0;
    let mut c2: u64 = 0;
    let mut c3: u64 = 0;
    let mut n: usize = 0;
    while n < pages.len()
        invariant
            n <= pages@.len(),
            slice_sum(pages@) <= u64::MAX,
            c0 == count_sum(pages@, 0, n as int),
            c1 == count_sum(pages@, 1, n as int),
            c2 == count_sum(pages@, 2, n as int),
            c3 == count_sum(pages@, 3, n as int),
        decreases pages@.len() - n,
    {
        proof {
            let all = pages@.len() as int;
            count_sum_mono(pages@, 0, n + 1);
            count_sum_mono(pages@, 1, n + 1);
            count_sum_mono(pages@, 2, n + 1);
            count_sum_mono(pages@, 3, n + 1);
        }
        let h = &pages[n].counts;
        c0 += h[0];
        c1 += h[1];
        c2 += h[2];
        c3 += h[3];
        n += 1;
    }
    proof {
        count_sum_nonneg(pages@, 0, n as int);
        count_sum_nonneg(pages@, 1, n as int);
        count_sum_nonneg(pages@, 2, n as int);
        count_sum_nonneg(pages@, 3, n as int);
    }
    let ids = collect_pinned(pages);
    let table = size_table(reg, &ids);
    let mut sizes = sort_table(reg, &ids, &table);
    let ghost list = sizes@;
    if sizes.len() > TOP_SIZES {
        sizes.truncate(TOP_SIZES);
    }
    assert(sizes@ =~= at_most(list, TOP_SIZES as int));
    let sample = first_ids(&ids, SAMPLE);
    let sorted = sort_ids(&sample);
    let listed = first_ids(&sorted, LISTED);
    assert(is_size_list(*reg, ids@, ids@.len() as int, list));
    assert(is_sorting(sorted@, at_most(ids@, SAMPLE as int)));
    PoolReport {
        pages: pages.len() as u64,
        slices: c0 + c1 + c2 + c3,
        counts: [c0, c1, c2, c3],
        pinned_sizes: sizes,
        pinned_ids: listed,
    }
}

/// The complete list of sizes is unique, and so is the list in the report.
pub proof fn size_list_unique(
    reg: AllocSizes,
    ids: Seq<u64>,
    n: int,
    a: Seq<(u64, u64)>,
    b: Seq<(u64, u64)>,
)
    requires
        is_size_list(reg, ids, n, a),
        is_size_list(reg, ids, n, b),
    ensures
        a == b,
    decreases a.len(),
{
    size_list_same_until(reg, ids, n, a, b, a.len() as int);
    size_list_same_until(reg, ids, n, b, a, b.len() as int);
    assert(a =~= b);
}

/// An entry of one complete list stands in the other.
proof fn size_list_has(
    reg: AllocSizes,
    ids: Seq<u64>,
    n: int,
    a: Seq<(u64, u64)>,
    b: Seq<(u64, u64)>,
    i: int,
) -> (k: int)
    requires
        is_size_list(reg, ids, n, a),
        is_size_list(reg, ids, n, b),
        0 <= i < a.len(),
    ensures
        0 <= k < b.len(),
        b[k] == a[i],
{
    assert(size_count(reg, ids, a[i].0, n) > 0);
    let k = choose|k: int| 0 <= k < b.len() && (#[trigger] b[k]).0 == a[i].0;
    assert(b[k].1 == size_count(reg, ids, b[k].0, n));
    k
}

proof fn size_list_same_until(
    reg: AllocSizes,
    ids: Seq<u64>,
    n: int,
    a: Seq<(u64, u64)>,
    b: Seq<(u64, u64)>,
    m: int,
)
    requires
        is_size_list(reg, ids, n, a),
        is_size_list(reg, ids, n, b),
        0 <= m <= a.len(),
    ensures
        m <= b.len(),
        forall|i: int| 0 <= i < m ==> a[i] == b[i],
    decreases m,
{
    if m > 0 {
        let i = m - 1;
        size_list_same_until(reg, ids, n, a, b, i);
        let k = size_list_has(reg, ids, n, a, b, i);
        if k < i {
            assert(a[k] == b[k]);
            assert(listed_before(a[k], a[i]));
        }
        let j = size_list_has(reg, ids, n, b, a, i);
        if j < i {
            assert(a[j] == b[j]);
            assert(listed_before(b[j], b[i]));
        }
        if k > i {
            assert(listed_before(b[i], b[k]));
            if j > i {
                assert(listed_before(a[i], a[j]));
            }
        }
    }
}

/// The figures of a report by page: one more page adds its slices of each kind to the sum of that
/// kind, and its pinned slices behind those of the pages before.
pub proof fn reports_add_up(pages: Seq<PageDiag>, p: PageDiag, k: int)
    requires
        0 <= k < 4,
    ensures
        ({
            let n = pages.len() as int;
            let more = pages.push(p);
            &&& count_sum(more, k, n + 1) == count_sum(pages, k, n) + p.counts[k]
            &&& all_pinned(more, n + 1) == all_pinned(pages, n) + p.pinned@
            &&& slice_sum(more) == slice_sum(pages) + p.counts[0] + p.counts[1] + p.counts[2]
                + p.counts[3]
        }),
        slice_sum(Seq::empty()) == 0,
{
    let n = pages.len() as int;
    let more = pages.push(p);
    report_of_prefix(pages, more, k, n);
    report_of_prefix(pages, more, 0, n);
    report_of_prefix(pages, more, 1, n);
    report_of_prefix(pages, more, 2, n);
    report_of_prefix(pages, more, 3, n);
}

proof fn report_of_prefix(a: Seq<PageDiag>, b: Seq<PageDiag>, k: int, n: int)
    requires
        0 <= n <= a.len(),
        n <= b.len(),
        forall|i: int| 0 <= i < n ==> a[i] == b[i],
    ensures
        count_sum(a, k, n) == count_sum(b, k, n),
        all_pinned(a, n) == all_pinned(b, n),
    decreases n,
{
    if n > 0 {
        report_of_prefix(a, b, k, n - 1);
    }
}

/// The list of sizes goes from the most frequent to the least, and from small to great among those
/// that are as frequent; at most eight are listed. Of the first 400 pinned slices the 24 with the
/// smallest numbers are.
pub proof fn lists_are_short_and_sorted(
    reg: AllocSizes,
    ids: Seq<u64>,
    list: Seq<(u64, u64)>,
    sorted: Seq<u64>,
    i: int,
    j: int,
)
    requires
        // what `pool_report` says of its lists
        is_size_list(reg, ids, ids.len() as int, list),
        is_sorting(sorted, at_most(ids, SAMPLE as int)),
        0 <= i < j,
    ensures
        at_most(list, TOP_SIZES as int).len() <= 8,
        list.len() >= 8 ==> at_most(list, TOP_SIZES as int).len() == 8,
        j < list.len() ==> list[i].1 > list[j].1 || list[i].1 == list[j].1 && list[i].0 < list[j].0,
        at_most(ids, SAMPLE as int).len() <= 400,
        ids.len() >= 400 ==> at_most(ids, SAMPLE as int) == ids.take(400),
        at_most(sorted, LISTED as int).len() <= 24,
        sorted.len() >= 24 ==> at_most(sorted, LISTED as int) == sorted.take(24),
        j < sorted.len() ==> sorted[i] <= sorted[j],
{
    if j < list.len() {
        assert(listed_before(list[i], list[j]));
    }
}

/// The count of a size goes up by one with each pinned slice that has that size, and with no
/// other; sizes count only while diagnostics are on.
pub proof fn sizes_are_counted(reg: AllocSizes, ids: Seq<u64>, size: u64, n: int)
    requires
        0 < n <= ids.len(),
    ensures
        size_count(reg, ids, size, n) == size_count(reg, ids, size, n - 1) + if alloc_sizes::found(
            reg.enabled(),
            reg.sizes(),
            ids[n - 1],
        ) == Some(size) {
            1int
        } else {
            0int
        },
        size_count(reg, ids, size, 0) == 0,
{
}

} // verus!
