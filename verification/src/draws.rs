//! Normal numbers drawn from seeded streams: for the slots of a chunk of candidates, and for a
//! fully connected network.
//!
//! Numbers are held by their bits. `polar` makes two normals of two uniform draws, and other
//! functions scale a number; both are floating point and are given by the caller.

use crate::factored;
use crate::factored::{FSlotSpec, FC_HIDE, FC_IN, FC_OUT};
use crate::noise;
use crate::noise::{candidate_negative, candidate_pair, noise_seed, DeterministicNoise};
use crate::params::FcBase;
use crate::slots::OrigShape;
use vstd::prelude::*;

verus! {

/// State of a generator after `m` steps.
pub open spec fn state_at(s: u64, m: int) -> u64
    decreases m,
{
    if m <= 0 {
        s
    } else {
        noise::xorshift(state_at(s, m - 1))
    }
}

/// Uniform draw `m` of a generator, a number of 24 bits.
pub open spec fn unit_at(s: u64, m: int) -> u32 {
    (state_at(s, m + 1) >> 40u64) as u32
}

/// Whether these are the pairs of normals that a stream gives: pair `p` comes from draws `2p` and
/// `2p + 1`.
pub open spec fn pairs_drawn<F: Fn(u32, u32) -> (u32, u32)>(
    polar: F,
    seed: u64,
    pairs: Seq<(u32, u32)>,
) -> bool {
    forall|p: int|
        0 <= p < pairs.len() ==> polar.ensures(
            (unit_at(seed | 1, 2 * p), unit_at(seed | 1, 2 * p + 1)),
            #[trigger] pairs[p],
        )
}

/// Number `k` of a list of pairs.
pub open spec fn pair_item(pairs: Seq<(u32, u32)>, k: int) -> u32 {
    if k % 2 == 0 {
        pairs[k / 2].0
    } else {
        pairs[k / 2].1
    }
}

/// Whether these are the first normals of a stream.
pub open spec fn is_drawn<F: Fn(u32, u32) -> (u32, u32)>(polar: F, seed: u64, v: Seq<u32>) -> bool {
    exists|pairs: Seq<(u32, u32)>|
        #[trigger] pairs_drawn(polar, seed, pairs) && pairs.len() == (v.len() + 1) / 2 && forall|
            k: int,
        |
            0 <= k < v.len() ==> #[trigger] v[k] == pair_item(pairs, k)
}

/// The first `n` normals of a stream.
pub fn normals<F: Fn(u32, u32) -> (u32, u32)>(seed: u64, n: usize, polar: &F) -> (r: Vec<u32>)
    requires
        forall|u1: u32, u2: u32| polar.requires((u1, u2)),
    ensures
        r@.len() == n,
        is_drawn(*polar, seed, r@),
{
    let mut rng = DeterministicNoise::new(seed);
    let mut r: Vec<u32> = Vec::new();
    let ghost mut pairs: Seq<(u32, u32)> = Seq::empty();
    let mut k: usize = 0;
    while k < n
        invariant
            k <= n,
            forall|u1: u32, u2: u32| polar.requires((u1, u2)),
            r@.len() == k,
            pairs.len() == (k + 1) / 2,
            pairs_drawn(*polar, seed, pairs),
            forall|i: int| 0 <= i < k ==> #[trigger] r@[i] == pair_item(pairs, i),
            rng.state() == state_at(seed | 1, 2 * pairs.len() as int),
            rng.pending() == if k % 2 == 0 {
                None
            } else {
                Some(pairs[k as int / 2].1)
            },
        decreases n - k,
    {
        let ghost s = seed | 1;
        let ghost m = 2 * pairs.len() as int;
        let v: u32 = rng.standard_normal(polar);
        proof {
            if k % 2 == 0 {
                let old_pairs = pairs;
                reveal_with_fuel(state_at, 3);
                assert(state_at(s, m + 1) == noise::xorshift(state_at(s, m)));
                assert(state_at(s, m + 2) == noise::xorshift(state_at(s, m + 1)));
                pairs = pairs.push((v, rng.pending()->0));
                assert forall|p: int| 0 <= p < pairs.len() implies polar.ensures(
                    (unit_at(s, 2 * p), unit_at(s, 2 * p + 1)),
                    #[trigger] pairs[p],
                ) by {
                    if p < old_pairs.len() {
                        assert(pairs[p] == old_pairs[p]);
                    }
                }
                assert forall|i: int| 0 <= i < k implies #[trigger] r@[i] == pair_item(
                    pairs,
                    i,
                ) by {
                    assert(pairs[i / 2] == old_pairs[i / 2]);
                }
            }
        }
        r.push(v);
        k += 1;
    }
    r
}

/// Whether `v` is the noise of a candidate on a weight slot: normals of the slot's stream, those
/// behind the first `shared` scaled.
pub open spec fn weight_row<FP: Fn(u32, u32) -> (u32, u32), FS: Fn(usize, bool, u32) -> u32>(
    polar: FP,
    scale: FS,
    seed: u64,
    si: usize,
    negative: bool,
    shared: int,
    v: Seq<u32>,
) -> bool {
    exists|raw: Seq<u32>|
        #[trigger] is_drawn(polar, seed, raw) && raw.len() == v.len() && forall|k: int|
            0 <= k < v.len() ==> if k < shared {
                #[trigger] v[k] == raw[k]
            } else {
                scale.ensures((si, negative, raw[k]), v[k])
            }
}

/// Normals of a stream, those behind the first `shared` scaled.
fn draw_row<FP: Fn(u32, u32) -> (u32, u32), FS: Fn(usize, bool, u32) -> u32>(
    seed: u64,
    si: usize,
    negative: bool,
    shared: usize,
    n: usize,
    polar: &FP,
    scale: &FS,
) -> (r: Vec<u32>)
    requires
        forall|u1: u32, u2: u32| polar.requires((u1, u2)),
        forall|i: usize, b: bool, x: u32| scale.requires((i, b, x)),
    ensures
        r@.len() == n,
        weight_row(*polar, *scale, seed, si, negative, shared as int, r@),
{
    let raw = normals(seed, n, polar);
    let mut r: Vec<u32> = Vec::new();
    let mut k: usize = 0;
    while k < n
        invariant
            k <= n,
            raw@.len() == n,
            forall|i: usize, b: bool, x: u32| scale.requires((i, b, x)),
            r@.len() == k,
            forall|i: int|
                0 <= i < k ==> if i < shared {
                    #[trigger] r@[i] == raw@[i]
                } else {
                    scale.ensures((si, negative, raw@[i]), r@[i])
                },
        decreases n - k,
    {
        if k < shared {
            r.push(raw[k]);
        } else {
            r.push(scale(si, negative, raw[k]));
        }
        k += 1;
    }
    assert(is_drawn(*polar, seed, raw@));
    r
}

/// The items of the first `k` rows, one after the other.
pub open spec fn rows_joined(rows: Seq<Seq<u32>>, k: int) -> Seq<u32>
    decreases k,
{
    if k <= 0 {
        Seq::empty()
    } else {
        rows_joined(rows, k - 1) + rows[k - 1]
    }
}

/// Numbers of a weight slot that a pair shares, and all of them.
pub open spec fn row_sizes(slot: FSlotSpec, rank: int) -> (int, int) {
    (slot.shape.cols() * rank, (slot.shape.rows() + slot.shape.cols()) * rank)
}

/// Whether these rows are the noise of candidates on a weight slot.
pub open spec fn weight_rows<FP: Fn(u32, u32) -> (u32, u32), FS: Fn(usize, bool, u32) -> u32>(
    polar: FP,
    scale: FS,
    slot: FSlotSpec,
    si: usize,
    rank: int,
    cand: Seq<usize>,
    epoch: i32,
    rows: Seq<Seq<u32>>,
) -> bool {
    &&& rows.len() == cand.len()
    &&& forall|c: int|
        #![trigger rows[c]]
        0 <= c < cand.len() ==> {
            &&& rows[c].len() == row_sizes(slot, rank).1
            &&& weight_row(
                polar,
                scale,
                noise::seed_of(slot.key, epoch, noise::pair_of(cand[c] as int)),
                si,
                noise::is_negative(cand[c] as int),
                row_sizes(slot, rank).0,
                rows[c],
            )
        }
}

/// Whether these rows are the noise of candidates on a bias slot: all of it is scaled.
pub open spec fn bias_rows<FP: Fn(u32, u32) -> (u32, u32), FS: Fn(usize, bool, u32) -> u32>(
    polar: FP,
    scale: FS,
    slot: FSlotSpec,
    si: usize,
    cand: Seq<usize>,
    epoch: i32,
    rows: Seq<Seq<u32>>,
) -> bool {
    &&& rows.len() == cand.len()
    &&& forall|c: int|
        #![trigger rows[c]]
        0 <= c < cand.len() ==> {
            &&& rows[c].len() == slot.shape.numel()
            &&& weight_row(
                polar,
                scale,
                noise::seed_of(slot.key, epoch, noise::pair_of(cand[c] as int)),
                si,
                noise::is_negative(cand[c] as int),
                0,
                rows[c],
            )
        }
}

/// Whether a list is the noise of candidates on a weight slot, candidate by candidate.
pub open spec fn weight_noise<FP: Fn(u32, u32) -> (u32, u32), FS: Fn(usize, bool, u32) -> u32>(
    polar: FP,
    scale: FS,
    slot: FSlotSpec,
    si: usize,
    rank: int,
    cand: Seq<usize>,
    epoch: i32,
    v: Seq<u32>,
) -> bool {
    exists|rows: Seq<Seq<u32>>|
        #[trigger] weight_rows(polar, scale, slot, si, rank, cand, epoch, rows) && v
            == rows_joined(rows, rows.len() as int)
}

/// Whether a list is the noise of candidates on a bias slot, candidate by candidate.
pub open spec fn bias_noise<FP: Fn(u32, u32) -> (u32, u32), FS: Fn(usize, bool, u32) -> u32>(
    polar: FP,
    scale: FS,
    slot: FSlotSpec,
    si: usize,
    cand: Seq<usize>,
    epoch: i32,
    v: Seq<u32>,
) -> bool {
    exists|rows: Seq<Seq<u32>>|
        #[trigger] bias_rows(polar, scale, slot, si, cand, epoch, rows) && v == rows_joined(
            rows,
            rows.len() as int,
        )
}

/// What the first rows hold does not depend on those behind.
proof fn rows_stay(a: Seq<Seq<u32>>, b: Seq<Seq<u32>>, k: int)
    requires
        k <= a.len() <= b.len(),
        forall|i: int| 0 <= i < a.len() ==> #[trigger] b[i] == a[i],
    ensures
        rows_joined(a, k) == rows_joined(b, k),
    decreases k,
{
    if k > 0 {
        rows_stay(a, b, k - 1);
    }
}

/// The noise of candidates on a weight slot.
fn draw_weight_slot<FP: Fn(u32, u32) -> (u32, u32), FS: Fn(usize, bool, u32) -> u32>(
    slot: &FSlotSpec,
    si: usize,
    rank: usize,
    cand: &[usize],
    epoch: i32,
    polar: &FP,
    scale: &FS,
) -> (v: Vec<u32>)
    requires
        slot.shape.fits(),
        (slot.shape.rows() + slot.shape.cols()) * rank <= usize::MAX,
        slot.shape.rows() + slot.shape.cols() <= usize::MAX,
        forall|u1: u32, u2: u32| polar.requires((u1, u2)),
        forall|i: usize, b: bool, x: u32| scale.requires((i, b, x)),
    ensures
        weight_noise(*polar, *scale, *slot, si, rank as int, cand@, epoch, v@),
{
    let f = slot.shape.flat2d();
    let a: usize = f[0];
    let b: usize = f[1];
    assert(b * rank <= (a + b) * rank) by (nonlinear_arith);
    let shared: usize = b * rank;
    let n: usize = (a + b) * rank;
    let mut v: Vec<u32> = Vec::new();
    let ghost mut rows: Seq<Seq<u32>> = Seq::empty();
    let mut c: usize = 0;
    while c < cand.len()
        invariant
            c <= cand@.len(),
            (shared as int, n as int) == row_sizes(*slot, rank as int),
            forall|u1: u32, u2: u32| polar.requires((u1, u2)),
            forall|i: usize, b: bool, x: u32| scale.requires((i, b, x)),
            weight_rows(
                *polar,
                *scale,
                *slot,
                si,
                rank as int,
                cand@.take(c as int),
                epoch,
                rows,
            ),
            v@ == rows_joined(rows, c as int),
        decreases cand@.len() - c,
    {
        let seed: u64 = noise_seed(slot.key, epoch, candidate_pair(cand[c]));
        let negative = candidate_negative(cand[c]);
        let mut row = draw_row(seed, si, negative, shared, n, polar, scale);
        let ghost drawn = row@;
        v.append(&mut row);
        proof {
            let before = rows;
            rows = rows.push(drawn);
            rows_stay(before, rows, c as int);
            let part = cand@.take(c + 1);
            assert forall|i: int| #![trigger rows[i]] 0 <= i < part.len() implies rows[i].len()
                == row_sizes(*slot, rank as int).1 && weight_row(
                *polar,
                *scale,
                noise::seed_of(slot.key, epoch, noise::pair_of(part[i] as int)),
                si,
                noise::is_negative(part[i] as int),
                row_sizes(*slot, rank as int).0,
                rows[i],
            ) by {
                if i < c {
                    assert(rows[i] == before[i]);
                    assert(part[i] == cand@.take(c as int)[i]);
                }
            }
        }
        c += 1;
    }
    assert(cand@.take(cand@.len() as int) =~= cand@);
    v
}

/// The noise of candidates on a bias slot.
fn draw_bias_slot<FP: Fn(u32, u32) -> (u32, u32), FS: Fn(usize, bool, u32) -> u32>(
    slot: &FSlotSpec,
    si: usize,
    cand: &[usize],
    epoch: i32,
    polar: &FP,
    scale: &FS,
) -> (v: Vec<u32>)
    requires
        slot.shape.fits(),
        forall|u1: u32, u2: u32| polar.requires((u1, u2)),
        forall|i: usize, b: bool, x: u32| scale.requires((i, b, x)),
    ensures
        bias_noise(*polar, *scale, *slot, si, cand@, epoch, v@),
{
    let n: usize = slot.shape.count();
    let mut v: Vec<u32> = Vec::new();
    let ghost mut rows: Seq<Seq<u32>> = Seq::empty();
    let mut c: usize = 0;
    while c < cand.len()
        invariant
            c <= cand@.len(),
            n == slot.shape.numel(),
            forall|u1: u32, u2: u32| polar.requires((u1, u2)),
            forall|i: usize, b: bool, x: u32| scale.requires((i, b, x)),
            bias_rows(*polar, *scale, *slot, si, cand@.take(c as int), epoch, rows),
            v@ == rows_joined(rows, c as int),
        decreases cand@.len() - c,
    {
        let seed: u64 = noise_seed(slot.key, epoch, candidate_pair(cand[c]));
        let negative = candidate_negative(cand[c]);
        let mut row = draw_row(seed, si, negative, 0, n, polar, scale);
        let ghost drawn = row@;
        v.append(&mut row);
        proof {
            let before = rows;
            rows = rows.push(drawn);
            rows_stay(before, rows, c as int);
            let part = cand@.take(c + 1);
            assert forall|i: int| #![trigger rows[i]] 0 <= i < part.len() implies rows[i].len()
                == slot.shape.numel() && weight_row(
                *polar,
                *scale,
                noise::seed_of(slot.key, epoch, noise::pair_of(part[i] as int)),
                si,
                noise::is_negative(part[i] as int),
                0,
                rows[i],
            ) by {
                if i < c {
                    assert(rows[i] == before[i]);
                    assert(part[i] == cand@.take(c as int)[i]);
                }
            }
        }
        c += 1;
    }
    assert(cand@.take(cand@.len() as int) =~= cand@);
    v
}

/// The noise of a chunk of candidates: for each weight slot and each bias slot the numbers of all
/// candidates, one after the other.
pub struct ChunkNoise {
    pub lora: Vec<Vec<u32>>,
    pub dense: Vec<Vec<u32>>,
}

/// Whether this is the noise of candidates on all slots.
pub open spec fn chunk_drawn<
    FP: Fn(u32, u32) -> (u32, u32),
    FL: Fn(usize, bool, u32) -> u32,
    FD: Fn(usize, bool, u32) -> u32,
>(
    polar: FP,
    scale_lora: FL,
    scale_dense: FD,
    lora: Seq<FSlotSpec>,
    dense: Seq<FSlotSpec>,
    rank: int,
    cand: Seq<usize>,
    epoch: i32,
    r: ChunkNoise,
) -> bool {
    &&& r.lora@.len() == lora.len()
    &&& r.dense@.len() == dense.len()
    &&& forall|si: int|
        #![trigger r.lora@[si]]
        0 <= si < lora.len() ==> weight_noise(
            polar,
            scale_lora,
            lora[si],
            si as usize,
            rank,
            cand,
            epoch,
            r.lora@[si]@,
        )
    &&& forall|si: int|
        #![trigger r.dense@[si]]
        0 <= si < dense.len() ==> bias_noise(
            polar,
            scale_dense,
            dense[si],
            si as usize,
            cand,
            epoch,
            r.dense@[si]@,
        )
}

/// The noise of a chunk of candidates. On a weight slot a candidate has `(rows + cols) * rank`
/// numbers: the first `cols * rank` are shared by its pair, the others carry sign and size. On a
/// bias slot all numbers do. `scale_lora` and `scale_dense` give a number its sign and size.
pub fn gen_chunk_flat<
    FP: Fn(u32, u32) -> (u32, u32),
    FL: Fn(usize, bool, u32) -> u32,
    FD: Fn(usize, bool, u32) -> u32,
>(
    lora: &[FSlotSpec],
    dense: &[FSlotSpec],
    rank: usize,
    cand: &[usize],
    epoch: i32,
    polar: &FP,
    scale_lora: &FL,
    scale_dense: &FD,
) -> (r: ChunkNoise)
    requires
        forall|i: int|
            #![trigger lora@[i]]
            0 <= i < lora@.len() ==> {
                &&& lora@[i].shape.fits()
                &&& lora@[i].shape.rows() + lora@[i].shape.cols() <= usize::MAX
                &&& (lora@[i].shape.rows() + lora@[i].shape.cols()) * rank <= usize::MAX
            },
        forall|i: int| 0 <= i < dense@.len() ==> (#[trigger] dense@[i]).shape.fits(),
        forall|u1: u32, u2: u32| polar.requires((u1, u2)),
        forall|i: usize, b: bool, x: u32| scale_lora.requires((i, b, x)),
        forall|i: usize, b: bool, x: u32| scale_dense.requires((i, b, x)),
    ensures
        chunk_drawn(
            *polar,
            *scale_lora,
            *scale_dense,
            lora@,
            dense@,
            rank as int,
            cand@,
            epoch,
            r,
        ),
{
    let mut lb: Vec<Vec<u32>> = Vec::new();
    let mut si: usize = 0;
    while si < lora.len()
        invariant
            si <= lora@.len(),
            forall|i: int|
                #![trigger lora@[i]]
                0 <= i < lora@.len() ==> {
                    &&& lora@[i].shape.fits()
                    &&& lora@[i].shape.rows() + lora@[i].shape.cols() <= usize::MAX
                    &&& (lora@[i].shape.rows() + lora@[i].shape.cols()) * rank <= usize::MAX
                },
            forall|u1: u32, u2: u32| polar.requires((u1, u2)),
            forall|i: usize, b: bool, x: u32| scale_lora.requires((i, b, x)),
            lb@.len() == si,
            forall|i: int|
                #![trigger lb@[i]]
                0 <= i < si ==> weight_noise(
                    *polar,
                    *scale_lora,
                    lora@[i],
                    i as usize,
                    rank as int,
                    cand@,
                    epoch,
                    lb@[i]@,
                ),
        decreases lora@.len() - si,
    {
        lb.push(draw_weight_slot(&lora[si], si, rank, cand, epoch, polar, scale_lora));
        si += 1;
    }
    let mut db: Vec<Vec<u32>> = Vec::new();
    let mut sj: usize = 0;
    while sj < dense.len()
        invariant
            sj <= dense@.len(),
            forall|i: int| 0 <= i < dense@.len() ==> (#[trigger] dense@[i]).shape.fits(),
            forall|u1: u32, u2: u32| polar.requires((u1, u2)),
            forall|i: usize, b: bool, x: u32| scale_dense.requires((i, b, x)),
            db@.len() == sj,
            forall|i: int|
                #![trigger db@[i]]
                0 <= i < sj ==> bias_noise(
                    *polar,
                    *scale_dense,
                    dense@[i],
                    i as usize,
                    cand@,
                    epoch,
                    db@[i]@,
                ),
        decreases dense@.len() - sj,
    {
        db.push(draw_bias_slot(&dense[sj], sj, cand, epoch, polar, scale_dense));
        sj += 1;
    }
    ChunkNoise { lora: lb, dense: db }
}

/// Each list of `a`, followed by the list at the same place of `b`.
pub open spec fn appended(a: Seq<Vec<u32>>, b: Seq<Vec<u32>>, r: Seq<Vec<u32>>) -> bool {
    r.len() == a.len() && forall|i: int|
        0 <= i < a.len() ==> (#[trigger] r[i])@ == a[i]@ + b[i]@
}

/// Puts each list of `b` behind the list at the same place of `a`.
fn append_lists(a: &Vec<Vec<u32>>, b: &Vec<Vec<u32>>) -> (r: Vec<Vec<u32>>)
    requires
        a@.len() == b@.len(),
    ensures
        appended(a@, b@, r@),
{
    let mut r: Vec<Vec<u32>> = Vec::new();
    let mut i: usize = 0;
    while i < a.len()
        invariant
            i <= a@.len(),
            a@.len() == b@.len(),
            r@.len() == i,
            forall|k: int| 0 <= k < i ==> (#[trigger] r@[k])@ == a@[k]@ + b@[k]@,
        decreases a@.len() - i,
    {
        let mut v: Vec<u32> = Vec::new();
        v.extend_from_slice(a[i].as_slice());
        v.extend_from_slice(b[i].as_slice());
        assert(v@ =~= a@[i as int]@ + b@[i as int]@);
        r.push(v);
        i += 1;
    }
    r
}

impl ChunkNoise {
    /// The noise of the candidates of `self`, followed by that of the candidates of `other`.
    pub fn join(&self, other: &ChunkNoise) -> (r: ChunkNoise)
        requires
            self.lora@.len() == other.lora@.len(),
            self.dense@.len() == other.dense@.len(),
        ensures
            appended(self.lora@, other.lora@, r.lora@),
            appended(self.dense@, other.dense@, r.dense@),
    {
        ChunkNoise {
            lora: append_lists(&self.lora, &other.lora),
            dense: append_lists(&self.dense, &other.dense),
        }
    }
}

/// Rows of two lists, one list after the other.
proof fn rows_join(a: Seq<Seq<u32>>, b: Seq<Seq<u32>>, k: int)
    requires
        0 <= k <= b.len(),
    ensures
        rows_joined(a + b, a.len() + k) == rows_joined(a, a.len() as int) + rows_joined(b, k),
    decreases k,
{
    let ab = a + b;
    if k == 0 {
        assert forall|i: int| 0 <= i < a.len() implies #[trigger] ab[i] == a[i] by {}
        rows_stay(a, ab, a.len() as int);
        assert(rows_joined(b, k) =~= Seq::<u32>::empty());
    } else {
        rows_join(a, b, k - 1);
        assert(ab[a.len() + k - 1] == b[k - 1]);
        assert(rows_joined(ab, a.len() + k) =~= rows_joined(ab, a.len() + k - 1) + b[k - 1]);
        assert(rows_joined(b, k) =~= rows_joined(b, k - 1) + b[k - 1]);
    }
}

/// Noise on a weight slot for two parts of a list of candidates, joined, is that of the whole list.
proof fn weight_noise_joins<FP: Fn(u32, u32) -> (u32, u32), FS: Fn(usize, bool, u32) -> u32>(
    polar: FP,
    scale: FS,
    s: FSlotSpec,
    n: usize,
    rank: int,
    cand1: Seq<usize>,
    cand2: Seq<usize>,
    epoch: i32,
    v1: Seq<u32>,
    v2: Seq<u32>,
)
    requires
        weight_noise(polar, scale, s, n, rank, cand1, epoch, v1),
        weight_noise(polar, scale, s, n, rank, cand2, epoch, v2),
    ensures
        weight_noise(polar, scale, s, n, rank, cand1 + cand2, epoch, v1 + v2),
{
    let cand = cand1 + cand2;
    let rows1 = choose|x: Seq<Seq<u32>>|
        #[trigger] weight_rows(polar, scale, s, n, rank, cand1, epoch, x) && v1 == rows_joined(
            x,
            x.len() as int,
        );
    let rows2 = choose|x: Seq<Seq<u32>>|
        #[trigger] weight_rows(polar, scale, s, n, rank, cand2, epoch, x) && v2 == rows_joined(
            x,
            x.len() as int,
        );
    let rows = rows1 + rows2;
    rows_join(rows1, rows2, rows2.len() as int);
    assert forall|c: int| #![trigger rows[c]] 0 <= c < cand.len() implies rows[c].len()
        == row_sizes(s, rank).1 && weight_row(
        polar,
        scale,
        noise::seed_of(s.key, epoch, noise::pair_of(cand[c] as int)),
        n,
        noise::is_negative(cand[c] as int),
        row_sizes(s, rank).0,
        rows[c],
    ) by {
        if c < cand1.len() {
            assert(rows[c] == rows1[c] && cand[c] == cand1[c]);
        } else {
            let d = c - cand1.len();
            assert(rows[c] == rows2[d] && cand[c] == cand2[d]);
        }
    }
    assert(weight_rows(polar, scale, s, n, rank, cand, epoch, rows));
}

/// Noise on a bias slot for two parts of a list of candidates, joined, is that of the whole list.
proof fn bias_noise_joins<FP: Fn(u32, u32) -> (u32, u32), FS: Fn(usize, bool, u32) -> u32>(
    polar: FP,
    scale: FS,
    s: FSlotSpec,
    n: usize,
    cand1: Seq<usize>,
    cand2: Seq<usize>,
    epoch: i32,
    v1: Seq<u32>,
    v2: Seq<u32>,
)
    requires
        bias_noise(polar, scale, s, n, cand1, epoch, v1),
        bias_noise(polar, scale, s, n, cand2, epoch, v2),
    ensures
        bias_noise(polar, scale, s, n, cand1 + cand2, epoch, v1 + v2),
{
    let cand = cand1 + cand2;
    let rows1 = choose|x: Seq<Seq<u32>>|
        #[trigger] bias_rows(polar, scale, s, n, cand1, epoch, x) && v1 == rows_joined(
            x,
            x.len() as int,
        );
    let rows2 = choose|x: Seq<Seq<u32>>|
        #[trigger] bias_rows(polar, scale, s, n, cand2, epoch, x) && v2 == rows_joined(
            x,
            x.len() as int,
        );
    let rows = rows1 + rows2;
    rows_join(rows1, rows2, rows2.len() as int);
    assert forall|c: int| #![trigger rows[c]] 0 <= c < cand.len() implies rows[c].len()
        == s.shape.numel() && weight_row(
        polar,
        scale,
        noise::seed_of(s.key, epoch, noise::pair_of(cand[c] as int)),
        n,
        noise::is_negative(cand[c] as int),
        0,
        rows[c],
    ) by {
        if c < cand1.len() {
            assert(rows[c] == rows1[c] && cand[c] == cand1[c]);
        } else {
            let d = c - cand1.len();
            assert(rows[c] == rows2[d] && cand[c] == cand2[d]);
        }
    }
    assert(bias_rows(polar, scale, s, n, cand, epoch, rows));
}

/// Noise drawn for two parts of a list of candidates, joined, is noise of the whole list: workers
/// may draw the parts on their own.
pub proof fn joined_parts_are_whole<
    FP: Fn(u32, u32) -> (u32, u32),
    FL: Fn(usize, bool, u32) -> u32,
    FD: Fn(usize, bool, u32) -> u32,
>(
    polar: FP,
    scale_lora: FL,
    scale_dense: FD,
    lora: Seq<FSlotSpec>,
    dense: Seq<FSlotSpec>,
    rank: int,
    cand1: Seq<usize>,
    cand2: Seq<usize>,
    epoch: i32,
    r1: ChunkNoise,
    r2: ChunkNoise,
    r: ChunkNoise,
)
    requires
        chunk_drawn(polar, scale_lora, scale_dense, lora, dense, rank, cand1, epoch, r1),
        chunk_drawn(polar, scale_lora, scale_dense, lora, dense, rank, cand2, epoch, r2),
        appended(r1.lora@, r2.lora@, r.lora@),
        appended(r1.dense@, r2.dense@, r.dense@),
    ensures
        chunk_drawn(polar, scale_lora, scale_dense, lora, dense, rank, cand1 + cand2, epoch, r),
{
    assert forall|si: int| #![trigger r.lora@[si]] 0 <= si < lora.len() implies weight_noise(
        polar,
        scale_lora,
        lora[si],
        si as usize,
        rank,
        cand1 + cand2,
        epoch,
        r.lora@[si]@,
    ) by {
        weight_noise_joins(
            polar,
            scale_lora,
            lora[si],
            si as usize,
            rank,
            cand1,
            cand2,
            epoch,
            r1.lora@[si]@,
            r2.lora@[si]@,
        );
    }
    assert forall|si: int| #![trigger r.dense@[si]] 0 <= si < dense.len() implies bias_noise(
        polar,
        scale_dense,
        dense[si],
        si as usize,
        cand1 + cand2,
        epoch,
        r.dense@[si]@,
    ) by {
        bias_noise_joins(
            polar,
            scale_dense,
            dense[si],
            si as usize,
            cand1,
            cand2,
            epoch,
            r1.dense@[si]@,
            r2.dense@[si]@,
        );
    }
}

/// Number `k` of row `c` of equally long rows stands at place `c * n + k`.
pub proof fn row_places(rows: Seq<Seq<u32>>, n: int, m: int, c: int, k: int)
    requires
        forall|i: int| 0 <= i < rows.len() ==> (#[trigger] rows[i]).len() == n,
        0 <= c < m <= rows.len(),
        0 <= k < n,
    ensures
        rows_joined(rows, m).len() == m * n,
        0 <= c * n + k < m * n,
        rows_joined(rows, m)[c * n + k] == rows[c][k],
    decreases m,
{
    joined_len(rows, n, m);
    joined_len(rows, n, m - 1);
    assert(rows_joined(rows, m) == rows_joined(rows, m - 1) + rows[m - 1]);
    assert((m - 1) * n + n == m * n) by (nonlinear_arith);
    if c == m - 1 {
        assert(c * n >= 0) by (nonlinear_arith)
            requires
                c >= 0,
                n >= 0,
        ;
    } else {
        row_places(rows, n, m - 1, c, k);
    }
}

/// Length of equally long rows.
proof fn joined_len(rows: Seq<Seq<u32>>, n: int, m: int)
    requires
        forall|i: int| 0 <= i < rows.len() ==> (#[trigger] rows[i]).len() == n,
        0 <= m <= rows.len(),
    ensures
        rows_joined(rows, m).len() == m * n,
    decreases m,
{
    if m > 0 {
        joined_len(rows, n, m - 1);
        assert((m - 1) * n + n == m * n) by (nonlinear_arith);
    } else {
        assert(m * n == 0) by (nonlinear_arith)
            requires
                m == 0,
        ;
    }
}

/// Whether a function has one result for each pair of arguments.
pub open spec fn is_fixed<F: Fn(u32, u32) -> (u32, u32)>(polar: F) -> bool {
    forall|u1: u32, u2: u32, x: (u32, u32), y: (u32, u32)|
        #[trigger] polar.ensures((u1, u2), x) && #[trigger] polar.ensures((u1, u2), y) ==> x == y
}

/// A seed fixes the stream: two draws from it are the same as far as both go.
pub proof fn stream_is_fixed<F: Fn(u32, u32) -> (u32, u32)>(
    polar: F,
    seed: u64,
    a: Seq<u32>,
    b: Seq<u32>,
    k: int,
)
    requires
        is_fixed(polar),
        is_drawn(polar, seed, a),
        is_drawn(polar, seed, b),
        0 <= k < a.len(),
        k < b.len(),
    ensures
        a[k] == b[k],
{
    let pa = choose|p: Seq<(u32, u32)>|
        #[trigger] pairs_drawn(polar, seed, p) && p.len() == (a.len() + 1) / 2 && forall|i: int|
            0 <= i < a.len() ==> #[trigger] a[i] == pair_item(p, i);
    let pb = choose|p: Seq<(u32, u32)>|
        #[trigger] pairs_drawn(polar, seed, p) && p.len() == (b.len() + 1) / 2 && forall|i: int|
            0 <= i < b.len() ==> #[trigger] b[i] == pair_item(p, i);
    let h = k / 2;
    assert(polar.ensures((unit_at(seed | 1, 2 * h), unit_at(seed | 1, 2 * h + 1)), pa[h]));
    assert(polar.ensures((unit_at(seed | 1, 2 * h), unit_at(seed | 1, 2 * h + 1)), pb[h]));
    assert(a[k] == pair_item(pa, k) && b[k] == pair_item(pb, k));
}

/// The two candidates of a pair share the first numbers of a weight slot, and scale the same
/// normals to their other numbers, one as the positive and one as the negative of the pair.
pub proof fn pairs_share_draws<
    FP: Fn(u32, u32) -> (u32, u32),
    FS: Fn(usize, bool, u32) -> u32,
>(
    polar: FP,
    scale: FS,
    slot: FSlotSpec,
    si: usize,
    rank: int,
    cand: Seq<usize>,
    epoch: i32,
    rows: Seq<Seq<u32>>,
    c: int,
    d: int,
    k: int,
)
    requires
        is_fixed(polar),
        weight_rows(polar, scale, slot, si, rank, cand, epoch, rows),
        0 <= c < cand.len(),
        0 <= d < cand.len(),
        cand[c] % 2 == 0,
        cand[d] == cand[c] + 1,
        0 <= k < row_sizes(slot, rank).1,
    ensures
        k < row_sizes(slot, rank).0 ==> rows[c][k] == rows[d][k],
        k >= row_sizes(slot, rank).0 ==> exists|x: u32|
            {
                &&& #[trigger] scale.ensures((si, false, x), rows[c][k])
                &&& scale.ensures((si, true, x), rows[d][k])
            },
{
    let seed = noise::seed_of(slot.key, epoch, noise::pair_of(cand[c] as int));
    assert(noise::pair_of(cand[c] as int) == noise::pair_of(cand[d] as int));
    let shared = row_sizes(slot, rank).0;
    assert(weight_row(polar, scale, seed, si, false, shared, rows[c]));
    assert(weight_row(polar, scale, seed, si, true, shared, rows[d]));
    let x = choose|raw: Seq<u32>|
        #[trigger] is_drawn(polar, seed, raw) && raw.len() == rows[c].len() && forall|i: int|
            0 <= i < rows[c].len() ==> if i < shared {
                #[trigger] rows[c][i] == raw[i]
            } else {
                scale.ensures((si, false, raw[i]), rows[c][i])
            };
    let y = choose|raw: Seq<u32>|
        #[trigger] is_drawn(polar, seed, raw) && raw.len() == rows[d].len() && forall|i: int|
            0 <= i < rows[d].len() ==> if i < shared {
                #[trigger] rows[d][i] == raw[i]
            } else {
                scale.ensures((si, true, raw[i]), rows[d][i])
            };
    stream_is_fixed(polar, seed, x, y, k);
    if k < shared {
        assert(rows[c][k] == x[k] && rows[d][k] == y[k]);
    } else {
        assert(scale.ensures((si, false, x[k]), rows[c][k]));
        assert(scale.ensures((si, true, x[k]), rows[d][k]));
    }
}

/// Whether a scaling has one result for each number.
pub open spec fn scale_is_fixed<FS: Fn(usize, bool, u32) -> u32>(scale: FS) -> bool {
    forall|si: usize, b: bool, v: u32, x: u32, y: u32|
        #[trigger] scale.ensures((si, b, v), x) && #[trigger] scale.ensures((si, b, v), y) ==> x
            == y
}

/// A seed fixes the noise of a candidate on a slot.
proof fn row_is_fixed<FP: Fn(u32, u32) -> (u32, u32), FS: Fn(usize, bool, u32) -> u32>(
    polar: FP,
    scale: FS,
    seed: u64,
    si: usize,
    negative: bool,
    shared: int,
    v: Seq<u32>,
    w: Seq<u32>,
)
    requires
        is_fixed(polar),
        scale_is_fixed(scale),
        weight_row(polar, scale, seed, si, negative, shared, v),
        weight_row(polar, scale, seed, si, negative, shared, w),
        v.len() == w.len(),
    ensures
        v == w,
{
    let x = choose|raw: Seq<u32>|
        #[trigger] is_drawn(polar, seed, raw) && raw.len() == v.len() && forall|k: int|
            0 <= k < v.len() ==> if k < shared {
                #[trigger] v[k] == raw[k]
            } else {
                scale.ensures((si, negative, raw[k]), v[k])
            };
    let y = choose|raw: Seq<u32>|
        #[trigger] is_drawn(polar, seed, raw) && raw.len() == w.len() && forall|k: int|
            0 <= k < w.len() ==> if k < shared {
                #[trigger] w[k] == raw[k]
            } else {
                scale.ensures((si, negative, raw[k]), w[k])
            };
    assert forall|k: int| 0 <= k < v.len() implies #[trigger] v[k] == w[k] by {
        stream_is_fixed(polar, seed, x, y, k);
        if k < shared {
            assert(v[k] == x[k] && w[k] == y[k]);
        } else {
            assert(scale.ensures((si, negative, x[k]), v[k]));
            assert(scale.ensures((si, negative, x[k]), w[k]));
        }
    }
    assert(v =~= w);
}

/// The candidates fix the noise on a weight slot, and how many numbers it has.
proof fn weight_noise_is_fixed<FP: Fn(u32, u32) -> (u32, u32), FS: Fn(usize, bool, u32) -> u32>(
    polar: FP,
    scale: FS,
    s: FSlotSpec,
    si: usize,
    rank: int,
    cand: Seq<usize>,
    epoch: i32,
    v: Seq<u32>,
    w: Seq<u32>,
)
    requires
        weight_noise(polar, scale, s, si, rank, cand, epoch, v),
        weight_noise(polar, scale, s, si, rank, cand, epoch, w),
    ensures
        v.len() == cand.len() * row_sizes(s, rank).1,
        is_fixed(polar) && scale_is_fixed(scale) ==> v == w,
{
    let a = choose|x: Seq<Seq<u32>>|
        #[trigger] weight_rows(polar, scale, s, si, rank, cand, epoch, x) && v == rows_joined(
            x,
            x.len() as int,
        );
    let b = choose|x: Seq<Seq<u32>>|
        #[trigger] weight_rows(polar, scale, s, si, rank, cand, epoch, x) && w == rows_joined(
            x,
            x.len() as int,
        );
    joined_len(a, row_sizes(s, rank).1, a.len() as int);
    if is_fixed(polar) && scale_is_fixed(scale) {
        assert forall|c: int| 0 <= c < cand.len() implies #[trigger] a[c] == b[c] by {
            row_is_fixed(
                polar,
                scale,
                noise::seed_of(s.key, epoch, noise::pair_of(cand[c] as int)),
                si,
                noise::is_negative(cand[c] as int),
                row_sizes(s, rank).0,
                a[c],
                b[c],
            );
        }
        assert(a =~= b);
    }
}

/// The candidates fix the noise on a bias slot, and how many numbers it has.
proof fn bias_noise_is_fixed<FP: Fn(u32, u32) -> (u32, u32), FS: Fn(usize, bool, u32) -> u32>(
    polar: FP,
    scale: FS,
    s: FSlotSpec,
    si: usize,
    cand: Seq<usize>,
    epoch: i32,
    v: Seq<u32>,
    w: Seq<u32>,
)
    requires
        bias_noise(polar, scale, s, si, cand, epoch, v),
        bias_noise(polar, scale, s, si, cand, epoch, w),
    ensures
        v.len() == cand.len() * s.shape.numel(),
        is_fixed(polar) && scale_is_fixed(scale) ==> v == w,
{
    let a = choose|x: Seq<Seq<u32>>|
        #[trigger] bias_rows(polar, scale, s, si, cand, epoch, x) && v == rows_joined(
            x,
            x.len() as int,
        );
    let b = choose|x: Seq<Seq<u32>>|
        #[trigger] bias_rows(polar, scale, s, si, cand, epoch, x) && w == rows_joined(
            x,
            x.len() as int,
        );
    joined_len(a, s.shape.numel(), a.len() as int);
    if is_fixed(polar) && scale_is_fixed(scale) {
        assert forall|c: int| 0 <= c < cand.len() implies #[trigger] a[c] == b[c] by {
            row_is_fixed(
                polar,
                scale,
                noise::seed_of(s.key, epoch, noise::pair_of(cand[c] as int)),
                si,
                noise::is_negative(cand[c] as int),
                0,
                a[c],
                b[c],
            );
        }
        assert(a =~= b);
    }
}

/// A candidate has `(rows + cols) * rank` numbers on a weight slot, and one for each element of a
/// bias slot.
pub proof fn chunk_sizes<
    FP: Fn(u32, u32) -> (u32, u32),
    FL: Fn(usize, bool, u32) -> u32,
    FD: Fn(usize, bool, u32) -> u32,
>(
    polar: FP,
    scale_lora: FL,
    scale_dense: FD,
    lora: Seq<FSlotSpec>,
    dense: Seq<FSlotSpec>,
    rank: int,
    cand: Seq<usize>,
    epoch: i32,
    r: ChunkNoise,
    si: int,
)
    requires
        chunk_drawn(polar, scale_lora, scale_dense, lora, dense, rank, cand, epoch, r),
    ensures
        0 <= si < lora.len() ==> r.lora@[si]@.len() == cand.len() * ((lora[si].shape.rows()
            + lora[si].shape.cols()) * rank),
        0 <= si < dense.len() ==> r.dense@[si]@.len() == cand.len() * dense[si].shape.numel(),
{
    if 0 <= si < lora.len() {
        let v = r.lora@[si]@;
        weight_noise_is_fixed(polar, scale_lora, lora[si], si as usize, rank, cand, epoch, v, v);
    }
    if 0 <= si < dense.len() {
        let v = r.dense@[si]@;
        bias_noise_is_fixed(polar, scale_dense, dense[si], si as usize, cand, epoch, v, v);
    }
}

/// The noise of a list of candidates is that of its first part followed by that of the rest, slot
/// by slot, if the floating-point functions have one result for each argument. So it does not
/// matter how many workers draw it.
pub proof fn noise_follows_candidates<
    FP: Fn(u32, u32) -> (u32, u32),
    FL: Fn(usize, bool, u32) -> u32,
    FD: Fn(usize, bool, u32) -> u32,
>(
    polar: FP,
    scale_lora: FL,
    scale_dense: FD,
    lora: Seq<FSlotSpec>,
    dense: Seq<FSlotSpec>,
    rank: int,
    cand1: Seq<usize>,
    cand2: Seq<usize>,
    epoch: i32,
    r1: ChunkNoise,
    r2: ChunkNoise,
    r: ChunkNoise,
    si: int,
)
    requires
        is_fixed(polar),
        scale_is_fixed(scale_lora),
        scale_is_fixed(scale_dense),
        chunk_drawn(polar, scale_lora, scale_dense, lora, dense, rank, cand1, epoch, r1),
        chunk_drawn(polar, scale_lora, scale_dense, lora, dense, rank, cand2, epoch, r2),
        chunk_drawn(polar, scale_lora, scale_dense, lora, dense, rank, cand1 + cand2, epoch, r),
    ensures
        0 <= si < lora.len() ==> r.lora@[si]@ == r1.lora@[si]@ + r2.lora@[si]@,
        0 <= si < dense.len() ==> r.dense@[si]@ == r1.dense@[si]@ + r2.dense@[si]@,
{
    let n = si as usize;
    let cand = cand1 + cand2;
    if 0 <= si < lora.len() {
        let v = r.lora@[si]@;
        let v1 = r1.lora@[si]@;
        let v2 = r2.lora@[si]@;
        weight_noise_joins(polar, scale_lora, lora[si], n, rank, cand1, cand2, epoch, v1, v2);
        weight_noise_is_fixed(polar, scale_lora, lora[si], n, rank, cand, epoch, v, v1 + v2);
    }
    if 0 <= si < dense.len() {
        let v = r.dense@[si]@;
        let v1 = r1.dense@[si]@;
        let v2 = r2.dense@[si]@;
        bias_noise_joins(polar, scale_dense, dense[si], n, cand1, cand2, epoch, v1, v2);
        bias_noise_is_fixed(polar, scale_dense, dense[si], n, cand, epoch, v, v1 + v2);
    }
}

/// Whether `w` holds the numbers of a stream from place `at` on, scaled for a layer with so many
/// inputs.
pub open spec fn layer_drawn<FS: Fn(usize, u32) -> u32>(
    scale: FS,
    raw: Seq<u32>,
    at: int,
    rows: usize,
    cols: usize,
    w: Seq<u32>,
) -> bool {
    w.len() == rows * cols && forall|k: int|
        0 <= k < w.len() ==> scale.ensures((cols, raw[at + k]), #[trigger] w[k])
}

/// Places in the stream at which the second and the third matrix start, and its length.
pub open spec fn fc_places() -> (int, int, int) {
    (
        FC_HIDE * FC_IN,
        FC_HIDE * FC_IN + FC_HIDE * FC_HIDE,
        FC_HIDE * FC_IN + FC_HIDE * FC_HIDE + FC_OUT * FC_HIDE,
    )
}

/// Scales numbers of a stream for one layer.
fn scale_layer<FS: Fn(usize, u32) -> u32>(
    raw: &Vec<u32>,
    at: usize,
    rows: usize,
    cols: usize,
    scale: &FS,
) -> (w: Vec<u32>)
    requires
        at + rows * cols <= raw@.len(),
        raw@.len() <= usize::MAX,
        forall|c: usize, x: u32| scale.requires((c, x)),
    ensures
        layer_drawn(*scale, raw@, at as int, rows, cols, w@),
{
    let n: usize = rows * cols;
    let mut w: Vec<u32> = Vec::new();
    let mut k: usize = 0;
    while k < n
        invariant
            k <= n,
            at + n <= raw@.len() <= usize::MAX,
            forall|c: usize, x: u32| scale.requires((c, x)),
            w@.len() == k,
            forall|i: int| 0 <= i < k ==> scale.ensures((cols, raw@[at + i]), #[trigger] w@[i]),
        decreases n - k,
    {
        w.push(scale(cols, raw[at + k]));
        k += 1;
    }
    w
}

/// A bias without anything in it.
fn zeros(n: usize) -> (r: Vec<u32>)
    ensures
        r@ == Seq::new(n as nat, |k: int| 0u32),
{
    let mut r: Vec<u32> = Vec::new();
    let mut k: usize = 0;
    while k < n
        invariant
            k <= n,
            r@ == Seq::new(k as nat, |k: int| 0u32),
        decreases n - k,
    {
        r.push(0);
        k += 1;
    }
    r
}

/// A fully connected network whose matrices hold the normals of one stream, row by row and one
/// matrix after the other, scaled by the number of inputs. Its biases are zero.
pub fn gen_fc_base<FP: Fn(u32, u32) -> (u32, u32), FS: Fn(usize, u32) -> u32>(
    seed: u64,
    polar: &FP,
    scale: &FS,
) -> (r: FcBase<Vec<u32>, Vec<u32>>)
    requires
        forall|u1: u32, u2: u32| polar.requires((u1, u2)),
        forall|c: usize, x: u32| scale.requires((c, x)),
    ensures
        exists|raw: Seq<u32>|
            {
                &&& #[trigger] is_drawn(*polar, seed, raw)
                &&& raw.len() == fc_places().2
                &&& layer_drawn(*scale, raw, 0, FC_HIDE, FC_IN, r.w1@)
                &&& layer_drawn(*scale, raw, fc_places().0, FC_HIDE, FC_HIDE, r.w2@)
                &&& layer_drawn(*scale, raw, fc_places().1, FC_OUT, FC_HIDE, r.w3@)
            },
        r.b1@ == Seq::new(FC_HIDE as nat, |k: int| 0u32),
        r.b2@ == Seq::new(FC_HIDE as nat, |k: int| 0u32),
        r.b3@ == Seq::new(FC_OUT as nat, |k: int| 0u32),
{
    let second: usize = FC_HIDE * FC_IN;
    let third: usize = second + FC_HIDE * FC_HIDE;
    let all: usize = third + FC_OUT * FC_HIDE;
    let raw = normals(seed, all, polar);
    let r = FcBase {
        w1: scale_layer(&raw, 0, FC_HIDE, FC_IN, scale),
        b1: zeros(FC_HIDE),
        w2: scale_layer(&raw, second, FC_HIDE, FC_HIDE, scale),
        b2: zeros(FC_HIDE),
        w3: scale_layer(&raw, third, FC_OUT, FC_HIDE, scale),
        b3: zeros(FC_OUT),
    };
    assert(is_drawn(*polar, seed, raw@));
    r
}

/// The numbers of a seed come two by two: numbers `2 p` and `2 p + 1` are what the transform makes
/// of the uniform draws with the same places, the first of them for the radius.
pub proof fn normals_come_in_pairs<F: Fn(u32, u32) -> (u32, u32)>(
    polar: F,
    seed: u64,
    v: Seq<u32>,
    p: int,
)
    requires
        // what `normals` says of its result
        is_drawn(polar, seed, v),
        0 <= p,
        2 * p + 1 < v.len(),
    ensures
        polar.ensures(
            (unit_at(seed | 1, 2 * p), unit_at(seed | 1, 2 * p + 1)),
            (v[2 * p], v[2 * p + 1]),
        ),
{
    let pairs = choose|q: Seq<(u32, u32)>|
        #[trigger] pairs_drawn(polar, seed, q) && q.len() == (v.len() + 1) / 2 && forall|i: int|
            0 <= i < v.len() ==> #[trigger] v[i] == pair_item(q, i);
    assert(polar.ensures((unit_at(seed | 1, 2 * p), unit_at(seed | 1, 2 * p + 1)), pairs[p]));
    assert(v[2 * p] == pair_item(pairs, 2 * p));
    assert(v[2 * p + 1] == pair_item(pairs, 2 * p + 1));
}

/// A stream goes on where it stands: its state after some steps is the start of the rest.
pub proof fn streams_go_on(s: u64, m: int, n: int)
    requires
        0 <= m,
        0 <= n,
    ensures
        state_at(s, m + n) == state_at(state_at(s, m), n),
        unit_at(s, m + n) == unit_at(state_at(s, m), n),
        state_at(s, 0) == s,
        state_at(s, m + 1) == noise::xorshift(state_at(s, m)),
    decreases n,
{
    if n > 0 {
        streams_go_on(s, m, n - 1);
    }
    state_goes_on(s, m, n + 1);
}

proof fn state_goes_on(s: u64, m: int, n: int)
    requires
        0 <= m,
        0 <= n,
    ensures
        state_at(s, m + n) == state_at(state_at(s, m), n),
    decreases n,
{
    if n > 0 {
        state_goes_on(s, m, n - 1);
    }
}

/// The numbers of a candidate on a weight slot: as many as the slot has columns, times the rank,
/// are shared by a pair, and as many as it has rows, times the rank, are its own.
pub proof fn row_sizes_in_full(slot: FSlotSpec, rank: int, a: usize, b: usize)
    requires
        slot.shape == OrigShape::W2([a, b]),
    ensures
        row_sizes(slot, rank).0 == b * rank,
        row_sizes(slot, rank).1 - row_sizes(slot, rank).0 == a * rank,
{
    let d = [a, b];
    assert(d[0] == a && d[1] == b);
    assert((a + b) * rank - b * rank == a * rank) by (nonlinear_arith);
}

/// The weights of a fully connected network take one stream from its start, layer by layer without
/// a gap: 128 rows of 3072, 128 of 128 and 10 of 128, each scaled by the length of its rows.
pub proof fn fc_weights_in_full<FS: Fn(usize, u32) -> u32>(
    scale: FS,
    raw: Seq<u32>,
    w1: Seq<u32>,
    w2: Seq<u32>,
    w3: Seq<u32>,
    k: int,
)
    requires
        // what `gen_fc_base` says of its result
        layer_drawn(scale, raw, 0, FC_HIDE, FC_IN, w1),
        layer_drawn(scale, raw, fc_places().0, FC_HIDE, FC_HIDE, w2),
        layer_drawn(scale, raw, fc_places().1, FC_OUT, FC_HIDE, w3),
    ensures
        w1.len() == 128 * 3072,
        w2.len() == 128 * 128,
        w3.len() == 10 * 128,
        0 <= k < w1.len() ==> scale.ensures((3072, raw[k]), w1[k]),
        0 <= k < w2.len() ==> scale.ensures((128, raw[w1.len() + k]), w2[k]),
        0 <= k < w3.len() ==> scale.ensures((128, raw[w1.len() + w2.len() + k]), w3[k]),
        fc_places().2 == w1.len() + w2.len() + w3.len(),
{
    if 0 <= k < w1.len() {
        assert(scale.ensures((FC_IN, raw[0 + k]), w1[k]));
    }
    if 0 <= k < w2.len() {
        assert(scale.ensures((FC_HIDE, raw[fc_places().0 + k]), w2[k]));
    }
    if 0 <= k < w3.len() {
        assert(scale.ensures((FC_HIDE, raw[fc_places().1 + k]), w3[k]));
    }
}

/// The noise of a chunk by candidate: the numbers of candidate `c` on a slot start at `c` times
/// their number, and they are drawn with the seed that the slot's key, the epoch and the number of
/// its pair give. On a dense slot all are scaled with its sign; on a weight slot the first ones are
/// left as they are drawn.
pub proof fn chunk_noise_by_candidate<
    FP: Fn(u32, u32) -> (u32, u32),
    FL: Fn(usize, bool, u32) -> u32,
    FD: Fn(usize, bool, u32) -> u32,
>(
    polar: FP,
    scale_lora: FL,
    scale_dense: FD,
    lora: Seq<FSlotSpec>,
    dense: Seq<FSlotSpec>,
    rank: int,
    cand: Seq<usize>,
    epoch: i32,
    r: ChunkNoise,
    si: int,
    c: int,
    k: int,
)
    requires
        // what `gen_chunk_flat` says of its result
        chunk_drawn(polar, scale_lora, scale_dense, lora, dense, rank, cand, epoch, r),
        0 <= c < cand.len(),
    ensures
        0 <= si < dense.len() && 0 <= k < dense[si].shape.numel() ==> exists|raw: Seq<u32>|
            #[trigger] is_drawn(
                polar,
                noise::seed_of(dense[si].key, epoch, (cand[c] as int / 2) as i32),
                raw,
            ) && raw.len() == dense[si].shape.numel() && scale_dense.ensures(
                (si as usize, cand[c] % 2 == 1, raw[k]),
                r.dense@[si]@[c * dense[si].shape.numel() + k],
            ),
        0 <= si < lora.len() && 0 <= k < row_sizes(lora[si], rank).1 ==> exists|raw: Seq<u32>|
            #[trigger] is_drawn(
                polar,
                noise::seed_of(lora[si].key, epoch, (cand[c] as int / 2) as i32),
                raw,
            ) && raw.len() == row_sizes(lora[si], rank).1 && if k < lora[si].shape.cols() * rank {
                r.lora@[si]@[c * row_sizes(lora[si], rank).1 + k] == raw[k]
            } else {
                scale_lora.ensures(
                    (si as usize, cand[c] % 2 == 1, raw[k]),
                    r.lora@[si]@[c * row_sizes(lora[si], rank).1 + k],
                )
            },
{
    if 0 <= si < lora.len() && 0 <= k < row_sizes(lora[si], rank).1 {
        let v = r.lora@[si]@;
        let slot = lora[si];
        let n = row_sizes(slot, rank).1;
        let shared = row_sizes(slot, rank).0;
        let rows = choose|rows: Seq<Seq<u32>>|
            #[trigger] weight_rows(polar, scale_lora, slot, si as usize, rank, cand, epoch, rows)
                && v == rows_joined(rows, rows.len() as int);
        assert(rows[c].len() == n);
        row_places(rows, n, rows.len() as int, c, k);
        let seed = noise::seed_of(slot.key, epoch, noise::pair_of(cand[c] as int));
        let neg = noise::is_negative(cand[c] as int);
        assert(weight_row(polar, scale_lora, seed, si as usize, neg, shared, rows[c]));
        let raw = choose|raw: Seq<u32>|
            #[trigger] is_drawn(polar, seed, raw) && raw.len() == rows[c].len() && forall|i: int|
                0 <= i < rows[c].len() ==> if i < shared {
                    #[trigger] rows[c][i] == raw[i]
                } else {
                    scale_lora.ensures((si as usize, neg, raw[i]), rows[c][i])
                };
        assert(if k < shared {
            rows[c][k] == raw[k]
        } else {
            scale_lora.ensures((si as usize, neg, raw[k]), rows[c][k])
        });
    }
    if 0 <= si < dense.len() && 0 <= k < dense[si].shape.numel() {
        let v = r.dense@[si]@;
        let n = dense[si].shape.numel();
        let slot = dense[si];
        let rows = choose|rows: Seq<Seq<u32>>|
            #[trigger] bias_rows(polar, scale_dense, slot, si as usize, cand, epoch, rows) && v
                == rows_joined(rows, rows.len() as int);
        assert(rows[c].len() == n);
        row_places(rows, n, rows.len() as int, c, k);
        let seed = noise::seed_of(slot.key, epoch, noise::pair_of(cand[c] as int));
        let neg = noise::is_negative(cand[c] as int);
        assert(weight_row(polar, scale_dense, seed, si as usize, neg, 0, rows[c]));
        let raw = choose|raw: Seq<u32>|
            #[trigger] is_drawn(polar, seed, raw) && raw.len() == rows[c].len() && forall|i: int|
                0 <= i < rows[c].len() ==> if i < 0 {
                    #[trigger] rows[c][i] == raw[i]
                } else {
                    scale_dense.ensures((si as usize, neg, raw[i]), rows[c][i])
                };
        assert(scale_dense.ensures((si as usize, neg, raw[k]), rows[c][k]));
    }
}

/// The number by which weight slots are grouped is the number of normals that a candidate draws.
pub proof fn groups_go_by_the_numbers_drawn(slot: FSlotSpec, rank: int)
    ensures
        factored::lora_count(slot, rank) == row_sizes(slot, rank).1,
{
}

} // verus!
