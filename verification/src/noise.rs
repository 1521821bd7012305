//! Seeded noise: stream seeds, the generator behind a stream, antisymmetric pairs.
//!
//! Candidates `2k` and `2k + 1` form a pair: one stream, opposite signs.

use crate::factored::FSlotSpec;
use crate::slots;
use vstd::prelude::*;

verus! {

/// One step of the generator.
pub open spec fn xorshift(x: u64) -> u64 {
    let a = x ^ (x << 13u64);
    let b = a ^ (a >> 7u64);
    b ^ (b << 17u64)
}

/// A stream of standard normals, drawn two at a time.
///
/// The generator lives here; turning two uniform draws into two normals is floating point and is
/// given by a function. Normals are held by their bits.
pub struct DeterministicNoise {
    state: u64,
    pending: Option<u32>,
}

/// What to do for the next normal.
#[derive(Clone, Copy, Debug, PartialEq, Eq, Structural)]
pub enum NormalStep {
    /// It was drawn before: these are its bits.
    Cached(u32),
    /// Make two of two uniform draws, each a number of 24 bits over `2^24`.
    Fresh { u1: u32, u2: u32 },
}

impl DeterministicNoise {
    /// State of the generator.
    pub closed spec fn state(self) -> u64 {
        self.state
    }

    /// Bits of the normal that is left over, if any.
    pub closed spec fn pending(self) -> Option<u32> {
        self.pending
    }

    /// A generator whose state is not zero never gets stuck.
    pub open spec fn live(self) -> bool {
        self.state() != 0
    }

    /// The stream of a seed. The lowest bit is set, so that no seed gives a dead generator.
    pub fn new(seed: u64) -> (r: DeterministicNoise)
        ensures
            r.state() == seed | 1,
            r.pending() is None,
            r.live(),
    {
        assert(seed | 1 != 0) by (bit_vector);
        DeterministicNoise { state: seed | 1, pending: None }
    }

    /// The next 64 bits.
    pub fn next_u64(&mut self) -> (x: u64)
        ensures
            x == xorshift(old(self).state()),
            final(self).state() == x,
            final(self).pending() == old(self).pending(),
            old(self).live() ==> final(self).live(),
    {
        let mut x: u64 = self.state;
        proof {
            if x != 0 {
                xorshift_nonzero(x);
            }
        }
        x = x ^ (x << 13u64);
        x = x ^ (x >> 7u64);
        x = x ^ (x << 17u64);
        self.state = x;
        x
    }

    /// The next uniform draw: the upper 24 bits of the next 64, to be divided by `2^24`.
    pub fn next_unit(&mut self) -> (u: u32)
        ensures
            u == xorshift(old(self).state()) >> 40u64,
            u < 0x100_0000,
            final(self).state() == xorshift(old(self).state()),
            final(self).pending() == old(self).pending(),
            old(self).live() ==> final(self).live(),
    {
        let x: u64 = self.next_u64();
        assert(x >> 40u64 < 0x100_0000) by (bit_vector);
        (x >> 40u64) as u32
    }

    /// Starts the next normal: the one that was kept, or else two uniform draws, the first
    /// for the radius and the second for the angle.
    pub fn begin_normal(&mut self) -> (step: NormalStep)
        ensures
            match old(self).pending() {
                Some(bits) => {
                    &&& step == NormalStep::Cached(bits)
                    &&& final(self).state() == old(self).state()
                },
                None => {
                    let s1 = xorshift(old(self).state());
                    let s2 = xorshift(s1);
                    &&& step == (NormalStep::Fresh {
                        u1: (s1 >> 40u64) as u32,
                        u2: (s2 >> 40u64) as u32,
                    })
                    &&& final(self).state() == s2
                },
            },
            final(self).pending() is None,
            old(self).live() ==> final(self).live(),
    {
        match self.pending {
            Some(bits) => {
                self.pending = None;
                NormalStep::Cached(bits)
            },
            None => {
                let u1: u32 = self.next_unit();
                let u2: u32 = self.next_unit();
                NormalStep::Fresh { u1, u2 }
            },
        }
    }

    /// Keeps the second normal of a pair for the next draw.
    pub fn keep(&mut self, bits: u32)
        ensures
            final(self).pending() == Some(bits),
            final(self).state() == old(self).state(),
    {
        self.pending = Some(bits);
    }
}

impl DeterministicNoise {
    /// The next normal. `polar` makes two normals of two uniform draws; the second is kept for
    /// the next call.
    pub fn standard_normal<F: Fn(u32, u32) -> (u32, u32)>(&mut self, polar: &F) -> (v: u32)
        requires
            forall|u1: u32, u2: u32| polar.requires((u1, u2)),
        ensures
            match old(self).pending() {
                Some(bits) => {
                    &&& v == bits
                    &&& final(self).state() == old(self).state()
                    &&& final(self).pending() is None
                },
                None => {
                    let s1 = xorshift(old(self).state());
                    let s2 = xorshift(s1);
                    &&& final(self).state() == s2
                    &&& final(self).pending() is Some
                    &&& polar.ensures(
                        ((s1 >> 40u64) as u32, (s2 >> 40u64) as u32),
                        (v, final(self).pending()->0),
                    )
                },
            },
            old(self).live() ==> final(self).live(),
    {
        match self.begin_normal() {
            NormalStep::Cached(bits) => bits,
            NormalStep::Fresh { u1, u2 } => {
                let pair = polar(u1, u2);
                self.keep(pair.1);
                pair.0
            },
        }
    }
}

/// A live generator stays live.
pub proof fn xorshift_nonzero(x: u64)
    requires
        x != 0,
    ensures
        xorshift(x) != 0,
{
    let a = x ^ (x << 13u64);
    assert(a != 0) by (bit_vector)
        requires
            x != 0,
            a == x ^ (x << 13u64),
    ;
    let b = a ^ (a >> 7u64);
    assert(b != 0) by (bit_vector)
        requires
            a != 0,
            b == a ^ (a >> 7u64),
    ;
    assert(b ^ (b << 17u64) != 0) by (bit_vector)
        requires
            b != 0,
    ;
}

/// Two different states never run into each other.
pub proof fn xorshift_injective(x: u64, y: u64)
    requires
        xorshift(x) == xorshift(y),
    ensures
        x == y,
{
    let a = x ^ (x << 13u64);
    let c = y ^ (y << 13u64);
    let b = a ^ (a >> 7u64);
    let d = c ^ (c >> 7u64);
    assert(b == d) by (bit_vector)
        requires
            b ^ (b << 17u64) == d ^ (d << 17u64),
    ;
    assert(a == c) by (bit_vector)
        requires
            a ^ (a >> 7u64) == c ^ (c >> 7u64),
    ;
    assert(x == y) by (bit_vector)
        requires
            x ^ (x << 13u64) == y ^ (y << 13u64),
    ;
}

/// First multiplier of the seed mix.
pub const MIX_A: u64 = 0xBF58_476D_1CE4_E5B9;

/// Second multiplier of the seed mix.
pub const MIX_B: u64 = 0x94D0_49BB_1331_11EB;

/// Product modulo `2^64`.
pub open spec fn wmul(x: u64, y: u64) -> u64 {
    vstd::wrapping::u64_specs::wrapping_mul(x, y)
}

/// Rotation to the left by 17 bits.
pub open spec fn rotl17(x: u64) -> u64 {
    (x << 17u64) | (x >> 47u64)
}

/// Seed before the final avalanche.
pub open spec fn seed_entry(key: u64, epoch: i32, thread: i32) -> u64 {
    rotl17(wmul(key ^ slots::KEY_MUL, MIX_A) ^ wmul(epoch as u64, MIX_B)) ^ (thread as u64)
}

/// Final avalanche.
pub open spec fn seed_finish(h: u64) -> u64 {
    let a = wmul(h ^ (h >> 33u64), MIX_A);
    let b = wmul(a ^ (a >> 29u64), MIX_B);
    b ^ (b >> 32u64)
}

/// Seed of the stream of a slot key in an epoch for a pair.
pub open spec fn seed_of(key: u64, epoch: i32, thread: i32) -> u64 {
    seed_finish(seed_entry(key, epoch, thread))
}

/// Seed of the stream of a slot key in an epoch for a pair.
pub fn noise_seed(key: u64, true_epoch: i32, true_thread: i32) -> (h: u64)
    ensures
        h == seed_of(key, true_epoch, true_thread),
{
    let mut h: u64 = key ^ slots::KEY_MUL;
    h = h.wrapping_mul(MIX_A);
    h = h ^ (true_epoch as u64).wrapping_mul(MIX_B);
    h = ((h << 17u64) | (h >> 47u64)) ^ (true_thread as u64);
    h = h ^ (h >> 33u64);
    h = h.wrapping_mul(MIX_A);
    h = h ^ (h >> 29u64);
    h = h.wrapping_mul(MIX_B);
    h = h ^ (h >> 32u64);
    h
}

/// Multiplication by a number with an inverse modulo `2^64` forgets nothing.
proof fn wmul_injective(x: u64, y: u64, k: u64, inv: u64)
    requires
        (k * inv) % 0x1_0000_0000_0000_0000 == 1,
        wmul(x, k) == wmul(y, k),
    ensures
        x == y,
{
    let m: int = 0x1_0000_0000_0000_0000;
    let q = (k * inv) / m;
    let d = x * k - y * k;
    vstd::arithmetic::div_mod::lemma_mod_equivalence(x * k, y * k, m);
    let t = d / m;
    vstd::arithmetic::div_mod::lemma_fundamental_div_mod(d, m);
    vstd::arithmetic::div_mod::lemma_fundamental_div_mod(k * inv, m);
    assert((x - y) * (k * inv) == (x - y) + (x - y) * q * m) by (nonlinear_arith)
        requires
            k * inv == m * q + 1,
    ;
    assert((x - y) * (k * inv) == t * inv * m) by (nonlinear_arith)
        requires
            x * k - y * k == m * t,
    ;
    let z = t * inv - (x - y) * q;
    assert(x - y == z * m) by (nonlinear_arith)
        requires
            (x - y) + (x - y) * q * m == t * inv * m,
            z == t * inv - (x - y) * q,
    ;
    assert(z == 0) by (nonlinear_arith)
        requires
            x - y == z * m,
            -m < x - y < m,
            m > 0,
    ;
}

/// The avalanche forgets nothing.
proof fn seed_finish_injective(x: u64, y: u64)
    requires
        seed_finish(x) == seed_finish(y),
    ensures
        x == y,
{
    let a1 = wmul(x ^ (x >> 33u64), MIX_A);
    let a2 = wmul(y ^ (y >> 33u64), MIX_A);
    let b1 = wmul(a1 ^ (a1 >> 29u64), MIX_B);
    let b2 = wmul(a2 ^ (a2 >> 29u64), MIX_B);
    assert(b1 == b2) by (bit_vector)
        requires
            b1 ^ (b1 >> 32u64) == b2 ^ (b2 >> 32u64),
    ;
    assert((MIX_B * 0x3196_42B2_D24D_8EC3u64) % 0x1_0000_0000_0000_0000 == 1);
    wmul_injective(a1 ^ (a1 >> 29u64), a2 ^ (a2 >> 29u64), MIX_B, 0x3196_42B2_D24D_8EC3u64);
    assert(a1 == a2) by (bit_vector)
        requires
            a1 ^ (a1 >> 29u64) == a2 ^ (a2 >> 29u64),
    ;
    assert((MIX_A * 0x96DE_1B17_3F11_9089u64) % 0x1_0000_0000_0000_0000 == 1);
    wmul_injective(x ^ (x >> 33u64), y ^ (y >> 33u64), MIX_A, 0x96DE_1B17_3F11_9089u64);
    assert(x == y) by (bit_vector)
        requires
            x ^ (x >> 33u64) == y ^ (y >> 33u64),
    ;
}

/// Two slots with different keys, two epochs, or two pairs of candidates never share a seed
/// while the other two arguments stay the same.
pub proof fn seeds_distinct(key: u64, key2: u64, epoch: i32, epoch2: i32, thread: i32, thread2: i32)
    ensures
        key != key2 ==> seed_of(key, epoch, thread) != seed_of(key2, epoch, thread),
        epoch != epoch2 ==> seed_of(key, epoch, thread) != seed_of(key, epoch2, thread),
        thread != thread2 ==> seed_of(key, epoch, thread) != seed_of(key, epoch, thread2),
{
    if seed_of(key, epoch, thread) == seed_of(key2, epoch, thread) {
        seed_finish_injective(seed_entry(key, epoch, thread), seed_entry(key2, epoch, thread));
        seed_entry_unrotate(key, epoch, thread, key2, epoch, thread);
        let e = wmul(epoch as u64, MIX_B);
        let p = wmul(key ^ slots::KEY_MUL, MIX_A);
        let q = wmul(key2 ^ slots::KEY_MUL, MIX_A);
        assert(p == q) by (bit_vector)
            requires
                p ^ e == q ^ e,
        ;
        assert((MIX_A * 0x96DE_1B17_3F11_9089u64) % 0x1_0000_0000_0000_0000 == 1);
        wmul_injective(key ^ slots::KEY_MUL, key2 ^ slots::KEY_MUL, MIX_A, 0x96DE_1B17_3F11_9089u64);
        let c = slots::KEY_MUL;
        assert(key == key2) by (bit_vector)
            requires
                key ^ c == key2 ^ c,
        ;
    }
    if seed_of(key, epoch, thread) == seed_of(key, epoch2, thread) {
        seed_finish_injective(seed_entry(key, epoch, thread), seed_entry(key, epoch2, thread));
        seed_entry_unrotate(key, epoch, thread, key, epoch2, thread);
        let p = wmul(key ^ slots::KEY_MUL, MIX_A);
        let e = wmul(epoch as u64, MIX_B);
        let f = wmul(epoch2 as u64, MIX_B);
        assert(e == f) by (bit_vector)
            requires
                p ^ e == p ^ f,
        ;
        assert((MIX_B * 0x3196_42B2_D24D_8EC3u64) % 0x1_0000_0000_0000_0000 == 1);
        wmul_injective(epoch as u64, epoch2 as u64, MIX_B, 0x3196_42B2_D24D_8EC3u64);
        assert(epoch == epoch2) by (bit_vector)
            requires
                epoch as u64 == epoch2 as u64,
        ;
    }
    if seed_of(key, epoch, thread) == seed_of(key, epoch, thread2) {
        seed_finish_injective(seed_entry(key, epoch, thread), seed_entry(key, epoch, thread2));
        let r = rotl17(wmul(key ^ slots::KEY_MUL, MIX_A) ^ wmul(epoch as u64, MIX_B));
        assert(thread == thread2) by (bit_vector)
            requires
                r ^ (thread as u64) == r ^ (thread2 as u64),
        ;
    }
}

/// Equal entries for one pair have equal values before the rotation.
proof fn seed_entry_unrotate(k1: u64, e1: i32, t: i32, k2: u64, e2: i32, t2: i32)
    requires
        t == t2,
        seed_entry(k1, e1, t) == seed_entry(k2, e2, t2),
    ensures
        wmul(k1 ^ slots::KEY_MUL, MIX_A) ^ wmul(e1 as u64, MIX_B) == wmul(
            k2 ^ slots::KEY_MUL,
            MIX_A,
        ) ^ wmul(e2 as u64, MIX_B),
{
    let p = wmul(k1 ^ slots::KEY_MUL, MIX_A) ^ wmul(e1 as u64, MIX_B);
    let q = wmul(k2 ^ slots::KEY_MUL, MIX_A) ^ wmul(e2 as u64, MIX_B);
    let th = t as u64;
    assert(p == q) by (bit_vector)
        requires
            ((p << 17u64) | (p >> 47u64)) ^ th == ((q << 17u64) | (q >> 47u64)) ^ th,
    ;
}

/// Pair that a candidate belongs to.
pub open spec fn pair_of(g: int) -> i32 {
    (g / 2) as i32
}

/// Whether a candidate takes the noise of its pair with the sign turned.
pub open spec fn is_negative(g: int) -> bool {
    g % 2 == 1
}

/// Pair of a candidate.
pub fn candidate_pair(g: usize) -> (p: i32)
    ensures
        p == pair_of(g as int),
{
    (g / 2) as i32
}

/// Whether a candidate takes the noise of its pair with the sign turned.
pub fn candidate_negative(g: usize) -> (b: bool)
    ensures
        b == is_negative(g as int),
{
    g % 2 == 1
}

/// Candidates `2k` and `2k + 1` draw from one stream in every slot and every epoch, with
/// opposite signs: their perturbations cancel.
pub proof fn pairs_are_antisymmetric(k: int, key: u64, epoch: i32)
    requires
        0 <= k,
    ensures
        seed_of(key, epoch, pair_of(2 * k)) == seed_of(key, epoch, pair_of(2 * k + 1)),
        !is_negative(2 * k),
        is_negative(2 * k + 1),
{
}

/// Seed of 32 bits for device streams.
pub open spec fn fold_seed_of(s: u64) -> i32 {
    ((s ^ (s >> 32u64)) as u32) as i32
}

/// Seed of 32 bits for device streams: both halves of the seed of 64 bits, combined.
pub fn fold_seed(s: u64) -> (r: i32)
    ensures
        r == fold_seed_of(s),
{
    ((s ^ (s >> 32u64)) as u32) as i32
}

/// Device seeds of a group of slots: for each slot of the group, one for each candidate.
pub open spec fn group_seed_at(
    slots: Seq<FSlotSpec>,
    group: Seq<usize>,
    cand: Seq<usize>,
    epoch: i32,
    i: int,
) -> i32 {
    let s = slots[group[i / cand.len() as int] as int];
    fold_seed_of(seed_of(s.key, epoch, pair_of(cand[i % cand.len() as int] as int)))
}

/// Device seeds of a group of slots: for each slot of the group, one for each candidate.
pub fn group_seeds(slots: &[FSlotSpec], group: &[usize], cand: &[usize], epoch: i32) -> (r: Vec<
    i32,
>)
    requires
        forall|k: int| 0 <= k < group@.len() ==> #[trigger] group@[k] < slots@.len(),
        group@.len() * cand@.len() <= usize::MAX,
    ensures
        r@.len() == group@.len() * cand@.len(),
        forall|i: int|
            0 <= i < r@.len() ==> #[trigger] r@[i] == group_seed_at(
                slots@,
                group@,
                cand@,
                epoch,
                i,
            ),
{
    let mut r: Vec<i32> = Vec::new();
    let mut k: usize = 0;
    let c: usize = cand.len();
    while k < group.len()
        invariant
            k <= group@.len(),
            c == cand@.len(),
            forall|k: int| 0 <= k < group@.len() ==> #[trigger] group@[k] < slots@.len(),
            r@.len() == k * c,
            forall|i: int|
                0 <= i < r@.len() ==> #[trigger] r@[i] == group_seed_at(
                    slots@,
                    group@,
                    cand@,
                    epoch,
                    i,
                ),
        decreases group@.len() - k,
    {
        let key: u64 = slots[group[k]].key;
        let mut j: usize = 0;
        while j < c
            invariant
                j <= c == cand@.len(),
                k < group@.len(),
                group@[k as int] < slots@.len(),
                key == slots@[group@[k as int] as int].key,
                r@.len() == k * c + j,
                forall|i: int|
                    0 <= i < r@.len() ==> #[trigger] r@[i] == group_seed_at(
                        slots@,
                        group@,
                        cand@,
                        epoch,
                        i,
                    ),
            decreases c - j,
        {
            proof {
                let i = k * c + j;
                vstd::arithmetic::div_mod::lemma_fundamental_div_mod_converse(
                    i,
                    c as int,
                    k as int,
                    j as int,
                );
            }
            r.push(fold_seed(noise_seed(key, epoch, candidate_pair(cand[j]))));
            j += 1;
        }
        assert((k + 1) * c == k * c + c) by (nonlinear_arith);
        k += 1;
    }
    r
}

/// The parts of `c` items for `n` workers: each but the last ones has the same size.
pub open spec fn part_bounds(c: int, n: int, t: int) -> (int, int) {
    let per = (c + n - 1) / n;
    let lo = if t * per < c {
        t * per
    } else {
        c
    };
    let hi = if (t + 1) * per < c {
        (t + 1) * per
    } else {
        c
    };
    (lo, hi)
}

/// Splits `c` items among `n` workers, in order.
pub fn worker_parts(c: usize, n: usize) -> (parts: Vec<(usize, usize)>)
    requires
        n > 0,
    ensures
        parts@.len() == n,
        forall|t: int|
            0 <= t < n ==> (
            (#[trigger] parts@[t]).0 as int, parts@[t].1 as int) == part_bounds(c as int, n as int, t),
{
    proof {
        per_is_ceiling(c as int, n as int);
        vstd::arithmetic::div_mod::lemma_fundamental_div_mod(c as int, n as int);
        assert(c % n != 0 ==> c / n < c) by (nonlinear_arith)
            requires
                n > 0,
                c == n * (c / n) + c % n,
                0 <= c % n < n,
        ;
    }
    let per: usize = if c % n == 0 {
        c / n
    } else {
        c / n + 1
    };
    let mut parts: Vec<(usize, usize)> = Vec::new();
    let mut lo: usize = 0;
    let mut t: usize = 0;
    while t < n
        invariant
            t <= n,
            0 < n,
            per == (c + n - 1) / n as int,
            parts@.len() == t,
            lo == part_bounds(c as int, n as int, t as int).0,
            forall|k: int|
                0 <= k < t ==> ((#[trigger] parts@[k]).0 as int, parts@[k].1 as int) == part_bounds(
                    c as int,
                    n as int,
                    k,
                ),
        decreases n - t,
    {
        let hi: usize = if c - lo > per {
            lo + per
        } else {
            c
        };
        assert((t + 1) * per == t * per + per) by (nonlinear_arith);
        assert(t * per >= 0) by (nonlinear_arith);
        parts.push((lo, hi));
        lo = hi;
        t += 1;
    }
    parts
}

proof fn per_is_ceiling(c: int, n: int)
    requires
        c >= 0,
        n > 0,
    ensures
        (c + n - 1) / n == if c % n == 0 {
            c / n
        } else {
            c / n + 1
        },
{
    let q = c / n;
    let r = c % n;
    vstd::arithmetic::div_mod::lemma_fundamental_div_mod(c, n);
    if r == 0 {
        vstd::arithmetic::div_mod::lemma_fundamental_div_mod_converse(c + n - 1, n, q, n - 1);
    } else {
        assert(c + n - 1 == (q + 1) * n + (r - 1)) by (nonlinear_arith)
            requires
                c == n * q + r,
        ;
        vstd::arithmetic::div_mod::lemma_fundamental_div_mod_converse(c + n - 1, n, q + 1, r - 1);
    }
}

/// The parts of all workers lie end to end and cover every item: no candidate is drawn twice
/// and none is left out.
pub proof fn worker_parts_cover(c: int, n: int, t: int)
    requires
        c >= 0,
        0 < n,
        0 <= t < n,
    ensures
        part_bounds(c, n, 0).0 == 0,
        part_bounds(c, n, n - 1).1 == c,
        part_bounds(c, n, t).0 <= part_bounds(c, n, t).1,
        t + 1 < n ==> part_bounds(c, n, t).1 == part_bounds(c, n, t + 1).0,
{
    let per = (c + n - 1) / n;
    vstd::arithmetic::div_mod::lemma_fundamental_div_mod(c + n - 1, n);
    assert(per >= 0) by (nonlinear_arith)
        requires
            per == (c + n - 1) / n,
            c + n - 1 >= 0,
            n > 0,
    ;
    assert(n * per >= c);
    assert((n - 1 + 1) * per == n * per);
    assert((t + 1) * per == t * per + per) by (nonlinear_arith);
    assert(0 * per == 0);
}

/// Whether `d` is the noise of a candidate on a slot: made from the seed of the candidate's pair,
/// with the sign of the candidate. The noise does not change from epoch to epoch.
pub open spec fn delta_made<D, F: Fn(usize, u64, bool) -> D>(
    make: F,
    keys: Seq<u64>,
    c: int,
    si: int,
    d: D,
) -> bool {
    make.ensures((si as usize, seed_of(keys[si], 0, pair_of(c)), is_negative(c)), d)
}

/// Whether these are the noises of a candidate on all slots.
pub open spec fn deltas_made<D, F: Fn(usize, u64, bool) -> D>(
    make: F,
    keys: Seq<u64>,
    c: int,
    ds: Seq<D>,
) -> bool {
    &&& ds.len() == keys.len()
    &&& forall|si: int| 0 <= si < keys.len() ==> delta_made(make, keys, c, si, #[trigger] ds[si])
}

/// The noise of one candidate on all slots.
fn candidate_deltas<D, F: Fn(usize, u64, bool) -> D>(
    keys: &Vec<u64>,
    c: usize,
    make: &F,
) -> (r: Vec<D>)
    requires
        forall|si: usize, seed: u64, negative: bool|
            si < keys@.len() ==> make.requires((si, seed, negative)),
    ensures
        deltas_made(*make, keys@, c as int, r@),
{
    let pair: i32 = candidate_pair(c);
    let negative = candidate_negative(c);
    let mut r: Vec<D> = Vec::new();
    let mut si: usize = 0;
    while si < keys.len()
        invariant
            si <= keys@.len(),
            pair == pair_of(c as int),
            negative == is_negative(c as int),
            forall|si: usize, seed: u64, negative: bool|
                si < keys@.len() ==> make.requires((si, seed, negative)),
            r@.len() == si,
            forall|k: int| 0 <= k < si ==> delta_made(*make, keys@, c as int, k, #[trigger] r@[k]),
        decreases keys@.len() - si,
    {
        let seed: u64 = noise_seed(keys[si], 0, pair);
        let d: D = make(si, seed, negative);
        assert(delta_made(*make, keys@, c as int, si as int, d));
        r.push(d);
        si += 1;
    }
    r
}

/// The noise of all candidates on all slots. `make` makes the noise of a slot from a seed and a
/// sign.
pub fn build_delta_cache<D, F: Fn(usize, u64, bool) -> D>(
    keys: &Vec<u64>,
    pop: usize,
    make: &F,
) -> (r: Vec<Vec<D>>)
    requires
        forall|si: usize, seed: u64, negative: bool|
            si < keys@.len() ==> make.requires((si, seed, negative)),
    ensures
        r@.len() == pop,
        forall|c: int| 0 <= c < pop ==> deltas_made(*make, keys@, c, (#[trigger] r@[c])@),
{
    let mut r: Vec<Vec<D>> = Vec::new();
    let mut c: usize = 0;
    while c < pop
        invariant
            c <= pop,
            forall|si: usize, seed: u64, negative: bool|
                si < keys@.len() ==> make.requires((si, seed, negative)),
            r@.len() == c,
            forall|k: int| 0 <= k < c ==> deltas_made(*make, keys@, k, (#[trigger] r@[k])@),
        decreases pop - c,
    {
        r.push(candidate_deltas(keys, c, make));
        c += 1;
    }
    r
}

/// Candidates come in pairs: the two of pair `q` are `2 q` and `2 q + 1`, and it is the second
/// that takes the noise with the sign turned.
pub proof fn candidates_come_in_pairs(g: int, h: int)
    requires
        0 <= g <= h <= i32::MAX,
    ensures
        pair_of(g) == pair_of(h) <==> g == h || g + 1 == h && g % 2 == 0,
        pair_of(2 * g) == g || 2 * g > i32::MAX,
        is_negative(g) != is_negative(g + 1),
        !is_negative(0),
{
    assert(g / 2 == h / 2 <==> g == h || g + 1 == h && g % 2 == 0);
}

/// The seeds of a group stand candidate by candidate, one slot of the group after the other.
pub proof fn group_seeds_in_full(
    slots: Seq<FSlotSpec>,
    group: Seq<usize>,
    cand: Seq<usize>,
    epoch: i32,
    a: int,
    b: int,
)
    requires
        0 <= a < group.len(),
        0 <= b < cand.len(),
    ensures
        group_seed_at(slots, group, cand, epoch, a * cand.len() + b) == fold_seed_of(
            seed_of(slots[group[a] as int].key, epoch, (cand[b] as int / 2) as i32),
        ),
{
    vstd::arithmetic::div_mod::lemma_fundamental_div_mod_converse(
        a * cand.len() + b,
        cand.len() as int,
        a,
        b,
    );
}

/// The noise of a cache: the two candidates of a pair make theirs of one seed of each slot, the
/// first as it is and the second with the sign turned.
pub proof fn cached_noise_is_paired<D, F: Fn(usize, u64, bool) -> D>(
    make: F,
    keys: Seq<u64>,
    q: int,
    si: int,
    d: D,
    e: D,
)
    requires
        0 <= 2 * q <= i32::MAX,
        0 <= si < keys.len(),
        // what `build_delta_cache` says of the two candidates
        delta_made(make, keys, 2 * q, si, d),
        delta_made(make, keys, 2 * q + 1, si, e),
    ensures
        make.ensures((si as usize, seed_of(keys[si], 0, q as i32), false), d),
        make.ensures((si as usize, seed_of(keys[si], 0, q as i32), true), e),
{
}

/// No worker has more than its share of the items: the first ones have the same number, and it is
/// the smallest by which all are covered.
pub proof fn worker_parts_are_even(c: int, n: int, t: int)
    requires
        c >= 0,
        0 < n,
        0 <= t < n,
    ensures
        ({
            let per = part_bounds(c, n, 0).1;
            let p = part_bounds(c, n, t);
            &&& p.1 - p.0 <= per
            &&& p.1 < c ==> p.1 - p.0 == per
            &&& per * n >= c
            &&& c > 0 ==> (per - 1) * n < c
        }),
{
    let per = (c + n - 1) / n;
    vstd::arithmetic::div_mod::lemma_fundamental_div_mod(c + n - 1, n);
    vstd::arithmetic::div_mod::lemma_mod_bound(c + n - 1, n);
    assert(per * n == n * per) by (nonlinear_arith);
    assert((per - 1) * n == n * per - n) by (nonlinear_arith);
    assert((t + 1) * per == t * per + per) by (nonlinear_arith);
    assert((0 + 1) * per == per) by (nonlinear_arith);
    assert(per <= c || c == 0) by (nonlinear_arith)
        requires
            n * per <= c + n - 1,
            n > 0,
            c >= 0,
    ;
    assert(per >= 0) by (nonlinear_arith)
        requires
            per == (c + n - 1) / n,
            c + n - 1 >= 0,
            n > 0,
    ;
    assert(t * per >= 0) by (nonlinear_arith)
        requires
            t >= 0,
            per >= 0,
    ;
    if c == 0 {
        assert(per == 0) by (nonlinear_arith)
            requires
                n * per <= n - 1,
                per >= 0,
                n > 0,
        ;
    }
}

} // verus!
