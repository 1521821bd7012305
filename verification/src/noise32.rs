//! Uniform numbers by position: a seed and the position of an element give its bits, so that
//! elements can be made in any order.

use vstd::prelude::*;

verus! {

/// Multiplier that spreads positions.
pub const GOLDEN: u32 = 0x9E37_79B9;

/// First multiplier of the avalanche.
pub const FMIX_A: u32 = 0x21F0_AAAD;

/// Second multiplier of the avalanche.
pub const FMIX_B: u32 = 0x735A_2D97;

/// Product modulo `2^32`.
pub open spec fn wmul32(x: u32, y: u32) -> u32 {
    vstd::wrapping::u32_specs::wrapping_mul(x, y)
}

/// Avalanche of 32 bits.
pub open spec fn fmix32_of(h: u32) -> u32 {
    let a = wmul32(h ^ (h >> 16u32), FMIX_A);
    let b = wmul32(a ^ (a >> 15u32), FMIX_B);
    b ^ (b >> 15u32)
}

/// One step of a linear generator of 32 bits.
pub open spec fn xorshift32_of(x: u32) -> u32 {
    let a = x ^ (x << 13u32);
    let b = a ^ (a >> 17u32);
    b ^ (b << 5u32)
}

/// State of an element: the seed with the mixed position.
pub open spec fn element_state(seed: u32, elem: u32) -> u32 {
    seed ^ fmix32_of(wmul32(elem, GOLDEN))
}

/// The 32 bits of an element.
pub open spec fn element_bits(seed: u32, elem: u32) -> u32 {
    xorshift32_of(xorshift32_of(fmix32_of(element_state(seed, elem))))
}

/// The number of an element, of 24 bits.
pub open spec fn element_unit(seed: u32, elem: u32) -> u32 {
    element_bits(seed, elem) >> 8u32
}

/// Avalanche of 32 bits.
pub fn fmix32(h: u32) -> (r: u32)
    ensures
        r == fmix32_of(h),
{
    let mut z: u32 = h ^ (h >> 16u32);
    z = z.wrapping_mul(FMIX_A);
    z = z ^ (z >> 15u32);
    z = z.wrapping_mul(FMIX_B);
    z ^ (z >> 15u32)
}

/// One step of a linear generator of 32 bits.
pub fn xorshift32(x: u32) -> (r: u32)
    ensures
        r == xorshift32_of(x),
{
    let a: u32 = x ^ (x << 13u32);
    let b: u32 = a ^ (a >> 17u32);
    b ^ (b << 5u32)
}

/// The number of an element: one of `2^24` that stand for the interval from 0 to 1.
pub fn unit24(seed: u32, elem: u32) -> (u: u32)
    ensures
        u == element_unit(seed, elem),
        u < 0x100_0000,
{
    let s: u32 = seed ^ fmix32(elem.wrapping_mul(GOLDEN));
    let z: u32 = xorshift32(xorshift32(fmix32(s)));
    assert(z >> 8u32 < 0x100_0000) by (bit_vector);
    z >> 8u32
}

/// Pairs of uniform numbers that `count` normal numbers are made from: half of `count`, rounded
/// up.
pub open spec fn half_count(count: int) -> int {
    (count + 1) / 2
}

/// The uniform numbers for `count` normal numbers of each seed, seed by seed: the radii first,
/// the angles behind them.
pub fn uniforms(seeds: &[i32], count: usize) -> (r: Vec<u32>)
    requires
        count < u32::MAX,
        seeds@.len() * (2 * half_count(count as int)) <= usize::MAX,
    ensures
        r@.len() == seeds@.len() * (2 * half_count(count as int)),
        forall|k: int, e: int|
            #![trigger uniform_at(r@, count as int, k, e)]
            0 <= k < seeds@.len() && 0 <= e < 2 * half_count(count as int) ==> uniform_at(
                r@,
                count as int,
                k,
                e,
            ) == element_unit(seeds@[k] as u32, e as u32),
{
    let width: usize = (count / 2 + count % 2) * 2;
    assert(width == 2 * half_count(count as int));
    let mut r: Vec<u32> = Vec::new();
    let mut k: usize = 0;
    proof {
        assert(0 * width == 0);
    }
    while k < seeds.len()
        invariant
            count < u32::MAX,
            width == 2 * half_count(count as int),
            k <= seeds@.len(),
            r@.len() == k * width,
            forall|j: int, e: int|
                #![trigger uniform_at(r@, count as int, j, e)]
                0 <= j < k && 0 <= e < width ==> uniform_at(r@, count as int, j, e)
                    == element_unit(seeds@[j] as u32, e as u32),
        decreases seeds@.len() - k,
    {
        let seed: u32 = seeds[k] as u32;
        let ghost before = r@;
        let mut e: usize = 0;
        while e < width
            invariant
                count < u32::MAX,
                width == 2 * half_count(count as int),
                e <= width,
                before.len() == k * width,
                r@.len() == k * width + e,
                forall|i: int| 0 <= i < before.len() ==> #[trigger] r@[i] == before[i],
                forall|i: int|
                    0 <= i < e ==> #[trigger] r@[k * width + i] == element_unit(seed, i as u32),
            decreases width - e,
        {
            r.push(unit24(seed, e as u32));
            e += 1;
        }
        proof {
            assert((k + 1) * width == k * width + width) by (nonlinear_arith);
            assert forall|j: int, e: int|
                #![trigger uniform_at(r@, count as int, j, e)]
                0 <= j < k + 1 && 0 <= e < width implies uniform_at(r@, count as int, j, e)
                == element_unit(seeds@[j] as u32, e as u32) by {
                if j < k {
                    assert(j * width + e < k * width) by (nonlinear_arith)
                        requires
                            j + 1 <= k,
                            0 <= e < width,
                    ;
                    assert(0 <= j * width) by (nonlinear_arith)
                        requires
                            0 <= j,
                            0 <= width,
                    ;
                    assert(uniform_at(before, count as int, j, e) == element_unit(
                        seeds@[j] as u32,
                        e as u32,
                    ));
                }
            }
        }
        k += 1;
    }
    r
}

/// Uniform number `e` of seed `k` in the list.
pub open spec fn uniform_at(r: Seq<u32>, count: int, k: int, e: int) -> u32 {
    r[k * (2 * half_count(count)) + e]
}

/// Multiplication by a number with an inverse modulo `2^32` forgets nothing.
proof fn wmul32_injective(x: u32, y: u32, k: u32, inv: u32)
    requires
        (k * inv) % 0x1_0000_0000 == 1,
        wmul32(x, k) == wmul32(y, k),
    ensures
        x == y,
{
    let m: int = 0x1_0000_0000;
    let q = (k * inv) / m;
    let d = x * k - y * k;
    vstd::arithmetic::div_mod::lemma_mod_equivalence(x * k, y * k, m);
    let t = d / m;
    vstd::arithmetic::div_mod::lemma_fundamental_div_mod(d, m);
    vstd::arithmetic::div_mod::lemma_fundamental_div_mod(k * inv, m);
    assert((x - y) * (k * inv) == (x - y) + (x - y) * q * m) by (nonlinear_arith)
        requires
            k * inv == m * q + 1,
    ;
    assert((x - y) * (k * inv) == t * inv * m) by (nonlinear_arith)
        requires
            x * k - y * k == m * t,
    ;
    let z = t * inv - (x - y) * q;
    assert(x - y == z * m) by (nonlinear_arith)
        requires
            (x - y) + (x - y) * q * m == t * inv * m,
            z == t * inv - (x - y) * q,
    ;
    assert(z == 0) by (nonlinear_arith)
        requires
            x - y == z * m,
            -m < x - y < m,
            m > 0,
    ;
}

/// The avalanche forgets nothing.
pub proof fn fmix32_injective(x: u32, y: u32)
    requires
        fmix32_of(x) == fmix32_of(y),
    ensures
        x == y,
{
    let a1 = wmul32(x ^ (x >> 16u32), FMIX_A);
    let a2 = wmul32(y ^ (y >> 16u32), FMIX_A);
    let b1 = wmul32(a1 ^ (a1 >> 15u32), FMIX_B);
    let b2 = wmul32(a2 ^ (a2 >> 15u32), FMIX_B);
    assert(b1 == b2) by (bit_vector)
        requires
            b1 ^ (b1 >> 15u32) == b2 ^ (b2 >> 15u32),
    ;
    assert((FMIX_B * 0x9713_2227u32) % 0x1_0000_0000 == 1);
    wmul32_injective(a1 ^ (a1 >> 15u32), a2 ^ (a2 >> 15u32), FMIX_B, 0x9713_2227u32);
    assert(a1 == a2) by (bit_vector)
        requires
            a1 ^ (a1 >> 15u32) == a2 ^ (a2 >> 15u32),
    ;
    assert((FMIX_A * 0x333C_4925u32) % 0x1_0000_0000 == 1);
    wmul32_injective(x ^ (x >> 16u32), y ^ (y >> 16u32), FMIX_A, 0x333C_4925u32);
    assert(x == y) by (bit_vector)
        requires
            x ^ (x >> 16u32) == y ^ (y >> 16u32),
    ;
}

/// Two elements of one seed never have the same 32 bits, nor does one element under two seeds.
pub proof fn elements_differ(seed: u32, seed2: u32, elem: u32, elem2: u32)
    ensures
        elem != elem2 ==> element_bits(seed, elem) != element_bits(seed, elem2),
        seed != seed2 ==> element_bits(seed, elem) != element_bits(seed2, elem),
{
    if element_bits(seed, elem) == element_bits(seed, elem2) {
        let s = fmix32_of(wmul32(elem, GOLDEN));
        let t = fmix32_of(wmul32(elem2, GOLDEN));
        bits_from_state(seed ^ s, seed ^ t);
        assert(s == t) by (bit_vector)
            requires
                seed ^ s == seed ^ t,
        ;
        fmix32_injective(wmul32(elem, GOLDEN), wmul32(elem2, GOLDEN));
        assert((GOLDEN * 0x144C_BC89u32) % 0x1_0000_0000 == 1);
        wmul32_injective(elem, elem2, GOLDEN, 0x144C_BC89u32);
    }
    if element_bits(seed, elem) == element_bits(seed2, elem) {
        let s = fmix32_of(wmul32(elem, GOLDEN));
        bits_from_state(seed ^ s, seed2 ^ s);
        assert(seed == seed2) by (bit_vector)
            requires
                seed ^ s == seed2 ^ s,
        ;
    }
}

/// Equal bits come from equal states.
proof fn bits_from_state(s: u32, t: u32)
    requires
        xorshift32_of(xorshift32_of(fmix32_of(s))) == xorshift32_of(xorshift32_of(fmix32_of(t))),
    ensures
        s == t,
{
    xorshift32_injective(xorshift32_of(fmix32_of(s)), xorshift32_of(fmix32_of(t)));
    xorshift32_injective(fmix32_of(s), fmix32_of(t));
    fmix32_injective(s, t);
}

/// A step of the linear generator forgets nothing.
pub proof fn xorshift32_injective(x: u32, y: u32)
    requires
        xorshift32_of(x) == xorshift32_of(y),
    ensures
        x == y,
{
    let a = x ^ (x << 13u32);
    let b = a ^ (a >> 17u32);
    let c = y ^ (y << 13u32);
    let d = c ^ (c >> 17u32);
    assert(b == d) by (bit_vector)
        requires
            b ^ (b << 5u32) == d ^ (d << 5u32),
    ;
    assert(a == c) by (bit_vector)
        requires
            a ^ (a >> 17u32) == c ^ (c >> 17u32),
    ;
    assert(x == y) by (bit_vector)
        requires
            x ^ (x << 13u32) == y ^ (y << 13u32),
    ;
}

/// Uniform numbers are drawn two by two: as many as are needed, or one more.
pub proof fn numbers_are_drawn_in_pairs(count: int)
    requires
        0 <= count,
    ensures
        count <= 2 * half_count(count) <= count + 1,
{
}

} // verus!
