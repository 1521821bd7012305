//! What happens in which epoch.

use crate::text;
use vstd::prelude::*;

verus! {

/// The seed of an epoch's order.
pub open spec fn order_seed(seed: u64, epoch: u32) -> int {
    seed + epoch
}

/// The seed of an epoch's order.
pub fn epoch_seed(seed: u64, epoch: u32) -> (r: u64)
    requires
        seed + epoch <= u64::MAX,
    ensures
        r == order_seed(seed, epoch),
{
    seed + epoch as u64
}

/// Whether the network is validated after an epoch: every so many epochs, counted from the
/// first, and after the last.
pub open spec fn validated(epoch: int, every: int, epochs: int) -> bool {
    epoch % every == 0 || epoch + 1 == epochs
}

/// Whether the network is validated after an epoch.
pub fn validate_due(epoch: u32, every: u32, epochs: u32) -> (r: bool)
    requires
        every > 0,
        epoch < epochs,
    ensures
        r == validated(epoch as int, every as int, epochs as int),
{
    epoch % every == 0 || epoch == epochs - 1
}

/// Every run validates its first epoch and its last, and any `every` epochs in a row hold one
/// that is validated.
pub proof fn validation_recurs(epoch: int, every: int, epochs: int)
    requires
        every > 0,
        0 <= epoch < epochs,
    ensures
        validated(0, every, epochs),
        validated(epochs - 1, every, epochs),
        exists|e: int| epoch <= e < epoch + every && #[trigger] validated(e, every, epochs),
{
    vstd::arithmetic::div_mod::lemma_small_mod(0, every as nat);
    let r = epoch % every;
    if r == 0 {
        assert(validated(epoch, every, epochs));
    } else {
        let e = epoch + every - r;
        vstd::arithmetic::div_mod::lemma_fundamental_div_mod(epoch, every);
        vstd::arithmetic::div_mod::lemma_mod_bound(epoch, every);
        let q = epoch / every;
        assert(e == every * (q + 1)) by (nonlinear_arith)
            requires
                e == epoch + every - r,
                epoch == every * q + r,
        ;
        vstd::arithmetic::div_mod::lemma_mod_multiples_basic(q + 1, every);
        assert(every * (q + 1) == (q + 1) * every) by (nonlinear_arith);
        assert(validated(e, every, epochs));
    }
}

/// How often the relaxation has got twice as sharp: nothing if its sharpness is fixed.
pub open spec fn doublings(anneal: bool, every: u32, epoch: u32) -> Option<u32> {
    if anneal && every > 0 {
        Some((epoch / every) as u32)
    } else {
        None
    }
}

/// How often the relaxation has got twice as sharp: nothing if its sharpness is fixed.
pub fn beta_doublings(anneal: bool, every: u32, epoch: u32) -> (r: Option<u32>)
    ensures
        r == doublings(anneal, every, epoch),
{
    if anneal && every > 0 {
        Some(epoch / every)
    } else {
        None
    }
}

/// The sharpness never falls from one epoch to the next, and rises by one doubling at most.
pub proof fn doublings_grow(every: u32, epoch: u32)
    requires
        every > 0,
        epoch < u32::MAX,
    ensures
        epoch / every <= (epoch + 1) / every as int <= epoch / every + 1,
{
    let e = epoch as int;
    let n = every as int;
    vstd::arithmetic::div_mod::lemma_div_is_ordered(e, e + 1, n);
    vstd::arithmetic::div_mod::lemma_div_is_ordered(e + 1, e + n, n);
    vstd::arithmetic::div_mod::lemma_div_plus_one(e, n);
}

/// Which sites are relaxed while candidates are rated.
#[derive(Clone, Copy, Debug, PartialEq, Eq, Structural)]
pub struct Relaxation {
    /// The sites of attention.
    pub ssa: bool,
    /// The sites of the multilayer perceptron and of the head.
    pub mlp: bool,
}

/// Which sites are relaxed. `below_limit` says whether the sharpness is below its limit.
pub open spec fn relaxation_of(
    relax: bool,
    below_limit: bool,
    hard_at_16: bool,
    scope: Seq<char>,
) -> Relaxation {
    let ssa = relax && (below_limit || !hard_at_16);
    Relaxation { ssa, mlp: ssa && scope != "ssa"@ }
}

/// Which sites are relaxed. `below_limit` says whether the sharpness is below its limit.
pub fn relaxation(relax: bool, below_limit: bool, hard_at_16: bool, scope: &str) -> (r: Relaxation)
    ensures
        r == relaxation_of(relax, below_limit, hard_at_16, scope@),
{
    let ssa = relax && (below_limit || !hard_at_16);
    Relaxation { ssa, mlp: ssa && !text::same(scope, "ssa") }
}

/// How the learning rate of an epoch comes from the full rate.
#[derive(Clone, Copy, Debug, PartialEq, Eq, Structural)]
pub enum LrPhase {
    /// The full rate.
    Constant,
    /// The fraction `.0 / .1` of it.
    Warmup(u32, u32),
    /// On the falling cosine, `.0` of `.1` steps down.
    Cosine(u32, u32),
}

/// The learning rate of an epoch: constant without warm-up, else rising to the full rate over
/// `warmup` epochs and falling on a cosine over the rest.
pub open spec fn phase_of(warmup: u32, epoch: u32, epochs: u32) -> LrPhase {
    if warmup == 0 {
        LrPhase::Constant
    } else if epoch < warmup {
        LrPhase::Warmup((epoch + 1) as u32, warmup)
    } else {
        LrPhase::Cosine((epoch - warmup) as u32, (epochs - warmup) as u32)
    }
}

/// The learning rate of an epoch.
pub fn lr_phase(warmup: u32, epoch: u32, epochs: u32) -> (r: LrPhase)
    requires
        epoch < epochs,
    ensures
        r == phase_of(warmup, epoch, epochs),
{
    if warmup == 0 {
        LrPhase::Constant
    } else if epoch < warmup {
        LrPhase::Warmup(epoch + 1, warmup)
    } else {
        LrPhase::Cosine(epoch - warmup, epochs - warmup)
    }
}

/// The learning rate of an epoch of a run that is on the falling cosine from the start.
pub open spec fn cosine_of(epoch: u32, epochs: u32) -> LrPhase {
    LrPhase::Cosine(epoch, epochs)
}

/// The learning rate of an epoch of a run that is on the falling cosine from the start.
pub fn cosine_phase(epoch: u32, epochs: u32) -> (r: LrPhase)
    requires
        epoch < epochs,
    ensures
        r == cosine_of(epoch, epochs),
{
    LrPhase::Cosine(epoch, epochs)
}

/// Whether the fractions of a phase are those of a schedule.
pub open spec fn phase_in_range(p: LrPhase) -> bool {
    match p {
        LrPhase::Constant => true,
        LrPhase::Warmup(a, b) => 0 < a <= b,
        LrPhase::Cosine(a, b) => a < b,
    }
}

/// The rate rises over the warm-up, reaches its full value in the last epoch of it, and is not
/// yet at the end of the cosine in the last epoch.
pub proof fn phases_are_in_range(warmup: u32, epoch: u32, epochs: u32)
    requires
        epoch < epochs,
    ensures
        phase_in_range(phase_of(warmup, epoch, epochs)),
        warmup > 0 && epoch + 1 == warmup ==> phase_of(warmup, epoch, epochs) == LrPhase::Warmup(
            warmup,
            warmup,
        ),
{
}

/// Whether the noise of the slots adapts after an epoch. A period of 0 counts as 1.
pub open spec fn adapts(adapt: bool, epoch: int, every: int) -> bool {
    adapt && (every == 0 || (epoch + 1) % every == 0)
}

/// Whether the noise of the slots adapts after an epoch.
pub fn adapt_due(adapt: bool, epoch: u32, every: u32) -> (r: bool)
    requires
        epoch < u32::MAX,
    ensures
        r == adapts(adapt, epoch as int, every as int),
{
    let n: u32 = if every == 0 {
        1
    } else {
        every
    };
    adapt && (epoch + 1) % n == 0
}

/// The seeds of a run go up by one with each epoch, so that no two epochs share an order's seed,
/// and the first epoch has the seed of the run.
pub proof fn seeds_go_up(seed: u64, a: u32, b: u32)
    ensures
        order_seed(seed, 0) == seed,
        order_seed(seed, b) - order_seed(seed, a) == b - a,
        a != b ==> order_seed(seed, a) != order_seed(seed, b),
{
}

/// Between two multiples of the interval nothing is validated but the last epoch, and every
/// multiple is.
pub proof fn validation_waits(epoch: int, every: int, epochs: int, k: int)
    requires
        every > 0,
        k >= 0,
    ensures
        k * every < epoch < (k + 1) * every && epoch + 1 != epochs ==> !validated(
            epoch,
            every,
            epochs,
        ),
        epoch == k * every ==> validated(epoch, every, epochs),
{
    multiples_have_no_rest(epoch, every, k);
}

/// A number is a multiple of the interval, or lies between two.
proof fn multiples_have_no_rest(n: int, every: int, k: int)
    requires
        every > 0,
    ensures
        n == k * every ==> n % every == 0,
        k * every < n < (k + 1) * every ==> n % every != 0,
{
    vstd::arithmetic::div_mod::lemma_mod_multiples_basic(k, every);
    if k * every < n < (k + 1) * every {
        vstd::arithmetic::div_mod::lemma_fundamental_div_mod(n, every);
        let q = n / every;
        assert(n % every != 0) by (nonlinear_arith)
            requires
                n == every * q + n % every,
                k * every < n < (k + 1) * every,
                every > 0,
        ;
    }
}

/// A fixed sharpness never doubles. Otherwise the number of doublings says in which interval the
/// epoch is: it starts at nothing and goes up by one at each multiple of the interval.
pub proof fn doublings_count_intervals(anneal: bool, every: u32, epoch: u32)
    ensures
        doublings(anneal, every, epoch) is None <==> !anneal || every == 0,
        doublings(anneal, every, epoch) matches Some(d) ==> d * every <= epoch < (d + 1) * every,
{
    if every > 0 {
        let e = epoch as int;
        let n = every as int;
        let q = e / n;
        vstd::arithmetic::div_mod::lemma_fundamental_div_mod(e, n);
        vstd::arithmetic::div_mod::lemma_div_pos_is_pos(e, n);
        vstd::arithmetic::div_mod::lemma_div_is_ordered_by_denominator(e, 1, n);
        assert(q * n <= e && e < (q + 1) * n) by (nonlinear_arith)
            requires
                e == n * q + e % n,
                0 <= e % n < n,
        ;
    }
}

/// Nothing is relaxed unless the run asks for it. One that does relaxes attention below the limit
/// of the sharpness, and above it unless it turns hard there; the perceptron and the head are
/// relaxed with attention, unless the scope is attention alone.
pub proof fn relaxation_is_asked_for(
    relax: bool,
    below_limit: bool,
    hard_at_16: bool,
    scope: Seq<char>,
)
    ensures
        ({
            let r = relaxation_of(relax, below_limit, hard_at_16, scope);
            &&& !relax ==> !r.ssa && !r.mlp
            &&& relax && below_limit ==> r.ssa
            &&& relax && !hard_at_16 ==> r.ssa
            &&& !below_limit && hard_at_16 ==> !r.ssa
            &&& scope == "ssa"@ ==> !r.mlp
            &&& scope != "ssa"@ ==> r.mlp == r.ssa
        }),
{
}

/// Without warm-up the rate is constant. With one it rises by a step each epoch from the first
/// step in the first epoch, and after it the position on the cosine advances by one each epoch,
/// from the start in the first epoch after the warm-up to the last step before the end.
pub proof fn rates_follow_the_epochs(warmup: u32, epoch: u32, epochs: u32)
    requires
        epoch < epochs,
    ensures
        warmup == 0 ==> phase_of(warmup, epoch, epochs) is Constant,
        0 < warmup && epoch < warmup ==> (phase_of(warmup, epoch, epochs) matches LrPhase::Warmup(
            a,
            b,
        ) && a == epoch + 1 && b == warmup),
        0 < warmup <= epoch ==> (phase_of(warmup, epoch, epochs) matches LrPhase::Cosine(a, b) && a
            + warmup == epoch && b + warmup == epochs),
        cosine_of(epoch, epochs) matches LrPhase::Cosine(a, b) && a == epoch && b == epochs,
{
}

/// After the warm-up of a run, the rates are those of a run that is as much shorter and on the
/// cosine from the start; and each epoch is one step further than the one before.
pub proof fn cosine_advances(warmup: u32, epoch: u32, epochs: u32)
    requires
        0 < warmup <= epoch,
        epoch + 1 < epochs,
    ensures
        phase_of(warmup, epoch, epochs) == cosine_of(
            (epoch - warmup) as u32,
            (epochs - warmup) as u32,
        ),
        phase_of(warmup, epoch, epochs) matches LrPhase::Cosine(a, b) && phase_of(
            warmup,
            (epoch + 1) as u32,
            epochs,
        ) matches LrPhase::Cosine(c, d) && c == a + 1 && d == b,
{
}

/// Noise adapts only where it is asked for: after the last epoch of each interval and after no
/// other. An interval of nothing is one epoch long.
pub proof fn adapting_recurs(epoch: int, every: int, k: int)
    requires
        0 <= epoch,
        0 <= every,
        0 <= k,
    ensures
        !adapts(false, epoch, every),
        adapts(true, epoch, 0) == adapts(true, epoch, 1),
        adapts(true, epoch, 1),
        every > 0 && epoch + 1 == k * every ==> adapts(true, epoch, every),
        every > 0 && k * every < epoch + 1 < (k + 1) * every ==> !adapts(true, epoch, every),
{
    if every > 0 {
        multiples_have_no_rest(epoch + 1, every, k);
    }
    multiples_have_no_rest(epoch + 1, 1, epoch + 1);
}

} // verus!
