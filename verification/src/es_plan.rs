//! Plans of the evolution strategy: which candidate sees which images, how much noise each slot
//! takes and where the slots of each site stand.

use crate::factored;
use crate::factored::{Blocks, FLoc, FSlotSpec};
use crate::loader;
use crate::options;
use crate::options::{
    choose_sites, parse_blocks, threshold_sites, weights_path, EsArgs, MixedArgs, PlanError,
};
use crate::schedule;
use crate::schedule::{adapt_due, beta_doublings, epoch_seed, lr_phase, validate_due, LrPhase};
use crate::slots::ShapeTree;
use vstd::prelude::*;

verus! {

/// A run that keeps the noise of all candidates: each epoch holds whole generations, and each
/// candidate of a generation is rated on its own images.
#[derive(Clone, Copy, Debug, PartialEq, Eq, Structural)]
pub struct CachePlan {
    pub pop: usize,
    pub es_batch: usize,
    /// Images of a generation.
    pub gen_imgs: usize,
    pub gens_per_epoch: usize,
    /// Images that an epoch leaves out.
    pub dropped: usize,
}

impl CachePlan {
    /// The numbers of a plan for `n_train` images.
    pub open spec fn fits(self, n_train: int) -> bool {
        &&& self.gen_imgs == self.pop * self.es_batch
        &&& 0 < self.gen_imgs <= n_train
        &&& self.pop % 2 == 0
        &&& self.gens_per_epoch == n_train / self.gen_imgs as int
        &&& self.dropped == n_train % self.gen_imgs as int
    }

    /// Where image `i` of candidate `c` of generation `g` stands in the epoch's order.
    pub open spec fn position(self, g: int, c: int, i: int) -> int {
        g * self.gen_imgs + c * self.es_batch + i
    }
}

/// Whether initial weights are named.
pub open spec fn has_weights(weights: Option<String>) -> bool {
    weights is Some && weights->0@.len() > 0
}

/// What options alone forbid of a run that keeps all noise, before any data is read.
pub open spec fn cache_args_error(args: EsArgs) -> Option<PlanError> {
    if args.pop % 2 != 0 {
        Some(PlanError::OddPop)
    } else if args.rank == 0 {
        Some(PlanError::ZeroRank)
    } else {
        None
    }
}

/// Checks what options alone forbid of a run that keeps all noise, before any data is read.
pub fn check_cache_args(args: &EsArgs) -> (r: Option<PlanError>)
    ensures
        r == cache_args_error(*args),
{
    if args.pop % 2 != 0 {
        Some(PlanError::OddPop)
    } else if args.rank == 0 {
        Some(PlanError::ZeroRank)
    } else {
        None
    }
}

/// Why a run that keeps all noise cannot start.
pub open spec fn cache_error(args: EsArgs, n_train: int) -> Option<PlanError> {
    if cache_args_error(args) is Some {
        cache_args_error(args)
    } else if !has_weights(args.weights) {
        Some(PlanError::NoWeights)
    } else if args.pop * args.es_batch == 0 {
        Some(PlanError::EmptyGeneration)
    } else if args.pop * args.es_batch > n_train {
        Some(PlanError::TooManyImages)
    } else {
        None
    }
}

/// Plans a run that keeps all noise.
pub fn plan_cache(args: &EsArgs, n_train: usize) -> (r: Result<CachePlan, PlanError>)
    ensures
        match r {
            Ok(p) => cache_error(*args, n_train as int) is None && p.fits(n_train as int) && p.pop
                == args.pop && p.es_batch == args.es_batch,
            Err(e) => cache_error(*args, n_train as int) == Some(e),
        },
{
    match check_cache_args(args) {
        Some(e) => {
            return Err(e);
        }
        None => {}
    }
    match weights_path(&args.weights) {
        Some(_) => {}
        None => {
            return Err(PlanError::NoWeights);
        }
    }
    match args.pop.checked_mul(args.es_batch) {
        Some(gen_imgs) => {
            if gen_imgs == 0 {
                return Err(PlanError::EmptyGeneration);
            }
            if gen_imgs > n_train {
                return Err(PlanError::TooManyImages);
            }
            Ok(
                CachePlan {
                    pop: args.pop,
                    es_batch: args.es_batch,
                    gen_imgs,
                    gens_per_epoch: n_train / gen_imgs,
                    dropped: n_train % gen_imgs,
                },
            )
        }
        None => Err(PlanError::TooManyImages),
    }
}

/// Megabytes that the kept noise takes: four bytes for each parameter of each candidate.
pub open spec fn megabytes(pop: int, num_params: int) -> int {
    (pop * num_params * 4) / 1048576
}

/// Megabytes that the kept noise takes: four bytes for each parameter of each candidate.
pub fn cache_mb(pop: usize, num_params: usize) -> (r: usize)
    requires
        pop * num_params * 4 <= usize::MAX,
    ensures
        r == megabytes(pop as int, num_params as int),
{
    assert(pop * num_params <= pop * num_params * 4) by (nonlinear_arith)
        requires
            pop >= 0,
            num_params >= 0,
    ;
    pop * num_params * 4 / 1048576
}

/// Positions of a plan lie within the used part of the order.
proof fn position_in_range(p: CachePlan, n_train: int, g: int, c: int, i: int)
    requires
        p.fits(n_train),
        0 <= g < p.gens_per_epoch,
        0 <= c < p.pop,
        0 <= i < p.es_batch,
    ensures
        0 <= p.position(g, c, i) < p.gens_per_epoch * p.gen_imgs <= n_train,
        0 <= c * p.es_batch + i < p.gen_imgs,
        0 <= c * p.es_batch,
        0 <= g * p.gen_imgs,
{
    let m = p.es_batch as int;
    let gi = p.gen_imgs as int;
    let gens = p.gens_per_epoch as int;
    assert(c * m + m <= p.pop * m) by (nonlinear_arith)
        requires
            c + 1 <= p.pop,
            m >= 0,
    ;
    assert(g * gi + gi <= gens * gi) by (nonlinear_arith)
        requires
            g + 1 <= gens,
            gi >= 0,
    ;
    assert(0 <= c * m) by (nonlinear_arith)
        requires
            c >= 0,
            m >= 0,
    ;
    assert(0 <= g * gi) by (nonlinear_arith)
        requires
            g >= 0,
            gi >= 0,
    ;
    vstd::arithmetic::div_mod::lemma_fundamental_div_mod(n_train, gi);
    vstd::arithmetic::div_mod::lemma_mod_bound(n_train, gi);
    assert(gens * gi == gi * gens) by (nonlinear_arith);
}

/// The images that candidate `c` of generation `g` is rated on.
pub fn candidate_images(plan: &CachePlan, order: &[usize], g: usize, c: usize) -> (r: Vec<usize>)
    requires
        plan.fits(order@.len() as int),
        g < plan.gens_per_epoch,
        c < plan.pop,
    ensures
        r@.len() == plan.es_batch,
        forall|i: int|
            0 <= i < plan.es_batch ==> #[trigger] r@[i] == order@[plan.position(
                g as int,
                c as int,
                i,
            )],
{
    let mut r: Vec<usize> = Vec::new();
    let mut i: usize = 0;
    assert(order@.len() == order.len());
    while i < plan.es_batch
        invariant
            plan.fits(order@.len() as int),
            order@.len() <= usize::MAX,
            g < plan.gens_per_epoch,
            c < plan.pop,
            i <= plan.es_batch,
            r@.len() == i,
            forall|j: int|
                0 <= j < i ==> #[trigger] r@[j] == order@[plan.position(g as int, c as int, j)],
        decreases plan.es_batch - i,
    {
        proof {
            position_in_range(*plan, order@.len() as int, g as int, c as int, i as int);
        }
        r.push(order[g * plan.gen_imgs + (c * plan.es_batch + i)]);
        i += 1;
    }
    r
}

/// No two candidates of an epoch share an image, and no image is left out but those that do not
/// fill a generation: positions are different, and every one below the used length is taken.
pub proof fn candidates_split_the_epoch(
    p: CachePlan,
    n_train: int,
    g: int,
    c: int,
    i: int,
    g2: int,
    c2: int,
    i2: int,
)
    requires
        p.fits(n_train),
        0 <= g < p.gens_per_epoch,
        0 <= c < p.pop,
        0 <= i < p.es_batch,
        0 <= g2 < p.gens_per_epoch,
        0 <= c2 < p.pop,
        0 <= i2 < p.es_batch,
    ensures
        0 <= p.position(g, c, i) < n_train - p.dropped,
        p.position(g, c, i) == p.position(g2, c2, i2) ==> g == g2 && c == c2 && i == i2,
{
    let gi = p.gen_imgs as int;
    let m = p.es_batch as int;
    position_in_range(p, n_train, g, c, i);
    position_in_range(p, n_train, g2, c2, i2);
    vstd::arithmetic::div_mod::lemma_fundamental_div_mod(n_train, gi);
    assert(p.gens_per_epoch * gi == gi * p.gens_per_epoch) by (nonlinear_arith);
    if p.position(g, c, i) == p.position(g2, c2, i2) {
        vstd::arithmetic::div_mod::lemma_fundamental_div_mod_converse(
            p.position(g, c, i),
            gi,
            g,
            c * m + i,
        );
        vstd::arithmetic::div_mod::lemma_fundamental_div_mod_converse(
            p.position(g, c, i),
            gi,
            g2,
            c2 * m + i2,
        );
        vstd::arithmetic::div_mod::lemma_fundamental_div_mod_converse(c * m + i, m, c, i);
        vstd::arithmetic::div_mod::lemma_fundamental_div_mod_converse(c * m + i, m, c2, i2);
    }
}

/// Every used position of the order belongs to a candidate.
pub proof fn every_used_image_is_rated(p: CachePlan, n_train: int, x: int)
    requires
        p.fits(n_train),
        0 <= x < n_train - p.dropped,
    ensures
        exists|g: int, c: int, i: int|
            0 <= g < p.gens_per_epoch && 0 <= c < p.pop && 0 <= i < p.es_batch
                && #[trigger] p.position(g, c, i) == x,
{
    let gi = p.gen_imgs as int;
    let m = p.es_batch as int;
    let gens = p.gens_per_epoch as int;
    assert(m > 0) by (nonlinear_arith)
        requires
            p.pop * m > 0,
            m >= 0,
    ;
    let g = x / gi;
    let y = x % gi;
    let c = y / m;
    let i = y % m;
    vstd::arithmetic::div_mod::lemma_fundamental_div_mod(x, gi);
    vstd::arithmetic::div_mod::lemma_mod_bound(x, gi);
    vstd::arithmetic::div_mod::lemma_fundamental_div_mod(y, m);
    vstd::arithmetic::div_mod::lemma_mod_bound(y, m);
    vstd::arithmetic::div_mod::lemma_fundamental_div_mod(n_train, gi);
    vstd::arithmetic::div_mod::lemma_div_pos_is_pos(x, gi);
    vstd::arithmetic::div_mod::lemma_div_pos_is_pos(y, m);
    assert(g < gens) by (nonlinear_arith)
        requires
            gi > 0,
            gi * g <= x,
            x < gi * gens,
    ;
    assert(c < p.pop) by (nonlinear_arith)
        requires
            m > 0,
            m * c <= y,
            y < p.pop * m,
    ;
    assert(g * gi == gi * g) by (nonlinear_arith);
    assert(c * m == m * c) by (nonlinear_arith);
    assert(p.position(g, c, i) == x);
}

/// Candidates that are rated together: the number of each and the image it sees.
pub struct Chunk {
    pub ids: Vec<usize>,
    pub images: Vec<usize>,
}

/// The number of the candidate at a position: the position itself if pairs share an image, else
/// the number of its image.
pub open spec fn candidate_id(order: Seq<usize>, pair_shared: bool, p: int) -> usize {
    if pair_shared {
        p as usize
    } else {
        order[p]
    }
}

/// The image that the candidate at a position sees.
pub open spec fn candidate_image(order: Seq<usize>, pair_shared: bool, p: int) -> usize {
    if pair_shared {
        order[p / 2]
    } else {
        order[p]
    }
}

/// Whether a chunk holds the candidates from position `lo` on.
pub open spec fn is_chunk(
    c: Chunk,
    order: Seq<usize>,
    pair_shared: bool,
    lo: int,
    len: int,
) -> bool {
    &&& c.ids@.len() == len
    &&& c.images@.len() == len
    &&& forall|i: int|
        0 <= i < len ==> #[trigger] c.ids@[i] == candidate_id(order, pair_shared, lo + i)
    &&& forall|i: int|
        0 <= i < len ==> #[trigger] c.images@[i] == candidate_image(order, pair_shared, lo + i)
}

/// Whether these are the chunks of the first `pop` candidates: each starts where the one before
/// ends, and all are full but the last, which holds what is left.
pub open spec fn are_chunks(
    r: Seq<Chunk>,
    order: Seq<usize>,
    pair_shared: bool,
    pop: int,
    chunk: int,
) -> bool {
    &&& r.len() == loader::batch_count(pop, chunk)
    &&& forall|k: int|
        0 <= k < r.len() ==> is_chunk(
            #[trigger] r[k],
            order,
            pair_shared,
            k * chunk,
            if pop - k * chunk < chunk {
                pop - k * chunk
            } else {
                chunk
            },
        )
}

/// Cuts the first `pop` candidates of an epoch into chunks.
pub fn chunks(order: &[usize], pop: usize, chunk: usize, pair_shared: bool) -> (r: Vec<Chunk>)
    requires
        chunk > 0,
        pop <= order@.len(),
    ensures
        are_chunks(r@, order@, pair_shared, pop as int, chunk as int),
{
    let parts = loader::batches(pop, chunk);
    let mut r: Vec<Chunk> = Vec::new();
    let mut k: usize = 0;
    assert(order@.len() == order.len());
    while k < parts.len()
        invariant
            k <= parts@.len(),
            chunk > 0,
            pop <= order@.len() <= usize::MAX,
            parts@.len() == loader::batch_count(pop as int, chunk as int),
            forall|j: int|
                0 <= j < parts@.len() ==> ((#[trigger] parts@[j]).0 as int, parts@[j].1 as int)
                    == loader::batch_bounds(pop as int, chunk as int, j),
            r@.len() == k,
            forall|j: int|
                0 <= j < k ==> is_chunk(
                    #[trigger] r@[j],
                    order@,
                    pair_shared,
                    j * chunk,
                    if pop - j * chunk < chunk {
                        pop - j * chunk
                    } else {
                        chunk as int
                    },
                ),
        decreases parts@.len() - k,
    {
        proof {
            loader::batches_cover(pop as int, chunk as int, k as int);
            assert((k + 1) * chunk == k * chunk + chunk) by (nonlinear_arith);
        }
        let lo: usize = parts[k].0;
        let len: usize = parts[k].1 - lo;
        let mut ids: Vec<usize> = Vec::new();
        let mut images: Vec<usize> = Vec::new();
        let mut i: usize = 0;
        while i < len
            invariant
                i <= len,
                lo + len <= pop,
                pop <= order@.len() <= usize::MAX,
                ids@.len() == i,
                images@.len() == i,
                forall|j: int|
                    0 <= j < i ==> #[trigger] ids@[j] == candidate_id(order@, pair_shared, lo + j),
                forall|j: int|
                    0 <= j < i ==> #[trigger] images@[j] == candidate_image(
                        order@,
                        pair_shared,
                        lo + j,
                    ),
            decreases len - i,
        {
            let p: usize = lo + i;
            if pair_shared {
                ids.push(p);
                images.push(order[p / 2]);
            } else {
                ids.push(order[p]);
                images.push(order[p]);
            }
            i += 1;
        }
        r.push(Chunk { ids, images });
        k += 1;
    }
    r
}

/// Candidates of the first `k` chunks.
pub open spec fn rated_in(chunks: Seq<Chunk>, k: int) -> int
    decreases k,
{
    if k <= 0 {
        0
    } else {
        rated_in(chunks, k - 1) + chunks[k - 1].ids@.len()
    }
}

/// All of the first `pop` candidates are rated, each once: the chunks hold `pop` candidates, and
/// the one at position `p` stands in chunk `p / chunk`.
pub proof fn every_candidate_is_rated(
    r: Seq<Chunk>,
    order: Seq<usize>,
    pair_shared: bool,
    pop: int,
    chunk: int,
    p: int,
)
    requires
        chunk > 0,
        0 <= p < pop <= order.len(),
        are_chunks(r, order, pair_shared, pop, chunk),
    ensures
        rated_in(r, r.len() as int) == pop,
        0 <= p / chunk < r.len(),
        0 <= p % chunk < r[p / chunk].ids@.len(),
        r[p / chunk].ids@[p % chunk] == candidate_id(order, pair_shared, p),
        r[p / chunk].images@[p % chunk] == candidate_image(order, pair_shared, p),
{
    let q = p / chunk;
    vstd::arithmetic::div_mod::lemma_fundamental_div_mod(p, chunk);
    vstd::arithmetic::div_mod::lemma_mod_bound(p, chunk);
    vstd::arithmetic::div_mod::lemma_fundamental_div_mod(pop + chunk - 1, chunk);
    vstd::arithmetic::div_mod::lemma_mod_bound(pop + chunk - 1, chunk);
    let c = loader::batch_count(pop, chunk);
    assert(chunk * q == q * chunk && chunk * c == c * chunk) by (nonlinear_arith);
    assert(0 <= q) by (nonlinear_arith)
        requires
            p == q * chunk + p % chunk,
            0 <= p,
            p % chunk < chunk,
            chunk > 0,
    ;
    assert(q < c) by (nonlinear_arith)
        requires
            q * chunk <= p < pop <= c * chunk,
            chunk > 0,
    ;
    assert(is_chunk(
        r[q],
        order,
        pair_shared,
        q * chunk,
        if pop - q * chunk < chunk {
            pop - q * chunk
        } else {
            chunk
        },
    ));
    rated_so_far(r, order, pair_shared, pop, chunk, c);
    loader::batches_cover(pop, chunk, c - 1);
}

/// The first `k` chunks hold the candidates up to the end of the last of them.
proof fn rated_so_far(
    r: Seq<Chunk>,
    order: Seq<usize>,
    pair_shared: bool,
    pop: int,
    chunk: int,
    k: int,
)
    requires
        chunk > 0,
        0 <= pop,
        are_chunks(r, order, pair_shared, pop, chunk),
        0 <= k <= r.len(),
    ensures
        rated_in(r, k) == if k == 0 {
            0
        } else {
            loader::batch_bounds(pop, chunk, k - 1).1
        },
    decreases k,
{
    if k > 0 {
        rated_so_far(r, order, pair_shared, pop, chunk, k - 1);
        loader::batches_cover(pop, chunk, k - 1);
        if k > 1 {
            loader::batches_cover(pop, chunk, k - 2);
        }
        assert((k - 1 + 1) * chunk == (k - 1) * chunk + chunk) by (nonlinear_arith);
        assert(is_chunk(
            r[k - 1],
            order,
            pair_shared,
            (k - 1) * chunk,
            if pop - (k - 1) * chunk < chunk {
                pop - (k - 1) * chunk
            } else {
                chunk
            },
        ));
    }
}

/// With shared images both candidates of a pair see the same image.
pub proof fn pairs_share_images(order: Seq<usize>, q: int)
    requires
        0 <= q,
        2 * q + 1 < order.len() <= usize::MAX,
    ensures
        candidate_image(order, true, 2 * q) == candidate_image(order, true, 2 * q + 1),
        candidate_id(order, true, 2 * q) == 2 * q,
        candidate_id(order, true, 2 * q + 1) == 2 * q + 1,
{
}

/// Pairs are complete, so that the noise of an epoch cancels: if all images are used, each
/// candidate number below `pop` stands at exactly one position, that of the pair's other candidate
/// too.
pub proof fn pairs_are_complete(order: Seq<usize>, pair_shared: bool, pop: int, q: int)
    requires
        loader::is_order(order, pop),
        pop % 2 == 0,
        pop <= usize::MAX,
        0 <= q < pop / 2,
    ensures
        exists|a: int, b: int|
            0 <= a < pop && 0 <= b < pop && #[trigger] candidate_id(order, pair_shared, a) == 2 * q
                && #[trigger] candidate_id(order, pair_shared, b) == 2 * q + 1,
        forall|a: int, b: int|
            0 <= a < b < pop ==> #[trigger] candidate_id(order, pair_shared, a)
                != #[trigger] candidate_id(order, pair_shared, b),
{
    if pair_shared {
        assert(candidate_id(order, pair_shared, 2 * q) == 2 * q);
        assert(candidate_id(order, pair_shared, 2 * q + 1) == 2 * q + 1);
    } else {
        let x = (2 * q) as usize;
        let y = (2 * q + 1) as usize;
        assert(order.contains(x));
        assert(order.contains(y));
        let a = choose|a: int| 0 <= a < order.len() && order[a] == x;
        let b = choose|b: int| 0 <= b < order.len() && order[b] == y;
        assert(candidate_id(order, pair_shared, a) == 2 * q);
        assert(candidate_id(order, pair_shared, b) == 2 * q + 1);
    }
}

/// How much noise a slot takes.
#[derive(Clone, Copy, Debug, PartialEq, Eq, Structural)]
pub enum SigmaKind {
    /// In proportion to the spread of its parameters.
    Relative,
    /// None.
    Zero,
    /// A fixed amount for an amplitude.
    Amplitude,
    /// A fixed amount for a phase.
    Phase,
    /// A fixed amount for a threshold.
    Threshold,
}

/// The block convolutions at the front of the `lora` list.
pub open spec fn conv_slots(blocks: Blocks, n_lora: int) -> int {
    if blocks is Conv {
        n_lora - 1
    } else {
        0
    }
}

/// How much noise slot `i` takes; modulation slots stand at the end.
pub open spec fn sigma_kind(
    blocks: Blocks,
    n_lora: int,
    n_dense: int,
    n_qam: int,
    freeze: bool,
    i: int,
) -> SigmaKind {
    let base = n_lora + n_dense - 2 * n_qam;
    if i >= base {
        if (i - base) % 2 == 0 {
            SigmaKind::Amplitude
        } else {
            SigmaKind::Phase
        }
    } else if freeze && i < conv_slots(blocks, n_lora) {
        SigmaKind::Zero
    } else {
        SigmaKind::Relative
    }
}

/// How much noise each slot takes in a run of the factored estimator.
pub fn factored_sigma(
    blocks: Blocks,
    n_lora: usize,
    n_dense: usize,
    n_qam: usize,
    freeze: bool,
) -> (r: Vec<SigmaKind>)
    requires
        n_lora >= 1,
        n_lora + n_dense <= usize::MAX,
        2 * n_qam <= n_lora + n_dense,
    ensures
        r@.len() == n_lora + n_dense,
        forall|i: int|
            0 <= i < r@.len() ==> #[trigger] r@[i] == sigma_kind(
                blocks,
                n_lora as int,
                n_dense as int,
                n_qam as int,
                freeze,
                i,
            ),
{
    let frozen: usize = frozen_slots(blocks, n_lora, freeze);
    let base: usize = n_lora + n_dense - 2 * n_qam;
    let mut r: Vec<SigmaKind> = Vec::new();
    let mut i: usize = 0;
    while i < n_lora + n_dense
        invariant
            n_lora + n_dense <= usize::MAX,
            2 * n_qam <= n_lora + n_dense,
            base == n_lora + n_dense - 2 * n_qam,
            frozen == (if freeze {
                conv_slots(blocks, n_lora as int)
            } else {
                0
            }),
            i <= n_lora + n_dense,
            r@.len() == i,
            forall|j: int|
                0 <= j < i ==> #[trigger] r@[j] == sigma_kind(
                    blocks,
                    n_lora as int,
                    n_dense as int,
                    n_qam as int,
                    freeze,
                    j,
                ),
        decreases n_lora + n_dense - i,
    {
        let kind = if i >= base {
            if (i - base) % 2 == 0 {
                SigmaKind::Amplitude
            } else {
                SigmaKind::Phase
            }
        } else if i < frozen {
            SigmaKind::Zero
        } else {
            SigmaKind::Relative
        };
        r.push(kind);
        i += 1;
    }
    r
}

/// How many parameters at the front of the list are put back after each step.
pub open spec fn frozen_front(blocks: Blocks, n_lora: int, freeze: bool) -> int {
    if freeze {
        conv_slots(blocks, n_lora)
    } else {
        0
    }
}

/// How many parameters at the front of the list are put back after each step, since weight decay
/// would move them though they take no noise.
pub fn frozen_slots(blocks: Blocks, n_lora: usize, freeze: bool) -> (n: usize)
    requires
        n_lora >= 1,
    ensures
        n == frozen_front(blocks, n_lora as int, freeze),
{
    match blocks {
        Blocks::Conv => {
            if freeze {
                n_lora - 1
            } else {
                0
            }
        }
        _ => 0,
    }
}

/// How much noise a slot takes, by what it stands for.
pub open spec fn kind_of_loc(loc: FLoc, freeze: bool) -> SigmaKind {
    match loc {
        FLoc::Qam(_, part) => if part == 0 {
            SigmaKind::Amplitude
        } else {
            SigmaKind::Phase
        },
        FLoc::BlkW(_, _) => if freeze {
            SigmaKind::Zero
        } else {
            SigmaKind::Relative
        },
        _ => SigmaKind::Relative,
    }
}

/// The slots of both lists, in the order of the parameters.
pub open spec fn all_slots(
    dims: ShapeTree,
    depths: int,
    blocks: Blocks,
    qam: Seq<usize>,
    vth: Seq<usize>,
) -> Seq<FSlotSpec> {
    factored::lora_list(dims, depths, blocks) + factored::dense_list(dims, depths, blocks, qam, vth)
}

/// The noise of a slot by its place in the list is the noise by what it stands for: modulation
/// takes fixed amounts, frozen convolution weights none, and all else a relative amount.
pub proof fn sigma_follows_slots(
    dims: ShapeTree,
    depths: int,
    blocks: Blocks,
    qam: Seq<usize>,
    freeze: bool,
    i: int,
)
    requires
        0 <= depths,
        blocks is Probe ==> qam.len() == 0,
        0 <= i < all_slots(dims, depths, blocks, qam, Seq::empty()).len(),
    ensures
        sigma_kind(
            blocks,
            factored::lora_len(depths, blocks),
            factored::dense_len(depths, blocks, qam, Seq::empty()),
            qam.len() as int,
            freeze,
            i,
        ) == kind_of_loc(all_slots(dims, depths, blocks, qam, Seq::empty())[i].loc, freeze),
{
    let nl = factored::lora_len(depths, blocks);
    let s = all_slots(dims, depths, blocks, qam, Seq::empty());
    if i < nl {
        assert(s[i] == factored::lora_slot(dims, depths, blocks, i));
    } else {
        let d = i - nl;
        assert(s[i] == factored::dense_slot(dims, depths, blocks, qam, Seq::empty(), d));
    }
}

/// Where the two slots of a modulated site stand: among the parameters and in the `dense` list.
#[derive(Clone, Copy, Debug, PartialEq, Eq, Structural)]
pub struct SiteSlots {
    pub site: usize,
    /// The amplitude among the parameters; the phase follows.
    pub param: usize,
    /// The amplitude in the `dense` list; the phase follows.
    pub dense: usize,
}

/// Where the slots of the modulated site at place `k` stand.
pub open spec fn qam_place(n_lora: int, n_bias: int, site: usize, k: int) -> SiteSlots {
    SiteSlots {
        site,
        param: (n_lora + n_bias + 2 * k) as usize,
        dense: (n_bias + 2 * k) as usize,
    }
}

/// Where the threshold at place `k` stands.
pub open spec fn vth_place(
    n_lora: int,
    n_bias: int,
    n_qam: int,
    site: usize,
    k: int,
) -> SiteSlots {
    SiteSlots {
        site,
        param: (n_lora + n_bias + 2 * n_qam + k) as usize,
        dense: (n_bias + 2 * n_qam + k) as usize,
    }
}

/// The slots of the modulated sites, given the number of biases.
pub fn qam_slots(n_lora: usize, n_bias: usize, sites: &[usize]) -> (r: Vec<SiteSlots>)
    requires
        n_lora + n_bias + 2 * sites@.len() <= usize::MAX,
    ensures
        r@.len() == sites@.len(),
        forall|k: int|
            0 <= k < r@.len() ==> #[trigger] r@[k] == qam_place(
                n_lora as int,
                n_bias as int,
                sites@[k],
                k,
            ),
{
    let mut r: Vec<SiteSlots> = Vec::new();
    let mut k: usize = 0;
    while k < sites.len()
        invariant
            n_lora + n_bias + 2 * sites@.len() <= usize::MAX,
            k <= sites@.len(),
            r@.len() == k,
            forall|j: int|
                0 <= j < k ==> #[trigger] r@[j] == qam_place(
                    n_lora as int,
                    n_bias as int,
                    sites@[j],
                    j,
                ),
        decreases sites@.len() - k,
    {
        r.push(
            SiteSlots { site: sites[k], param: n_lora + n_bias + 2 * k, dense: n_bias + 2 * k },
        );
        k += 1;
    }
    r
}

/// The slots of the thresholds, given the number of biases and of modulated sites.
pub fn vth_slots(n_lora: usize, n_bias: usize, n_qam: usize, sites: &[usize]) -> (r: Vec<SiteSlots>)
    requires
        n_lora + n_bias + 2 * n_qam + sites@.len() <= usize::MAX,
    ensures
        r@.len() == sites@.len(),
        forall|k: int|
            0 <= k < r@.len() ==> #[trigger] r@[k] == vth_place(
                n_lora as int,
                n_bias as int,
                n_qam as int,
                sites@[k],
                k,
            ),
{
    let mut r: Vec<SiteSlots> = Vec::new();
    let mut k: usize = 0;
    while k < sites.len()
        invariant
            n_lora + n_bias + 2 * n_qam + sites@.len() <= usize::MAX,
            k <= sites@.len(),
            r@.len() == k,
            forall|j: int|
                0 <= j < k ==> #[trigger] r@[j] == vth_place(
                    n_lora as int,
                    n_bias as int,
                    n_qam as int,
                    sites@[j],
                    j,
                ),
        decreases sites@.len() - k,
    {
        r.push(
            SiteSlots {
                site: sites[k],
                param: n_lora + n_bias + 2 * n_qam + k,
                dense: n_bias + 2 * n_qam + k,
            },
        );
        k += 1;
    }
    r
}

/// The places of a site's slots hold the slots of that site: amplitude and phase of modulation,
/// and the threshold.
pub proof fn site_slots_are_found(
    dims: ShapeTree,
    depths: int,
    blocks: Blocks,
    qam: Seq<usize>,
    vth: Seq<usize>,
    k: int,
)
    requires
        0 <= depths,
        !(blocks is Probe),
        blocks is Conv || vth.len() == 0,
    ensures
        ({
            let s = all_slots(dims, depths, blocks, qam, vth);
            let d = factored::dense_list(dims, depths, blocks, qam, vth);
            let nl = factored::lora_len(depths, blocks);
            let nb = factored::bias_len(depths, blocks);
            let nq = 2 * qam.len();
            &&& 0 <= k < qam.len() ==> s[nl + nb + 2 * k].loc == FLoc::Qam(qam[k], 0)
            &&& 0 <= k < qam.len() ==> s[nl + nb + 2 * k + 1].loc == FLoc::Qam(qam[k], 1)
            &&& 0 <= k < qam.len() ==> d[nb + 2 * k] == s[nl + nb + 2 * k]
            &&& 0 <= k < qam.len() ==> d[nb + 2 * k + 1] == s[nl + nb + 2 * k + 1]
            &&& 0 <= k < vth.len() ==> s[nl + nb + nq + k].loc == FLoc::Vth(vth[k])
            &&& 0 <= k < vth.len() ==> d[nb + nq + k] == s[nl + nb + nq + k]
        }),
{
    let d = factored::dense_list(dims, depths, blocks, qam, vth);
    let nb = factored::bias_len(depths, blocks);
    let nq = 2 * qam.len() as int;
    if 0 <= k < qam.len() {
        assert(d[nb + 2 * k] == factored::dense_slot(dims, depths, blocks, qam, vth, nb + 2 * k));
        assert(d[nb + 2 * k + 1] == factored::dense_slot(
            dims,
            depths,
            blocks,
            qam,
            vth,
            nb + 2 * k + 1,
        ));
        assert((2 * k) / 2 == k && (2 * k) % 2 == 0);
        assert((2 * k + 1) / 2 == k && (2 * k + 1) % 2 == 1);
    }
    if 0 <= k < vth.len() {
        assert(d[nb + nq + k] == factored::dense_slot(dims, depths, blocks, qam, vth, nb + nq + k));
    }
}

/// Images of a batch on which the noiseless network is rated.
pub const ANCHOR_BATCH: usize = 512;

/// Images of a validation batch.
pub const VALIDATE_BATCH: usize = 256;

/// Images of a validation batch of a run that keeps all noise.
pub const CACHE_VALIDATE_BATCH: usize = 64;

/// Rank of the weight noise of a mixed run; all of it is zero.
pub const MIXED_RANK: usize = 4;

/// A run of the factored estimator: every candidate is rated on one image.
pub struct FactoredPlan {
    /// The network; without epochs its name need not be known.
    pub blocks: Option<Blocks>,
    /// Modulated sites.
    pub sites: Vec<usize>,
}

/// What options alone forbid, before any data is read.
pub open spec fn factored_args_error(args: EsArgs) -> Option<PlanError> {
    if args.es_batch != 1 {
        Some(PlanError::EsBatch)
    } else if args.pop % 2 != 0 {
        Some(PlanError::OddPop)
    } else {
        None
    }
}

/// Checks what options alone forbid, before any data is read.
pub fn check_factored_args(args: &EsArgs) -> (r: Option<PlanError>)
    ensures
        r == factored_args_error(*args),
{
    if args.es_batch != 1 {
        Some(PlanError::EsBatch)
    } else if args.pop % 2 != 0 {
        Some(PlanError::OddPop)
    } else {
        None
    }
}

/// Why a run of the factored estimator cannot start. Chunks and the network are only needed by
/// an epoch.
pub open spec fn factored_error(args: EsArgs, n_train: int) -> Option<PlanError> {
    let blocks = options::blocks_of(args.blocks@);
    let sites = options::chosen_sites(blocks, args.qam@, args.qam_sites@);
    if factored_args_error(args) is Some {
        factored_args_error(args)
    } else if args.pop > n_train {
        Some(PlanError::PopTooLarge)
    } else if !has_weights(args.weights) {
        Some(PlanError::NoWeights)
    } else if blocks == Some(Blocks::Fc) && args.baseline_zero {
        Some(PlanError::AnchorsUnsupported)
    } else if sites is Err {
        Some(sites->Err_0)
    } else if args.epochs > 0 && args.chunk == 0 {
        Some(PlanError::ZeroChunk)
    } else if args.epochs > 0 && blocks is None {
        Some(PlanError::UnknownBlocks)
    } else {
        None
    }
}

/// Plans a run of the factored estimator.
pub fn plan_factored(args: &EsArgs, n_train: usize) -> (r: Result<FactoredPlan, PlanError>)
    ensures
        match r {
            Ok(p) => {
                &&& factored_error(*args, n_train as int) is None
                &&& p.blocks == options::blocks_of(args.blocks@)
                &&& args.epochs > 0 ==> p.blocks is Some
                &&& options::chosen_sites(p.blocks, args.qam@, args.qam_sites@) == Ok::<
                    Seq<usize>,
                    PlanError,
                >(p.sites@)
            },
            Err(e) => factored_error(*args, n_train as int) == Some(e),
        },
{
    match check_factored_args(args) {
        Some(e) => {
            return Err(e);
        }
        None => {}
    }
    if args.pop > n_train {
        return Err(PlanError::PopTooLarge);
    }
    match weights_path(&args.weights) {
        Some(_) => {}
        None => {
            return Err(PlanError::NoWeights);
        }
    }
    let blocks = parse_blocks(args.blocks.as_str());
    let fc = match blocks {
        Some(Blocks::Fc) => true,
        _ => false,
    };
    if fc && args.baseline_zero {
        return Err(PlanError::AnchorsUnsupported);
    }
    let sites = match choose_sites(blocks, args.qam.as_str(), args.qam_sites.as_str()) {
        Ok(v) => v,
        Err(e) => {
            return Err(e);
        }
    };
    if args.epochs > 0 && args.chunk == 0 {
        return Err(PlanError::ZeroChunk);
    }
    if args.epochs > 0 && blocks.is_none() {
        return Err(PlanError::UnknownBlocks);
    }
    Ok(FactoredPlan { blocks, sites })
}

/// All that is decided before an epoch of the factored estimator.
pub struct FactoredEpoch {
    pub seed: u64,
    pub doublings: Option<u32>,
    pub lr: LrPhase,
    pub chunks: Vec<Chunk>,
    pub sigma: Vec<SigmaKind>,
    /// Parameters at the front that are put back after the step.
    pub frozen: usize,
    /// Batches of all training images on which the noiseless network is rated.
    pub anchors: Vec<(usize, usize)>,
    /// Whether the noise of the slots adapts afterwards.
    pub adapt: bool,
    /// Whether the network is validated afterwards.
    pub validate: bool,
}

/// Whether this is decided before an epoch of the factored estimator: the images come in the
/// shuffled order of the epoch's seed.
pub open spec fn factored_decided(
    args: EsArgs,
    plan: FactoredPlan,
    n_lora: int,
    n_dense: int,
    epoch: u32,
    n_train: int,
    r: FactoredEpoch,
) -> bool {
    &&& r.seed == schedule::order_seed(args.seed, epoch)
    &&& r.doublings == schedule::doublings(args.relax, args.beta_anneal_every, epoch)
    &&& r.lr == schedule::phase_of(args.lr_warmup, epoch, args.epochs)
    &&& are_chunks(
        r.chunks@,
        loader::shuffled(loader::below(n_train), r.seed),
        args.pair_shared,
        args.pop as int,
        args.chunk as int,
    )
    &&& r.sigma@.len() == n_lora + n_dense
    &&& forall|i: int|
        0 <= i < r.sigma@.len() ==> #[trigger] r.sigma@[i] == sigma_kind(
            plan.blocks->0,
            n_lora,
            n_dense,
            plan.sites@.len() as int,
            args.freeze_lora,
            i,
        )
    &&& r.frozen == frozen_front(plan.blocks->0, n_lora, args.freeze_lora)
    &&& r.anchors@.len() == (if args.baseline_zero {
        loader::batch_count(n_train, ANCHOR_BATCH as int)
    } else {
        0
    })
    &&& forall|k: int|
        0 <= k < r.anchors@.len() ==> ((#[trigger] r.anchors@[k]).0 as int, r.anchors@[k].1 as int)
            == loader::batch_bounds(n_train, ANCHOR_BATCH as int, k)
    &&& r.adapt == schedule::adapts(args.sigma_adapt, epoch as int, args.sigma_adapt_every as int)
    &&& r.validate == schedule::validated(
        epoch as int,
        args.validate_every as int,
        args.epochs as int,
    )
}

/// Decides an epoch of the factored estimator.
pub fn factored_epoch(
    args: &EsArgs,
    plan: &FactoredPlan,
    n_lora: usize,
    n_dense: usize,
    epoch: u32,
    n_train: usize,
) -> (r: FactoredEpoch)
    requires
        factored_error(*args, n_train as int) is None,
        plan.blocks == options::blocks_of(args.blocks@),
        args.validate_every > 0,
        epoch < args.epochs,
        args.seed + epoch <= u64::MAX,
        n_lora >= 1,
        n_lora + n_dense <= usize::MAX,
        2 * plan.sites@.len() <= n_lora + n_dense,
    ensures
        factored_decided(
            *args,
            *plan,
            n_lora as int,
            n_dense as int,
            epoch,
            n_train as int,
            r,
        ),
{
    let seed: u64 = epoch_seed(args.seed, epoch);
    let blocks = plan.blocks.unwrap();
    let order: Vec<usize> = loader::shuffled_indices(n_train, seed);
    let anchors: Vec<(usize, usize)> = if args.baseline_zero {
        loader::batches(n_train, ANCHOR_BATCH)
    } else {
        Vec::new()
    };
    FactoredEpoch {
        seed,
        doublings: beta_doublings(args.relax, args.beta_anneal_every, epoch),
        lr: lr_phase(args.lr_warmup, epoch, args.epochs),
        chunks: chunks(order.as_slice(), args.pop, args.chunk, args.pair_shared),
        sigma: factored_sigma(blocks, n_lora, n_dense, plan.sites.len(), args.freeze_lora),
        frozen: frozen_slots(blocks, n_lora, args.freeze_lora),
        anchors,
        adapt: adapt_due(args.sigma_adapt, epoch, args.sigma_adapt_every),
        validate: validate_due(epoch, args.validate_every, args.epochs),
    }
}

/// A run that trains weights by gradients, and modulation and thresholds by the evolution
/// strategy.
pub struct MixedPlan {
    /// Modulated sites.
    pub sites: Vec<usize>,
    /// Sites with a threshold of their own.
    pub thresholds: Vec<usize>,
}

/// Candidates of an epoch of a mixed run: each sees the image with its number, so there are no
/// more than images.
pub open spec fn mixed_pop(args: MixedArgs, n_train: int) -> int {
    if args.es_pop < n_train {
        args.es_pop as int
    } else {
        n_train
    }
}

/// Why a mixed run cannot start. Chunks are only needed by an epoch, and there must be an image
/// for each candidate of a full one.
pub open spec fn mixed_error(args: MixedArgs, n_train: int) -> Option<PlanError> {
    let sites = options::chosen_sites(Some(Blocks::Conv), args.qam@, args.qam_sites@);
    if !has_weights(args.weights) {
        Some(PlanError::NoWeights)
    } else if sites is Err {
        Some(sites->Err_0)
    } else if args.epochs > 0 && args.es_chunk == 0 {
        Some(PlanError::ZeroChunk)
    } else if args.epochs > 0 && args.es_pop - args.es_pop % args.es_chunk > n_train {
        Some(PlanError::PopTooLarge)
    } else {
        None
    }
}

/// Plans a mixed run.
pub fn plan_mixed(args: &MixedArgs, n_train: usize) -> (r: Result<MixedPlan, PlanError>)
    ensures
        match r {
            Ok(p) => {
                &&& mixed_error(*args, n_train as int) is None
                &&& options::chosen_sites(Some(Blocks::Conv), args.qam@, args.qam_sites@) == Ok::<
                    Seq<usize>,
                    PlanError,
                >(p.sites@)
                &&& p.thresholds@ == seq![0usize, 1, 2, 3, 4, 5, 6, 7]
            },
            Err(e) => mixed_error(*args, n_train as int) == Some(e),
        },
{
    match weights_path(&args.weights) {
        Some(_) => {}
        None => {
            return Err(PlanError::NoWeights);
        }
    }
    let sites = match choose_sites(
        Some(Blocks::Conv),
        args.qam.as_str(),
        args.qam_sites.as_str(),
    ) {
        Ok(v) => v,
        Err(e) => {
            return Err(e);
        }
    };
    if args.epochs > 0 {
        if args.es_chunk == 0 {
            return Err(PlanError::ZeroChunk);
        }
        proof {
            vstd::arithmetic::div_mod::lemma_mod_decreases(
                args.es_pop as nat,
                args.es_chunk as nat,
            );
        }
        if args.es_pop - args.es_pop % args.es_chunk > n_train {
            return Err(PlanError::PopTooLarge);
        }
    }
    Ok(MixedPlan { sites, thresholds: threshold_sites() })
}

/// How much noise slot `i` takes in a mixed run: none for what gradients train, a fixed amount
/// for modulation and for thresholds.
pub open spec fn mixed_kind(n_lora: int, n_bias: int, n_qam: int, i: int) -> SigmaKind {
    let base = n_lora + n_bias;
    if i < base {
        SigmaKind::Zero
    } else if i < base + 2 * n_qam {
        if (i - base) % 2 == 0 {
            SigmaKind::Amplitude
        } else {
            SigmaKind::Phase
        }
    } else {
        SigmaKind::Threshold
    }
}

/// How much noise each slot takes in a mixed run.
pub fn mixed_sigma(n_lora: usize, n_bias: usize, n_qam: usize, n_vth: usize) -> (r: Vec<SigmaKind>)
    requires
        n_lora + n_bias + 2 * n_qam + n_vth <= usize::MAX,
    ensures
        r@.len() == n_lora + n_bias + 2 * n_qam + n_vth,
        forall|i: int|
            0 <= i < r@.len() ==> #[trigger] r@[i] == mixed_kind(
                n_lora as int,
                n_bias as int,
                n_qam as int,
                i,
            ),
{
    let base: usize = n_lora + n_bias;
    let total: usize = n_lora + n_bias + 2 * n_qam + n_vth;
    let mut r: Vec<SigmaKind> = Vec::new();
    let mut i: usize = 0;
    while i < total
        invariant
            base == n_lora + n_bias,
            total == n_lora + n_bias + 2 * n_qam + n_vth,
            i <= total,
            r@.len() == i,
            forall|j: int|
                0 <= j < i ==> #[trigger] r@[j] == mixed_kind(
                    n_lora as int,
                    n_bias as int,
                    n_qam as int,
                    j,
                ),
        decreases total - i,
    {
        let kind = if i < base {
            SigmaKind::Zero
        } else if i < base + 2 * n_qam {
            if (i - base) % 2 == 0 {
                SigmaKind::Amplitude
            } else {
                SigmaKind::Phase
            }
        } else {
            SigmaKind::Threshold
        };
        r.push(kind);
        i += 1;
    }
    r
}

/// In a mixed run only modulation and thresholds take noise.
pub proof fn mixed_noise_spares_weights(
    dims: ShapeTree,
    depths: int,
    qam: Seq<usize>,
    vth: Seq<usize>,
    i: int,
)
    requires
        0 <= depths,
        0 <= i < all_slots(dims, depths, Blocks::Conv, qam, vth).len(),
    ensures
        ({
            let loc = all_slots(dims, depths, Blocks::Conv, qam, vth)[i].loc;
            let nl = factored::lora_len(depths, Blocks::Conv);
            mixed_kind(nl, nl, qam.len() as int, i) == match loc {
                FLoc::Qam(_, part) => if part == 0 {
                    SigmaKind::Amplitude
                } else {
                    SigmaKind::Phase
                },
                FLoc::Vth(_) => SigmaKind::Threshold,
                _ => SigmaKind::Zero,
            }
        }),
{
    let nl = factored::lora_len(depths, Blocks::Conv);
    let s = all_slots(dims, depths, Blocks::Conv, qam, vth);
    if i < nl {
        assert(s[i] == factored::lora_slot(dims, depths, Blocks::Conv, i));
    } else {
        assert(s[i] == factored::dense_slot(dims, depths, Blocks::Conv, qam, vth, i - nl));
    }
}

/// All that is decided before an epoch of a mixed run.
pub struct MixedEpoch {
    pub seed: u64,
    pub doublings: Option<u32>,
    /// The order in which gradients see the images.
    pub order: Vec<usize>,
    pub lr: LrPhase,
    pub chunks: Vec<Chunk>,
    /// Whether the network is validated afterwards.
    pub validate: bool,
}

/// Whether this is decided before an epoch of a mixed run: gradients see the images in the order
/// of the epoch's seed, and the candidates see the first images, each its own.
pub open spec fn mixed_decided(args: MixedArgs, epoch: u32, n_train: int, r: MixedEpoch) -> bool {
    &&& r.seed == schedule::order_seed(args.seed, epoch)
    &&& r.doublings == schedule::doublings(true, args.beta_anneal_every, epoch)
    &&& r.order@ == loader::shuffled(loader::below(n_train), r.seed)
    &&& loader::is_order(r.order@, n_train)
    &&& r.lr == schedule::cosine_of(epoch, args.epochs)
    &&& are_chunks(
        r.chunks@,
        loader::below(mixed_pop(args, n_train)),
        false,
        mixed_pop(args, n_train),
        args.es_chunk as int,
    )
    &&& r.validate == schedule::validated(
        epoch as int,
        args.validate_every as int,
        args.epochs as int,
    )
}

/// Decides an epoch of a mixed run.
pub fn mixed_epoch(args: &MixedArgs, epoch: u32, n_train: usize) -> (r: MixedEpoch)
    requires
        mixed_error(*args, n_train as int) is None,
        args.validate_every > 0,
        epoch < args.epochs,
        args.seed + epoch <= u64::MAX,
    ensures
        mixed_decided(*args, epoch, n_train as int, r),
{
    let seed: u64 = epoch_seed(args.seed, epoch);
    let pop: usize = if args.es_pop < n_train {
        args.es_pop
    } else {
        n_train
    };
    let first: Vec<usize> = loader::indices_below(pop);
    MixedEpoch {
        seed,
        doublings: beta_doublings(true, args.beta_anneal_every, epoch),
        order: loader::shuffled_indices(n_train, seed),
        lr: schedule::cosine_phase(epoch, args.epochs),
        chunks: chunks(first.as_slice(), pop, args.es_chunk, false),
        validate: validate_due(epoch, args.validate_every, args.epochs),
    }
}

/// What a candidate sees and is. By itself it has the image that the order gives it, and that
/// image's number is its own. With shared images it is numbered by its place, and the pair `q` has
/// the image at place `q` of the order.
pub proof fn candidates_in_full(order: Seq<usize>, p: int)
    requires
        0 <= p,
        2 * p + 1 < order.len() <= usize::MAX,
    ensures
        candidate_id(order, false, p) == order[p],
        candidate_image(order, false, p) == order[p],
        candidate_id(order, true, p) == p,
        candidate_image(order, true, 2 * p) == order[p],
        candidate_image(order, true, 2 * p + 1) == order[p],
{
}

/// The candidate at place `p` of an epoch is in the chunk that `p` divided by the size of chunks
/// gives, at the remainder.
pub proof fn chunks_in_full(
    r: Seq<Chunk>,
    order: Seq<usize>,
    pair_shared: bool,
    pop: int,
    chunk: int,
    p: int,
)
    requires
        // what `chunks` says of its result
        are_chunks(r, order, pair_shared, pop, chunk),
        0 < chunk,
        0 <= p < pop <= order.len() <= usize::MAX,
    ensures
        ({
            let c = r[p / chunk];
            let i = p % chunk;
            &&& 0 <= p / chunk < r.len()
            &&& 0 <= i < c.ids@.len() <= chunk
            &&& c.ids@.len() == c.images@.len()
            &&& c.ids@[i] == if pair_shared {
                p
            } else {
                order[p] as int
            }
            &&& c.images@[i] == if pair_shared {
                order[p / 2]
            } else {
                order[p]
            }
        }),
{
    let k = p / chunk;
    let i = p % chunk;
    vstd::arithmetic::div_mod::lemma_fundamental_div_mod(p, chunk);
    vstd::arithmetic::div_mod::lemma_mod_bound(p, chunk);
    vstd::arithmetic::div_mod::lemma_div_pos_is_pos(p, chunk);
    assert(k * chunk == chunk * k) by (nonlinear_arith);
    vstd::arithmetic::div_mod::lemma_fundamental_div_mod(pop + chunk - 1, chunk);
    vstd::arithmetic::div_mod::lemma_mod_bound(pop + chunk - 1, chunk);
    let n = loader::batch_count(pop, chunk);
    assert(k < n) by (nonlinear_arith)
        requires
            chunk * k <= p,
            p < pop,
            pop + chunk - 1 < chunk * n + chunk,
            chunk > 0,
    ;
    let len = if pop - k * chunk < chunk {
        pop - k * chunk
    } else {
        chunk
    };
    assert(is_chunk(r[k], order, pair_shared, k * chunk, len));
    assert(r[k].ids@[i] == candidate_id(order, pair_shared, k * chunk + i));
    assert(r[k].images@[i] == candidate_image(order, pair_shared, k * chunk + i));
}

/// A cached run starts exactly if its candidates are pairs, its noise has a rank, there are
/// weights, and a generation has images but no more than there are. The first of these that fails
/// is the error.
pub proof fn cache_runs_start_if(args: EsArgs, n_train: int)
    ensures
        ({
            let weights = args.weights matches Some(w) && w@.len() > 0;
            let images = args.pop * args.es_batch;
            let e = cache_error(args, n_train);
            let even = args.pop % 2 == 0;
            let ranked = args.rank > 0;
            &&& e is None <==> even && ranked && weights && 0 < images <= n_train
            &&& e == Some(PlanError::OddPop) <==> !even
            &&& e == Some(PlanError::ZeroRank) <==> even && !ranked
            &&& e == Some(PlanError::NoWeights) <==> even && ranked && !weights
            &&& e == Some(PlanError::EmptyGeneration) <==> even && ranked && weights && images == 0
            &&& e == Some(PlanError::TooManyImages) <==> even && ranked && weights && images
                > n_train && images != 0
            &&& cache_args_error(args) is Some ==> cache_args_error(args) == e
            &&& cache_args_error(args) is None <==> even && ranked
        }),
{
}

/// A factored run starts exactly if each candidate has one image, candidates are pairs and no more
/// than images, there are weights, the fully connected network is not to be rated without noise,
/// the sites are known, and, if there is an epoch, chunks are not empty and the blocks are known.
/// The first of these that fails is the error.
pub proof fn factored_runs_start_if(args: EsArgs, n_train: int)
    ensures
        ({
            let weights = args.weights matches Some(w) && w@.len() > 0;
            let blocks = options::blocks_of(args.blocks@);
            let sites = options::chosen_sites(blocks, args.qam@, args.qam_sites@);
            let single = args.es_batch == 1;
            let even = single && args.pop % 2 == 0;
            let few = even && args.pop <= n_train;
            let weighted = few && weights;
            let rated = weighted && !(blocks == Some(Blocks::Fc) && args.baseline_zero);
            let sited = rated && sites is Ok;
            let chunked = sited && (args.chunk > 0 || args.epochs == 0);
            let e = factored_error(args, n_train);
            &&& e is None <==> chunked && (blocks is Some || args.epochs == 0)
            &&& !single ==> e == Some(PlanError::EsBatch)
            &&& single && !even ==> e == Some(PlanError::OddPop)
            &&& even && !few ==> e == Some(PlanError::PopTooLarge)
            &&& few && !weighted ==> e == Some(PlanError::NoWeights)
            &&& weighted && !rated ==> e == Some(PlanError::AnchorsUnsupported)
            &&& rated && !sited ==> e == Some(sites->Err_0)
            &&& sited && !chunked ==> e == Some(PlanError::ZeroChunk)
            &&& chunked && blocks is None && args.epochs > 0 ==> e == Some(
                PlanError::UnknownBlocks,
            )
            &&& factored_args_error(args) is Some ==> factored_args_error(args) == e
            &&& factored_args_error(args) is None <==> even
        }),
{
}

/// A mixed run starts exactly if there are weights, the sites are known, and, if there is an
/// epoch, chunks are not empty and the full ones have an image for each candidate. The first of
/// these that fails is the error.
pub proof fn mixed_runs_start_if(args: MixedArgs, n_train: int)
    ensures
        ({
            let weights = args.weights matches Some(w) && w@.len() > 0;
            let sites = options::chosen_sites(Some(Blocks::Conv), args.qam@, args.qam_sites@);
            let sited = weights && sites is Ok;
            let chunked = sited && (args.es_chunk > 0 || args.epochs == 0);
            let full = args.es_pop - args.es_pop % args.es_chunk;
            let e = mixed_error(args, n_train);
            &&& e is None <==> chunked && (args.epochs == 0 || full <= n_train)
            &&& !weights ==> e == Some(PlanError::NoWeights)
            &&& weights && !sited ==> e == Some(sites->Err_0)
            &&& sited && !chunked ==> e == Some(PlanError::ZeroChunk)
            &&& chunked && args.epochs > 0 && full > n_train ==> e == Some(PlanError::PopTooLarge)
            &&& mixed_pop(args, n_train) <= args.es_pop
            &&& mixed_pop(args, n_train) <= n_train
            &&& mixed_pop(args, n_train) == args.es_pop || mixed_pop(args, n_train) == n_train
        }),
{
}

/// The noise of a slot by what the slot stands for. Modulation takes fixed amounts, of its own for
/// amplitude and phase; weights of convolutions take none where they are frozen; everything else,
/// the classifier and all biases counted in, takes an amount relative to its size.
pub proof fn noise_by_kind(
    dims: ShapeTree,
    depths: int,
    blocks: Blocks,
    qam: Seq<usize>,
    freeze: bool,
    i: int,
)
    requires
        0 <= depths,
        blocks is Probe ==> qam.len() == 0,
        0 <= i < all_slots(dims, depths, blocks, qam, Seq::empty()).len(),
    ensures
        ({
            let loc = all_slots(dims, depths, blocks, qam, Seq::empty())[i].loc;
            let nl = factored::lora_len(depths, blocks);
            let nd = factored::dense_len(depths, blocks, qam, Seq::empty());
            let kind = sigma_kind(blocks, nl, nd, qam.len() as int, freeze, i);
            &&& kind is Zero <==> freeze && loc is BlkW
            &&& kind is Amplitude <==> loc is Qam && loc->Qam_1 == 0
            &&& kind is Phase <==> loc is Qam && loc->Qam_1 == 1
            &&& kind is Relative <==> !(loc is Qam) && !(freeze && loc is BlkW)
        }),
{
    sigma_follows_slots(dims, depths, blocks, qam, freeze, i);
    let nl = factored::lora_len(depths, blocks);
    let s = all_slots(dims, depths, blocks, qam, Seq::empty());
    if i < nl {
        assert(s[i] == factored::lora_slot(dims, depths, blocks, i));
    } else {
        let d = i - nl;
        assert(s[i] == factored::dense_slot(dims, depths, blocks, qam, Seq::empty(), d));
    }
}

/// What is decided before an epoch of the factored estimator, in terms of the epoch's number. The
/// seed goes up by one each epoch. The sharpness doubles once an interval where spikes are
/// relaxed and the interval is not nothing. The slots that are kept as they are, are those that
/// take no noise. Noiseless ratings cover the images in batches of 512, or there are none. Noise
/// adapts after each interval where it is to, and the first and the last epoch are validated.
pub proof fn factored_epochs_in_full(
    args: EsArgs,
    plan: FactoredPlan,
    n_lora: int,
    n_dense: int,
    epoch: u32,
    n_train: int,
    r: FactoredEpoch,
    i: int,
    k: int,
)
    requires
        // what `factored_epoch` says of its result
        factored_decided(args, plan, n_lora, n_dense, epoch, n_train, r),
        epoch < args.epochs,
        args.validate_every > 0,
        n_lora >= 1,
        2 * plan.sites@.len() <= n_dense,
        0 <= n_train,
    ensures
        r.seed - args.seed == epoch,
        r.doublings is Some <==> args.relax && args.beta_anneal_every > 0,
        r.doublings matches Some(d) ==> d * args.beta_anneal_every <= epoch < (d + 1)
            * args.beta_anneal_every,
        args.lr_warmup == 0 ==> r.lr is Constant,
        0 < args.lr_warmup <= epoch ==> (r.lr matches LrPhase::Cosine(a, b) && a + args.lr_warmup
            == epoch && b + args.lr_warmup == args.epochs),
        0 < args.lr_warmup && epoch < args.lr_warmup ==> (r.lr matches LrPhase::Warmup(a, b) && a
            == epoch + 1 && b == args.lr_warmup),
        0 <= i < r.sigma@.len() ==> (r.sigma@[i] is Zero <==> i < r.frozen),
        r.frozen > 0 ==> args.freeze_lora,
        r.anchors@.len() > 0 <==> args.baseline_zero && n_train > 0,
        0 <= k < r.anchors@.len() ==> {
            let part = r.anchors@[k];
            &&& part.0 == k * 512
            &&& part.1 == if k + 1 < r.anchors@.len() {
                k * 512 + 512
            } else {
                n_train
            }
            &&& part.0 < part.1 <= part.0 + 512
        },
        r.adapt <==> args.sigma_adapt && (args.sigma_adapt_every == 0 || (epoch + 1)
            % args.sigma_adapt_every as int == 0),
        epoch + 1 == args.epochs || epoch == 0 ==> r.validate,
{
    schedule::doublings_count_intervals(args.relax, args.beta_anneal_every, epoch);
    if 0 <= i < r.sigma@.len() {
        assert(r.sigma@[i] == sigma_kind(
            plan.blocks->0,
            n_lora,
            n_dense,
            plan.sites@.len() as int,
            args.freeze_lora,
            i,
        ));
    }
    vstd::arithmetic::div_mod::lemma_fundamental_div_mod(n_train + 511, 512);
    if 0 <= k < r.anchors@.len() {
        assert((r.anchors@[k].0 as int, r.anchors@[k].1 as int) == loader::batch_bounds(
            n_train,
            512,
            k,
        ));
        assert((k + 1) * 512 == k * 512 + 512);
        loader::batches_cover(n_train, 512, k);
        loader::batches_are_full(n_train, 512, k, n_train - 1);
    }
    vstd::arithmetic::div_mod::lemma_small_mod(0, args.validate_every as nat);
}

/// What is decided before an epoch of a mixed run, in terms of the epoch's number. The seed goes
/// up by one each epoch, the gradients' rate is on the cosine from the start, and every candidate
/// sees the image with its own number.
pub proof fn mixed_epochs_in_full(
    args: MixedArgs,
    epoch: u32,
    n_train: int,
    r: MixedEpoch,
    p: int,
)
    requires
        // what `mixed_epoch` says of its result
        mixed_decided(args, epoch, n_train, r),
        args.es_chunk > 0,
        0 <= n_train <= usize::MAX,
    ensures
        r.seed - args.seed == epoch,
        r.doublings is Some <==> args.beta_anneal_every > 0,
        r.doublings matches Some(d) ==> d * args.beta_anneal_every <= epoch < (d + 1)
            * args.beta_anneal_every,
        r.lr matches LrPhase::Cosine(a, b) && a == epoch && b == args.epochs,
        0 <= p < args.es_pop && p < n_train ==> {
            let c = r.chunks@[p / (args.es_chunk as int)];
            &&& c.ids@[p % (args.es_chunk as int)] == p
            &&& c.images@[p % (args.es_chunk as int)] == p
        },
        epoch + 1 == args.epochs ==> r.validate,
{
    schedule::doublings_count_intervals(true, args.beta_anneal_every, epoch);
    let pop = mixed_pop(args, n_train);
    if 0 <= p < pop {
        chunks_in_full(
            r.chunks@,
            loader::below(pop),
            false,
            pop,
            args.es_chunk as int,
            p,
        );
    }
}

/// A plan of a cached run splits an epoch into generations of images, the candidates of a
/// generation one after the other with as many images each.
pub proof fn positions_in_full(p: CachePlan, n_train: int, g: int, c: int, i: int)
    requires
        // what `plan_cache` says of its result
        p.fits(n_train),
    ensures
        p.position(0, 0, i) == i,
        p.position(g, c + 1, i) == p.position(g, c, i) + p.es_batch,
        p.position(g + 1, c, i) == p.position(g, c, i) + p.pop * p.es_batch,
        p.gens_per_epoch * (p.pop * p.es_batch) + p.dropped == n_train,
        p.dropped < p.pop * p.es_batch,
{
    let gi = p.gen_imgs as int;
    vstd::arithmetic::div_mod::lemma_fundamental_div_mod(n_train, gi);
    vstd::arithmetic::div_mod::lemma_mod_bound(n_train, gi);
    assert(p.gens_per_epoch * gi == gi * p.gens_per_epoch) by (nonlinear_arith);
    assert((g + 1) * gi == g * gi + gi) by (nonlinear_arith);
    assert((c + 1) * p.es_batch == c * p.es_batch + p.es_batch) by (nonlinear_arith);
    assert(0 * gi == 0 && 0 * p.es_batch == 0);
}

/// The places of a site's slots lead to the slots of that site: to its amplitude, with its phase
/// behind, or to its threshold, among the parameters and in the `dense` list alike.
pub proof fn site_places_lead_to_their_slots(
    dims: ShapeTree,
    depths: int,
    blocks: Blocks,
    qam: Seq<usize>,
    vth: Seq<usize>,
    k: int,
)
    requires
        0 <= depths,
        !(blocks is Probe),
        blocks is Conv || vth.len() == 0,
        12 * depths + 16 + 2 * qam.len() + vth.len() <= usize::MAX,
    ensures
        ({
            let s = all_slots(dims, depths, blocks, qam, vth);
            let d = factored::dense_list(dims, depths, blocks, qam, vth);
            let nl = factored::lora_len(depths, blocks);
            let nb = factored::bias_len(depths, blocks);
            let nq = qam.len() as int;
            // what `qam_slots` and `vth_slots` say of their results
            let p = qam_place(nl, nb, qam[k], k);
            let t = vth_place(nl, nb, nq, vth[k], k);
            &&& 0 <= k < qam.len() ==> {
                &&& p.site == qam[k]
                &&& s[p.param as int].loc == FLoc::Qam(p.site, 0)
                &&& s[p.param + 1].loc == FLoc::Qam(p.site, 1)
                &&& d[p.dense as int].loc == FLoc::Qam(p.site, 0)
                &&& d[p.dense + 1].loc == FLoc::Qam(p.site, 1)
            }
            &&& 0 <= k < vth.len() ==> {
                &&& t.site == vth[k]
                &&& s[t.param as int].loc == FLoc::Vth(t.site)
                &&& d[t.dense as int].loc == FLoc::Vth(t.site)
            }
        }),
{
    site_slots_are_found(dims, depths, blocks, qam, vth, k);
}

/// The megabytes of the kept noise are whole ones: it takes at least so many, and less than one
/// more.
pub proof fn megabytes_are_whole(pop: int, num_params: int)
    requires
        0 <= pop,
        0 <= num_params,
    ensures
        0x10_0000 * megabytes(pop, num_params) <= 4 * (pop * num_params),
        4 * (pop * num_params) < 0x10_0000 * (megabytes(pop, num_params) + 1),
{
    let b = pop * num_params * 4;
    assert(b == 4 * (pop * num_params)) by (nonlinear_arith)
        requires
            b == pop * num_params * 4,
    ;
}

/// The parameters that are put back after a step are exactly the weights of convolutions, and only
/// if they are frozen; they stand at the front of the list.
pub proof fn frozen_parameters_are_convolutions(
    dims: ShapeTree,
    depths: int,
    blocks: Blocks,
    qam: Seq<usize>,
    vth: Seq<usize>,
    freeze: bool,
    i: int,
)
    requires
        0 <= depths,
        0 <= i < all_slots(dims, depths, blocks, qam, vth).len(),
    ensures
        i < frozen_front(blocks, factored::lora_len(depths, blocks), freeze) <==> freeze
            && all_slots(dims, depths, blocks, qam, vth)[i].loc is BlkW,
{
    let nl = factored::lora_len(depths, blocks);
    let s = all_slots(dims, depths, blocks, qam, vth);
    if i < nl {
        assert(s[i] == factored::lora_slot(dims, depths, blocks, i));
    } else {
        assert(s[i] == factored::dense_slot(dims, depths, blocks, qam, vth, i - nl));
    }
}

} // verus!
