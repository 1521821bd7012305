//! The loops of the evolution strategy. What a rating does to the sums of an update, and what an
//! update does to the parameters, is given by functions.

use crate::es_plan;
use crate::es_plan::{
    candidate_images, factored_epoch, mixed_epoch, CachePlan, Chunk, FactoredEpoch, FactoredPlan,
    MixedEpoch,
};
use crate::loader;
use crate::options;
use crate::options::{EsArgs, MixedArgs};
use vstd::prelude::*;

verus! {

/// Sums of a generation, one for each number of candidates that were rated: each candidate of
/// generation `g` is rated in turn, on its own images.
pub open spec fn generation<P, A, FR: Fn(&P, usize, &Vec<usize>, A) -> A>(
    rate: FR,
    plan: CachePlan,
    order: Seq<usize>,
    g: int,
    params: P,
    accs: Seq<A>,
) -> bool {
    &&& accs.len() == plan.pop + 1
    &&& forall|c: int| 0 <= c < plan.pop ==> #[trigger] candidate_rated(rate, plan, order, g, params, accs, c)
}

/// Whether candidate `c` was rated on its images.
pub open spec fn candidate_rated<P, A, FR: Fn(&P, usize, &Vec<usize>, A) -> A>(
    rate: FR,
    plan: CachePlan,
    order: Seq<usize>,
    g: int,
    params: P,
    accs: Seq<A>,
    c: int,
) -> bool {
    exists|imgs: Vec<usize>|
        images_of(plan, order, g, c, imgs@) && #[trigger] rate.ensures(
            (&params, c as usize, &imgs, accs[c]),
            accs[c + 1],
        )
}

/// Whether these are the images of candidate `c` of generation `g`.
pub open spec fn images_of(
    plan: CachePlan,
    order: Seq<usize>,
    g: int,
    c: int,
    imgs: Seq<usize>,
) -> bool {
    &&& imgs.len() == plan.es_batch
    &&& forall|i: int| 0 <= i < imgs.len() ==> #[trigger] imgs[i] == order[plan.position(g, c, i)]
}

/// Rates the candidates of a generation.
pub fn run_generation<P, A, FR: Fn(&P, usize, &Vec<usize>, A) -> A>(
    plan: &CachePlan,
    order: &[usize],
    g: usize,
    params: &P,
    start: A,
    rate: &FR,
) -> (r: A)
    requires
        plan.fits(order@.len() as int),
        g < plan.gens_per_epoch,
        forall|p: &P, c: usize, v: &Vec<usize>, a: A| rate.requires((p, c, v, a)),
    ensures
        exists|accs: Seq<A>|
            #[trigger] generation(*rate, *plan, order@, g as int, *params, accs) && accs[0] == start
                && accs.last() == r,
{
    let mut acc: A = start;
    let ghost mut accs: Seq<A> = seq![start];
    let mut c: usize = 0;
    while c < plan.pop
        invariant
            c <= plan.pop,
            plan.fits(order@.len() as int),
            g < plan.gens_per_epoch,
            accs.len() == c + 1,
            accs[0] == start,
            accs[c as int] == acc,
            forall|k: int|
                0 <= k < c ==> #[trigger] candidate_rated(
                    *rate,
                    *plan,
                    order@,
                    g as int,
                    *params,
                    accs,
                    k,
                ),
            forall|p: &P, c: usize, v: &Vec<usize>, a: A| rate.requires((p, c, v, a)),
        decreases plan.pop - c,
    {
        let imgs: Vec<usize> = candidate_images(plan, order, g, c);
        let ghost a0 = acc;
        acc = rate(params, c, &imgs, acc);
        proof {
            let before = accs;
            accs = accs.push(acc);
            assert(images_of(*plan, order@, g as int, c as int, imgs@));
            assert(rate.ensures((params, c as int as usize, &imgs, accs[c as int]), accs[c + 1]));
            assert(candidate_rated(*rate, *plan, order@, g as int, *params, accs, c as int));
            assert forall|k: int| 0 <= k < c implies #[trigger] candidate_rated(
                *rate,
                *plan,
                order@,
                g as int,
                *params,
                accs,
                k,
            ) by {
                assert(candidate_rated(*rate, *plan, order@, g as int, *params, before, k));
                assert(accs[k] == before[k] && accs[k + 1] == before[k + 1]);
            }
        }
        c += 1;
    }
    assert(generation(*rate, *plan, order@, g as int, *params, accs));
    acc
}

/// Whether generation `g` leads from parameters `a` to `b`: sums start from `a`, every candidate
/// is rated with `a`, and one step is made with the sums.
pub open spec fn generation_made<
    P,
    A,
    FS: Fn(&P) -> A,
    FR: Fn(&P, usize, &Vec<usize>, A) -> A,
    FU: Fn(P, A) -> P,
>(
    start: FS,
    rate: FR,
    step: FU,
    plan: CachePlan,
    order: Seq<usize>,
    g: int,
    a: P,
    b: P,
) -> bool {
    exists|accs: Seq<A>|
        #[trigger] generation(rate, plan, order, g, a, accs) && start.ensures((&a,), accs[0])
            && step.ensures((a, accs.last()), b)
}

/// Parameters of an epoch, one for each number of generations that were made.
pub open spec fn cache_epoch_made<
    P,
    A,
    FS: Fn(&P) -> A,
    FR: Fn(&P, usize, &Vec<usize>, A) -> A,
    FU: Fn(P, A) -> P,
>(
    start: FS,
    rate: FR,
    step: FU,
    plan: CachePlan,
    order: Seq<usize>,
    ps: Seq<P>,
) -> bool {
    &&& ps.len() == plan.gens_per_epoch + 1
    &&& forall|g: int|
        0 <= g < plan.gens_per_epoch ==> #[trigger] generation_made(
            start,
            rate,
            step,
            plan,
            order,
            g,
            ps[g],
            ps[g + 1],
        )
}

/// An epoch of a run that keeps all noise: one step for each generation.
pub fn cache_epoch<
    P,
    A,
    FS: Fn(&P) -> A,
    FR: Fn(&P, usize, &Vec<usize>, A) -> A,
    FU: Fn(P, A) -> P,
>(plan: &CachePlan, order: &[usize], params: P, start: &FS, rate: &FR, step: &FU) -> (r: P)
    requires
        plan.fits(order@.len() as int),
        forall|p: &P| start.requires((p,)),
        forall|p: &P, c: usize, v: &Vec<usize>, a: A| rate.requires((p, c, v, a)),
        forall|p: P, a: A| step.requires((p, a)),
    ensures
        exists|ps: Seq<P>|
            #[trigger] cache_epoch_made(*start, *rate, *step, *plan, order@, ps) && ps[0] == params
                && ps.last() == r,
{
    let mut p: P = params;
    let ghost mut ps: Seq<P> = seq![p];
    let mut g: usize = 0;
    while g < plan.gens_per_epoch
        invariant
            g <= plan.gens_per_epoch,
            plan.fits(order@.len() as int),
            ps.len() == g + 1,
            ps[0] == params,
            ps[g as int] == p,
            forall|k: int|
                0 <= k < g ==> #[trigger] generation_made(
                    *start,
                    *rate,
                    *step,
                    *plan,
                    order@,
                    k,
                    ps[k],
                    ps[k + 1],
                ),
            forall|p: &P| start.requires((p,)),
            forall|p: &P, c: usize, v: &Vec<usize>, a: A| rate.requires((p, c, v, a)),
            forall|p: P, a: A| step.requires((p, a)),
        decreases plan.gens_per_epoch - g,
    {
        let ghost a = p;
        let first: A = start(&p);
        let sums: A = run_generation(plan, order, g, &p, first, rate);
        p = step(p, sums);
        proof {
            let before = ps;
            ps = ps.push(p);
            let accs = choose|accs: Seq<A>|
                #[trigger] generation(*rate, *plan, order@, g as int, a, accs) && accs[0] == first
                    && accs.last() == sums;
            assert(generation(*rate, *plan, order@, g as int, a, accs));
            assert(generation_made(*start, *rate, *step, *plan, order@, g as int, a, p));
            assert forall|k: int| 0 <= k < g + 1 implies #[trigger] generation_made(
                *start,
                *rate,
                *step,
                *plan,
                order@,
                k,
                ps[k],
                ps[k + 1],
            ) by {
                if k < g {
                    assert(generation_made(
                        *start,
                        *rate,
                        *step,
                        *plan,
                        order@,
                        k,
                        before[k],
                        before[k + 1],
                    ));
                }
            }
        }
        g += 1;
    }
    assert(cache_epoch_made(*start, *rate, *step, *plan, order@, ps));
    p
}

/// Sums of an epoch of the factored estimator, one for each number of chunks that were rated.
pub open spec fn chunks_rated<A, FR: Fn(&Chunk, A) -> A>(
    rate: FR,
    chunks: Seq<Chunk>,
    accs: Seq<A>,
) -> bool {
    &&& accs.len() == chunks.len() + 1
    &&& forall|k: int|
        0 <= k < chunks.len() ==> rate.ensures((&#[trigger] chunks[k], accs[k]), accs[k + 1])
}

/// Rates all chunks in order.
pub fn rate_chunks<A, FR: Fn(&Chunk, A) -> A>(chunks: &Vec<Chunk>, start: A, rate: &FR) -> (r: A)
    requires
        forall|c: &Chunk, a: A| rate.requires((c, a)),
    ensures
        exists|accs: Seq<A>|
            #[trigger] chunks_rated(*rate, chunks@, accs) && accs[0] == start && accs.last() == r,
{
    let mut acc: A = start;
    let ghost mut accs: Seq<A> = seq![start];
    let mut k: usize = 0;
    while k < chunks.len()
        invariant
            k <= chunks@.len(),
            accs.len() == k + 1,
            accs[0] == start,
            accs[k as int] == acc,
            forall|i: int|
                0 <= i < k ==> rate.ensures((&#[trigger] chunks@[i], accs[i]), accs[i + 1]),
            forall|c: &Chunk, a: A| rate.requires((c, a)),
        decreases chunks@.len() - k,
    {
        let ghost before = accs;
        acc = rate(&chunks[k], acc);
        proof {
            accs = accs.push(acc);
            assert forall|i: int| 0 <= i < k + 1 implies rate.ensures(
                (&#[trigger] chunks@[i], accs[i]),
                accs[i + 1],
            ) by {
                if i < k {
                    assert(accs[i] == before[i] && accs[i + 1] == before[i + 1]);
                }
            }
        }
        k += 1;
    }
    assert(chunks_rated(*rate, chunks@, accs));
    acc
}

/// Puts saved parameters back at the front of the list.
pub fn restore_front<M>(params: &mut Vec<M>, saved: Vec<M>)
    requires
        saved@.len() <= old(params)@.len(),
    ensures
        final(params)@ == saved@ + old(params)@.skip(saved@.len() as int),
{
    let ghost before = params@;
    let n: usize = saved.len();
    let mut i: usize = 0;
    for s in it: saved
        invariant
            it.seq() == saved@,
            n == saved@.len(),
            n <= before.len(),
            i == it.index(),
            params@.len() == before.len(),
            forall|k: int| 0 <= k < i ==> #[trigger] params@[k] == saved@[k],
            forall|k: int| i <= k < before.len() ==> #[trigger] params@[k] == before[k],
    {
        params.set(i, s);
        i += 1;
    }
    assert(params@ =~= saved@ + before.skip(n as int));
}

/// A step that leaves the first `frozen` parameters as they are: they are put aside before it and
/// put back after it.
pub fn frozen_step<M, FK: Fn(&M) -> M, FS: Fn(Vec<M>) -> Vec<M>>(
    params: Vec<M>,
    frozen: usize,
    keep: &FK,
    step: &FS,
) -> (r: Vec<M>)
    requires
        frozen <= params@.len(),
        forall|m: &M| keep.requires((m,)),
        forall|m: &M, c: M| #[trigger] keep.ensures((m,), c) ==> c == *m,
        step.requires((params,)),
        forall|s: Vec<M>| #[trigger] step.ensures((params,), s) ==> s@.len() == params@.len(),
    ensures
        r@.take(frozen as int) == params@.take(frozen as int),
        exists|s: Vec<M>|
            #[trigger] step.ensures((params,), s) && r@ == params@.take(frozen as int) + s@.skip(
                frozen as int,
            ),
{
    let mut saved: Vec<M> = Vec::new();
    let mut i: usize = 0;
    while i < frozen
        invariant
            i <= frozen <= params@.len(),
            forall|m: &M| keep.requires((m,)),
            forall|m: &M, c: M| #[trigger] keep.ensures((m,), c) ==> c == *m,
            saved@ == params@.take(i as int),
        decreases frozen - i,
    {
        saved.push(keep(&params[i]));
        i += 1;
        assert(saved@ =~= params@.take(i as int));
    }
    let ghost before = params;
    let mut r: Vec<M> = step(params);
    let ghost stepped = r;
    restore_front(&mut r, saved);
    assert(step.ensures((before,), stepped));
    assert(r@.take(frozen as int) =~= before@.take(frozen as int));
    r
}

/// Whether epoch `k` of the factored estimator leads from state `a` to `b`.
pub open spec fn factored_epoch_made<P, F: Fn(P, &FactoredEpoch, u32) -> P>(
    step: F,
    args: EsArgs,
    plan: FactoredPlan,
    n_lora: int,
    n_dense: int,
    n_train: int,
    k: int,
    a: P,
    b: P,
) -> bool {
    exists|e: FactoredEpoch|
        es_plan::factored_decided(args, plan, n_lora, n_dense, k as u32, n_train, e)
            && #[trigger] step.ensures((a, &e, k as u32), b)
}

/// States of a run of the factored estimator, one for each number of epochs that were made.
pub open spec fn factored_run_made<P, F: Fn(P, &FactoredEpoch, u32) -> P>(
    step: F,
    args: EsArgs,
    plan: FactoredPlan,
    n_lora: int,
    n_dense: int,
    n_train: int,
    ps: Seq<P>,
) -> bool {
    &&& ps.len() == args.epochs + 1
    &&& forall|k: int|
        0 <= k < args.epochs ==> #[trigger] factored_epoch_made(
            step,
            args,
            plan,
            n_lora,
            n_dense,
            n_train,
            k,
            ps[k],
            ps[k + 1],
        )
}

/// Runs all epochs of the factored estimator.
pub fn factored_run<P, F: Fn(P, &FactoredEpoch, u32) -> P>(
    args: &EsArgs,
    plan: &FactoredPlan,
    n_lora: usize,
    n_dense: usize,
    n_train: usize,
    start: P,
    step: &F,
) -> (r: P)
    requires
        es_plan::factored_error(*args, n_train as int) is None,
        plan.blocks == options::blocks_of(args.blocks@),
        args.epochs > 0 ==> args.validate_every > 0,
        args.seed + args.epochs <= u64::MAX + 1,
        n_lora >= 1,
        n_lora + n_dense <= usize::MAX,
        2 * plan.sites@.len() <= n_lora + n_dense,
        forall|p: P, e: &FactoredEpoch, k: u32| step.requires((p, e, k)),
    ensures
        exists|ps: Seq<P>|
            #[trigger] factored_run_made(
                *step,
                *args,
                *plan,
                n_lora as int,
                n_dense as int,
                n_train as int,
                ps,
            ) && ps[0] == start && ps.last() == r,
{
    let mut p: P = start;
    let ghost mut ps: Seq<P> = seq![start];
    let mut k: u32 = 0;
    while k < args.epochs
        invariant
            k <= args.epochs,
            es_plan::factored_error(*args, n_train as int) is None,
            plan.blocks == options::blocks_of(args.blocks@),
            args.epochs > 0 ==> args.validate_every > 0,
            args.seed + args.epochs <= u64::MAX + 1,
            n_lora >= 1,
            n_lora + n_dense <= usize::MAX,
            2 * plan.sites@.len() <= n_lora + n_dense,
            forall|p: P, e: &FactoredEpoch, k: u32| step.requires((p, e, k)),
            ps.len() == k + 1,
            ps[0] == start,
            ps.last() == p,
            forall|i: int|
                0 <= i < k ==> #[trigger] factored_epoch_made(
                    *step,
                    *args,
                    *plan,
                    n_lora as int,
                    n_dense as int,
                    n_train as int,
                    i,
                    ps[i],
                    ps[i + 1],
                ),
        decreases args.epochs - k,
    {
        let e = factored_epoch(args, plan, n_lora, n_dense, k, n_train);
        let ghost before = p;
        p = step(p, &e, k);
        proof {
            let old_ps = ps;
            ps = ps.push(p);
            assert(step.ensures((before, &e, k as int as u32), p));
            assert forall|i: int| 0 <= i < k + 1 implies #[trigger] factored_epoch_made(
                *step,
                *args,
                *plan,
                n_lora as int,
                n_dense as int,
                n_train as int,
                i,
                ps[i],
                ps[i + 1],
            ) by {
                if i < k {
                    assert(factored_epoch_made(
                        *step,
                        *args,
                        *plan,
                        n_lora as int,
                        n_dense as int,
                        n_train as int,
                        i,
                        old_ps[i],
                        old_ps[i + 1],
                    ));
                }
            }
        }
        k += 1;
    }
    assert(factored_run_made(
        *step,
        *args,
        *plan,
        n_lora as int,
        n_dense as int,
        n_train as int,
        ps,
    ));
    p
}

/// Whether epoch `k` of a mixed run leads from state `a` to `b`.
pub open spec fn mixed_epoch_made<P, F: Fn(P, &MixedEpoch, u32) -> P>(
    step: F,
    args: MixedArgs,
    n_train: int,
    k: int,
    a: P,
    b: P,
) -> bool {
    exists|e: MixedEpoch|
        es_plan::mixed_decided(args, k as u32, n_train, e) && #[trigger] step.ensures(
            (a, &e, k as u32),
            b,
        )
}

/// States of a mixed run, one for each number of epochs that were made.
pub open spec fn mixed_run_made<P, F: Fn(P, &MixedEpoch, u32) -> P>(
    step: F,
    args: MixedArgs,
    n_train: int,
    ps: Seq<P>,
) -> bool {
    &&& ps.len() == args.epochs + 1
    &&& forall|k: int|
        0 <= k < args.epochs ==> #[trigger] mixed_epoch_made(
            step,
            args,
            n_train,
            k,
            ps[k],
            ps[k + 1],
        )
}

/// Runs all epochs of a mixed run.
pub fn mixed_run<P, F: Fn(P, &MixedEpoch, u32) -> P>(
    args: &MixedArgs,
    n_train: usize,
    start: P,
    step: &F,
) -> (r: P)
    requires
        es_plan::mixed_error(*args, n_train as int) is None,
        args.epochs > 0 ==> args.validate_every > 0,
        args.seed + args.epochs <= u64::MAX + 1,
        forall|p: P, e: &MixedEpoch, k: u32| step.requires((p, e, k)),
    ensures
        exists|ps: Seq<P>|
            #[trigger] mixed_run_made(*step, *args, n_train as int, ps) && ps[0] == start
                && ps.last() == r,
{
    let mut p: P = start;
    let ghost mut ps: Seq<P> = seq![start];
    let mut k: u32 = 0;
    while k < args.epochs
        invariant
            k <= args.epochs,
            es_plan::mixed_error(*args, n_train as int) is None,
            args.epochs > 0 ==> args.validate_every > 0,
            args.seed + args.epochs <= u64::MAX + 1,
            forall|p: P, e: &MixedEpoch, k: u32| step.requires((p, e, k)),
            ps.len() == k + 1,
            ps[0] == start,
            ps.last() == p,
            forall|i: int|
                0 <= i < k ==> #[trigger] mixed_epoch_made(
                    *step,
                    *args,
                    n_train as int,
                    i,
                    ps[i],
                    ps[i + 1],
                ),
        decreases args.epochs - k,
    {
        let e = mixed_epoch(args, k, n_train);
        let ghost before = p;
        p = step(p, &e, k);
        proof {
            let old_ps = ps;
            ps = ps.push(p);
            assert(step.ensures((before, &e, k as int as u32), p));
            assert forall|i: int| 0 <= i < k + 1 implies #[trigger] mixed_epoch_made(
                *step,
                *args,
                n_train as int,
                i,
                ps[i],
                ps[i + 1],
            ) by {
                if i < k {
                    assert(mixed_epoch_made(
                        *step,
                        *args,
                        n_train as int,
                        i,
                        old_ps[i],
                        old_ps[i + 1],
                    ));
                }
            }
        }
        k += 1;
    }
    assert(mixed_run_made(*step, *args, n_train as int, ps));
    p
}

/// The items of the first `k` lists, one after the other.
pub open spec fn joined<A>(outs: Seq<Vec<A>>, k: int) -> Seq<A>
    decreases k,
{
    if k <= 0 {
        Seq::empty()
    } else {
        joined(outs, k - 1) + outs[k - 1]@
    }
}

/// Whether these are the ratings of all parts.
pub open spec fn parts_rated<A, F: Fn(usize, usize) -> Vec<A>>(
    rate: F,
    parts: Seq<(usize, usize)>,
    outs: Seq<Vec<A>>,
) -> bool {
    &&& outs.len() == parts.len()
    &&& forall|k: int|
        0 <= k < parts.len() ==> rate.ensures(
            ((#[trigger] parts[k]).0, parts[k].1),
            outs[k],
        )
}

/// Ratings without noise, part by part.
pub fn zero_noise_anchors<A, F: Fn(usize, usize) -> Vec<A>>(
    parts: &Vec<(usize, usize)>,
    rate: &F,
) -> (r: Vec<A>)
    requires
        forall|lo: usize, hi: usize| rate.requires((lo, hi)),
    ensures
        exists|outs: Seq<Vec<A>>|
            #[trigger] parts_rated(*rate, parts@, outs) && r@ == joined(outs, outs.len() as int),
{
    let mut r: Vec<A> = Vec::new();
    let ghost mut outs: Seq<Vec<A>> = Seq::empty();
    let mut k: usize = 0;
    while k < parts.len()
        invariant
            k <= parts@.len(),
            forall|lo: usize, hi: usize| rate.requires((lo, hi)),
            outs.len() == k,
            r@ == joined(outs, k as int),
            forall|i: int|
                0 <= i < k ==> rate.ensures(((#[trigger] parts@[i]).0, parts@[i].1), outs[i]),
        decreases parts@.len() - k,
    {
        let mut v: Vec<A> = rate(parts[k].0, parts[k].1);
        let ghost out = v;
        r.append(&mut v);
        proof {
            let old_outs = outs;
            outs = outs.push(out);
            joined_stays(old_outs, outs, k as int);
        }
        k += 1;
    }
    assert(parts_rated(*rate, parts@, outs));
    r
}

/// What the first lists hold does not depend on those behind.
proof fn joined_stays<A>(a: Seq<Vec<A>>, b: Seq<Vec<A>>, k: int)
    requires
        k <= a.len() <= b.len(),
        forall|i: int| 0 <= i < a.len() ==> #[trigger] b[i] == a[i],
    ensures
        joined(a, k) == joined(b, k),
    decreases k,
{
    if k > 0 {
        joined_stays(a, b, k - 1);
    }
}

/// The rating of an image stands at the image's own place, if each part gives one rating for each
/// of its images: rating `i` of part `k` is that of image `lo + i`.
pub proof fn anchors_stand_at_images<A>(outs: Seq<Vec<A>>, n: int, size: int, k: int, i: int)
    requires
        0 <= n,
        size > 0,
        outs.len() == loader::batch_count(n, size),
        forall|j: int|
            0 <= j < outs.len() ==> (#[trigger] outs[j])@.len() == loader::batch_bounds(
                n,
                size,
                j,
            ).1 - loader::batch_bounds(n, size, j).0,
        0 <= k < outs.len(),
        0 <= i < outs[k]@.len(),
    ensures
        joined(outs, outs.len() as int).len() == n,
        joined(outs, outs.len() as int)[loader::batch_bounds(n, size, k).0 + i] == outs[k]@[i],
{
    joined_length(outs, n, size, outs.len() as int);
    loader::batches_cover(n, size, outs.len() - 1);
    joined_place(outs, n, size, outs.len() as int, k, i);
}

/// The first `m` parts give as many ratings as they have images.
proof fn joined_length<A>(outs: Seq<Vec<A>>, n: int, size: int, m: int)
    requires
        0 <= n,
        size > 0,
        0 <= m <= outs.len() == loader::batch_count(n, size),
        forall|j: int|
            0 <= j < outs.len() ==> (#[trigger] outs[j])@.len() == loader::batch_bounds(
                n,
                size,
                j,
            ).1 - loader::batch_bounds(n, size, j).0,
    ensures
        joined(outs, m).len() == if m == 0 {
            0
        } else {
            loader::batch_bounds(n, size, m - 1).1
        },
    decreases m,
{
    if m > 0 {
        joined_length(outs, n, size, m - 1);
        loader::batches_cover(n, size, m - 1);
        if m > 1 {
            loader::batches_cover(n, size, m - 2);
        }
    }
}

/// Where the ratings of part `k` stand among those of the first `m`.
proof fn joined_place<A>(outs: Seq<Vec<A>>, n: int, size: int, m: int, k: int, i: int)
    requires
        0 <= n,
        size > 0,
        0 <= k < m <= outs.len() == loader::batch_count(n, size),
        forall|j: int|
            0 <= j < outs.len() ==> (#[trigger] outs[j])@.len() == loader::batch_bounds(
                n,
                size,
                j,
            ).1 - loader::batch_bounds(n, size, j).0,
        0 <= i < outs[k]@.len(),
    ensures
        loader::batch_bounds(n, size, k).0 + i < joined(outs, m).len(),
        joined(outs, m)[loader::batch_bounds(n, size, k).0 + i] == outs[k]@[i],
    decreases m,
{
    joined_length(outs, n, size, m - 1);
    joined_length(outs, n, size, m);
    loader::batches_cover(n, size, k);
    if m - 1 > k {
        joined_place(outs, n, size, m - 1, k, i);
    } else if k > 0 {
        loader::batches_cover(n, size, k - 1);
    }
}

/// The images that a candidate is rated on: those at its own places of the order, which follow
/// each other, candidate after candidate and generation after generation.
pub proof fn candidates_are_rated_on_their_images<P, A, FR: Fn(&P, usize, &Vec<usize>, A) -> A>(
    rate: FR,
    plan: CachePlan,
    order: Seq<usize>,
    g: int,
    params: P,
    accs: Seq<A>,
    c: int,
)
    requires
        // what `run_generation` says of its states
        generation(rate, plan, order, g, params, accs),
        plan.fits(order.len() as int),
        0 <= c < plan.pop,
    ensures
        accs.len() == plan.pop + 1,
        exists|imgs: Vec<usize>|
            imgs@.len() == plan.es_batch && (forall|i: int|
                0 <= i < imgs@.len() ==> #[trigger] imgs@[i] == order[(g * plan.pop + c)
                    * plan.es_batch + i]) && #[trigger] rate.ensures(
                (&params, c as usize, &imgs, accs[c]),
                accs[c + 1],
            ),
{
    assert(candidate_rated(rate, plan, order, g, params, accs, c));
    let imgs = choose|imgs: Vec<usize>|
        images_of(plan, order, g, c, imgs@) && #[trigger] rate.ensures(
            (&params, c as usize, &imgs, accs[c]),
            accs[c + 1],
        );
    assert forall|i: int| 0 <= i < imgs@.len() implies #[trigger] imgs@[i] == order[(g * plan.pop
        + c) * plan.es_batch + i] by {
        assert(imgs@[i] == order[plan.position(g, c, i)]);
        let p = plan.pop as int;
        let m = plan.es_batch as int;
        assert((g * p + c) * m == g * (p * m) + c * m) by (nonlinear_arith);
    }
}

/// A generation starts from nothing with the parameters as they are, and one step is made of all
/// its ratings.
pub proof fn generations_step_once<
    P,
    A,
    FS: Fn(&P) -> A,
    FR: Fn(&P, usize, &Vec<usize>, A) -> A,
    FU: Fn(P, A) -> P,
>(
    start: FS,
    rate: FR,
    step: FU,
    plan: CachePlan,
    order: Seq<usize>,
    ps: Seq<P>,
    g: int,
)
    requires
        // what `cache_epoch` says of its states
        cache_epoch_made(start, rate, step, plan, order, ps),
        0 <= g < plan.gens_per_epoch,
    ensures
        ps.len() == plan.gens_per_epoch + 1,
        exists|accs: Seq<A>|
            #[trigger] generation(rate, plan, order, g, ps[g], accs) && accs.len() == plan.pop + 1
                && start.ensures((&ps[g],), accs[0]) && step.ensures(
                (ps[g], accs[plan.pop as int]),
                ps[g + 1],
            ),
{
    assert(generation_made(start, rate, step, plan, order, g, ps[g], ps[g + 1]));
    let accs = choose|accs: Seq<A>|
        #[trigger] generation(rate, plan, order, g, ps[g], accs) && start.ensures(
            (&ps[g],),
            accs[0],
        ) && step.ensures((ps[g], accs.last()), ps[g + 1]);
    assert(accs.last() == accs[plan.pop as int]);
}

/// A factored run takes one step for each epoch, with what is decided for that epoch, from the
/// state that the epoch before left.
pub proof fn factored_epochs_follow_each_other<P, F: Fn(P, &FactoredEpoch, u32) -> P>(
    step: F,
    args: EsArgs,
    plan: FactoredPlan,
    n_lora: int,
    n_dense: int,
    n_train: int,
    ps: Seq<P>,
    k: int,
)
    requires
        // what `factored_run` says of its states
        factored_run_made(step, args, plan, n_lora, n_dense, n_train, ps),
        0 <= k < args.epochs,
    ensures
        ps.len() == args.epochs + 1,
        exists|e: FactoredEpoch|
            e.seed == args.seed + k && es_plan::factored_decided(
                args,
                plan,
                n_lora,
                n_dense,
                k as u32,
                n_train,
                e,
            ) && #[trigger] step.ensures((ps[k], &e, k as u32), ps[k + 1]),
{
    assert(factored_epoch_made(
        step,
        args,
        plan,
        n_lora,
        n_dense,
        n_train,
        k,
        ps[k],
        ps[k + 1],
    ));
}

/// A mixed run takes one step for each epoch, with what is decided for that epoch, from the state
/// that the epoch before left.
pub proof fn mixed_epochs_follow_each_other<P, F: Fn(P, &MixedEpoch, u32) -> P>(
    step: F,
    args: MixedArgs,
    n_train: int,
    ps: Seq<P>,
    k: int,
)
    requires
        // what `mixed_run` says of its states
        mixed_run_made(step, args, n_train, ps),
        0 <= k < args.epochs,
    ensures
        ps.len() == args.epochs + 1,
        exists|e: MixedEpoch|
            e.seed == args.seed + k && es_plan::mixed_decided(args, k as u32, n_train, e)
                && #[trigger] step.ensures((ps[k], &e, k as u32), ps[k + 1]),
{
    assert(mixed_epoch_made(step, args, n_train, k, ps[k], ps[k + 1]));
}

/// Chunks are rated one after the other, each on what the ones before gave, and the parts of the
/// noiseless rating stand one behind the other in the order of the images.
pub proof fn chunks_follow_each_other<A, B, FR: Fn(&Chunk, A) -> A, F: Fn(usize, usize) -> Vec<B>>(
    rate: FR,
    chunks: Seq<Chunk>,
    accs: Seq<A>,
    anchor: F,
    parts: Seq<(usize, usize)>,
    outs: Seq<Vec<B>>,
    k: int,
)
    requires
        // what `rate_chunks` and `zero_noise_anchors` say
        chunks_rated(rate, chunks, accs),
        parts_rated(anchor, parts, outs),
        0 <= k,
    ensures
        accs.len() == chunks.len() + 1,
        k < chunks.len() ==> rate.ensures((&chunks[k], accs[k]), accs[k + 1]),
        k < parts.len() ==> anchor.ensures((parts[k].0, parts[k].1), outs[k]),
        k < outs.len() ==> joined(outs, k + 1) == joined(outs, k) + outs[k]@,
        joined(outs, 0) == Seq::<B>::empty(),
{
    if k < chunks.len() {
        assert(rate.ensures((&chunks[k], accs[k]), accs[k + 1]));
    }
    if k < parts.len() {
        assert(anchor.ensures((parts[k].0, parts[k].1), outs[k]));
    }
}

} // verus!
