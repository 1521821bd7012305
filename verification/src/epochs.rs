//! The loops that all kinds of training share: epochs with their orders, batches of an epoch, and
//! the count of right answers. What happens to a model, and what a model answers, is given by
//! functions.

use crate::loader;
use crate::loader::{batches, count_correct, shuffled_indices};
use crate::schedule;
use crate::schedule::{epoch_seed, validate_due};
use vstd::prelude::*;

verus! {

/// Whether epoch `k` leads from model `a` to `b`: it sees each image once, in the order of its
/// seed, and is told whether to validate.
pub open spec fn epoch_made<P, F: Fn(P, u32, &Vec<usize>, bool) -> P>(
    step: F,
    seed: u64,
    epochs: u32,
    every: u32,
    n_train: int,
    k: int,
    a: P,
    b: P,
) -> bool {
    exists|order: Vec<usize>|
        order@ == loader::shuffled(loader::below(n_train), (seed + k) as u64) && loader::is_order(
            order@,
            n_train,
        ) && #[trigger] step.ensures(
            (a, k as u32, &order, schedule::validated(k, every as int, epochs as int)),
            b,
        )
}

/// Models of a run, one for each number of epochs that were made.
pub open spec fn run_made<P, F: Fn(P, u32, &Vec<usize>, bool) -> P>(
    step: F,
    seed: u64,
    epochs: u32,
    every: u32,
    n_train: int,
    ps: Seq<P>,
) -> bool {
    &&& ps.len() == epochs + 1
    &&& forall|k: int|
        0 <= k < epochs ==> #[trigger] epoch_made(
            step,
            seed,
            epochs,
            every,
            n_train,
            k,
            ps[k],
            ps[k + 1],
        )
}

/// Runs all epochs, each on a shuffled order of the images that its number and the seed decide.
pub fn run_epochs<P, F: Fn(P, u32, &Vec<usize>, bool) -> P>(
    seed: u64,
    epochs: u32,
    every: u32,
    n_train: usize,
    start: P,
    step: &F,
) -> (r: P)
    requires
        epochs > 0 ==> every > 0,
        seed + epochs <= u64::MAX + 1,
        forall|p: P, k: u32, v: &Vec<usize>, b: bool|
            loader::is_order(v@, n_train as int) ==> step.requires((p, k, v, b)),
    ensures
        exists|ps: Seq<P>|
            #[trigger] run_made(*step, seed, epochs, every, n_train as int, ps) && ps[0] == start
                && ps.last() == r,
{
    let mut p: P = start;
    let ghost mut ps: Seq<P> = seq![start];
    let mut k: u32 = 0;
    while k < epochs
        invariant
            k <= epochs,
            epochs > 0 ==> every > 0,
            seed + epochs <= u64::MAX + 1,
            forall|p: P, k: u32, v: &Vec<usize>, b: bool|
                loader::is_order(v@, n_train as int) ==> step.requires((p, k, v, b)),
            ps.len() == k + 1,
            ps[0] == start,
            ps.last() == p,
            forall|i: int|
                0 <= i < k ==> #[trigger] epoch_made(
                    *step,
                    seed,
                    epochs,
                    every,
                    n_train as int,
                    i,
                    ps[i],
                    ps[i + 1],
                ),
        decreases epochs - k,
    {
        let order = shuffled_indices(n_train, epoch_seed(seed, k));
        let validate = validate_due(k, every, epochs);
        let ghost before = p;
        p = step(p, k, &order, validate);
        proof {
            let old_ps = ps;
            ps = ps.push(p);
            assert(step.ensures((before, k as int as u32, &order, validate), p));
            assert(epoch_made(*step, seed, epochs, every, n_train as int, k as int, before, p));
            assert forall|i: int| 0 <= i < k + 1 implies #[trigger] epoch_made(
                *step,
                seed,
                epochs,
                every,
                n_train as int,
                i,
                ps[i],
                ps[i + 1],
            ) by {
                if i < k {
                    assert(epoch_made(
                        *step,
                        seed,
                        epochs,
                        every,
                        n_train as int,
                        i,
                        old_ps[i],
                        old_ps[i + 1],
                    ));
                }
            }
        }
        k += 1;
    }
    assert(run_made(*step, seed, epochs, every, n_train as int, ps));
    p
}

/// The images of batch `k` of an order.
pub open spec fn batch_of(order: Seq<usize>, size: int, k: int) -> Seq<usize> {
    let b = loader::batch_bounds(order.len() as int, size, k);
    order.subrange(b.0, b.1)
}

/// Whether batch `k` leads from model `a` to `b`.
pub open spec fn batch_made<P, F: Fn(P, &Vec<usize>) -> P>(
    step: F,
    order: Seq<usize>,
    size: int,
    k: int,
    a: P,
    b: P,
) -> bool {
    exists|v: Vec<usize>|
        v@ == batch_of(order, size, k) && #[trigger] step.ensures((a, &v), b)
}

/// Models of an epoch, one for each number of batches that were made.
pub open spec fn batches_made<P, F: Fn(P, &Vec<usize>) -> P>(
    step: F,
    order: Seq<usize>,
    size: int,
    ps: Seq<P>,
) -> bool {
    &&& ps.len() == loader::batch_count(order.len() as int, size) + 1
    &&& forall|k: int|
        0 <= k < ps.len() - 1 ==> #[trigger] batch_made(step, order, size, k, ps[k], ps[k + 1])
}

/// Copies a part of an order.
fn part_of(order: &[usize], lo: usize, hi: usize) -> (r: Vec<usize>)
    requires
        lo <= hi <= order@.len(),
    ensures
        r@ == order@.subrange(lo as int, hi as int),
{
    let mut r: Vec<usize> = Vec::new();
    let mut i: usize = lo;
    while i < hi
        invariant
            lo <= i <= hi <= order@.len(),
            r@ == order@.subrange(lo as int, i as int),
        decreases hi - i,
    {
        r.push(order[i]);
        i += 1;
        assert(r@ =~= order@.subrange(lo as int, i as int));
    }
    r
}

/// One epoch of training: a step for each batch, in order. Returns the model and the number of
/// steps.
pub fn train_epoch<P, F: Fn(P, &Vec<usize>) -> P>(
    order: &[usize],
    size: usize,
    start: P,
    step: &F,
) -> (r: (P, usize))
    requires
        size > 0,
        forall|p: P, v: &Vec<usize>| 0 < v@.len() <= size ==> step.requires((p, v)),
    ensures
        r.1 == loader::batch_count(order@.len() as int, size as int),
        exists|ps: Seq<P>|
            #[trigger] batches_made(*step, order@, size as int, ps) && ps[0] == start && ps.last()
                == r.0,
{
    let parts = batches(order.len(), size);
    let mut p: P = start;
    let ghost mut ps: Seq<P> = seq![start];
    let mut k: usize = 0;
    while k < parts.len()
        invariant
            k <= parts@.len(),
            size > 0,
            parts@.len() == loader::batch_count(order@.len() as int, size as int),
            forall|i: int|
                0 <= i < parts@.len() ==> ((#[trigger] parts@[i]).0 as int, parts@[i].1 as int)
                    == loader::batch_bounds(order@.len() as int, size as int, i),
            forall|p: P, v: &Vec<usize>| 0 < v@.len() <= size ==> step.requires((p, v)),
            ps.len() == k + 1,
            ps[0] == start,
            ps.last() == p,
            forall|i: int|
                0 <= i < k ==> #[trigger] batch_made(
                    *step,
                    order@,
                    size as int,
                    i,
                    ps[i],
                    ps[i + 1],
                ),
        decreases parts@.len() - k,
    {
        proof {
            batch_fits(order@.len() as int, size as int, k as int);
        }
        let v = part_of(order, parts[k].0, parts[k].1);
        let ghost before = p;
        p = step(p, &v);
        proof {
            let old_ps = ps;
            ps = ps.push(p);
            assert(v@ == batch_of(order@, size as int, k as int));
            assert(step.ensures((before, &v), p));
            assert(batch_made(*step, order@, size as int, k as int, before, p));
            assert forall|i: int| 0 <= i < k + 1 implies #[trigger] batch_made(
                *step,
                order@,
                size as int,
                i,
                ps[i],
                ps[i + 1],
            ) by {
                if i < k {
                    assert(batch_made(*step, order@, size as int, i, old_ps[i], old_ps[i + 1]));
                }
            }
        }
        k += 1;
    }
    assert(batches_made(*step, order@, size as int, ps));
    (p, parts.len())
}

/// A batch has images, and no more than its size.
proof fn batch_fits(n: int, size: int, k: int)
    requires
        size > 0,
        0 <= n,
        0 <= k < loader::batch_count(n, size),
    ensures
        ({
            let b = loader::batch_bounds(n, size, k);
            0 <= b.0 < b.1 <= n && b.1 - b.0 <= size
        }),
{
    loader::batches_cover(n, size, k);
    assert((k + 1) * size == k * size + size) by (nonlinear_arith);
    assert(0 <= k * size) by (nonlinear_arith)
        requires
            0 <= k,
            size > 0,
    ;
}

/// An epoch sees each place of its order in one batch: place `i` is in batch `i / size`, and in no
/// other.
pub proof fn batches_see_each_place(order: Seq<usize>, size: int, i: int, k: int)
    requires
        size > 0,
        0 <= i < order.len(),
        0 <= k < loader::batch_count(order.len() as int, size),
    ensures
        0 <= i / size < loader::batch_count(order.len() as int, size),
        i % size < batch_of(order, size, i / size).len(),
        batch_of(order, size, i / size)[i % size] == order[i],
        ({
            let b = loader::batch_bounds(order.len() as int, size, k);
            b.0 <= i < b.1 <==> k == i / size
        }),
{
    let n = order.len() as int;
    let q = i / size;
    vstd::arithmetic::div_mod::lemma_fundamental_div_mod(i, size);
    vstd::arithmetic::div_mod::lemma_mod_bound(i, size);
    vstd::arithmetic::div_mod::lemma_fundamental_div_mod(n + size - 1, size);
    vstd::arithmetic::div_mod::lemma_mod_bound(n + size - 1, size);
    let c = loader::batch_count(n, size);
    assert(size * q == q * size && size * c == c * size) by (nonlinear_arith);
    assert((q + 1) * size == q * size + size) by (nonlinear_arith);
    assert((k + 1) * size == k * size + size) by (nonlinear_arith);
    assert(0 <= q) by (nonlinear_arith)
        requires
            i == q * size + i % size,
            0 <= i,
            i % size < size,
            size > 0,
    ;
    assert(q < c) by (nonlinear_arith)
        requires
            q * size <= i < n <= c * size,
            size > 0,
    ;
    assert(k < q ==> (k + 1) * size <= q * size) by (nonlinear_arith)
        requires
            size > 0,
    ;
    assert(k > q ==> (q + 1) * size <= k * size) by (nonlinear_arith)
        requires
            size > 0,
    ;
}

/// Answers and labels of a batch.
pub type Answers = (Vec<i64>, Vec<i64>);

/// Right answers of a batch.
pub open spec fn right_in(a: Answers) -> int {
    loader::agreements(
        a.0@,
        a.1@,
        if a.0@.len() < a.1@.len() {
            a.0@.len() as int
        } else {
            a.1@.len() as int
        },
    )
}

/// Right answers of the first `k` batches.
pub open spec fn right_sum(outs: Seq<Answers>, k: int) -> int
    decreases k,
{
    if k <= 0 {
        0
    } else {
        right_sum(outs, k - 1) + right_in(outs[k - 1])
    }
}

/// Whether these are the answers on all batches of the images below `n`, with at most one answer
/// for each image.
pub open spec fn answered<F: Fn(&Vec<usize>) -> Answers>(
    predict: F,
    n: int,
    size: int,
    outs: Seq<Answers>,
) -> bool {
    &&& outs.len() == loader::batch_count(n, size)
    &&& forall|k: int| 0 <= k < outs.len() ==> #[trigger] answer_at(predict, n, size, k, outs[k])
}

/// Whether this is the answer on batch `k`.
pub open spec fn answer_at<F: Fn(&Vec<usize>) -> Answers>(
    predict: F,
    n: int,
    size: int,
    k: int,
    out: Answers,
) -> bool {
    exists|v: Vec<usize>|
        v@ == batch_of(loader::below(n), size, k) && #[trigger] predict.ensures((&v,), out)
}

/// Counts the right answers on the images below `n`, batch by batch.
pub fn evaluate<F: Fn(&Vec<usize>) -> Answers>(n: usize, size: usize, predict: &F) -> (r: usize)
    requires
        size > 0,
        forall|v: &Vec<usize>| 0 < v@.len() <= size ==> predict.requires((v,)),
        forall|v: &Vec<usize>, out: Answers|
            #[trigger] predict.ensures((v,), out) ==> out.0@.len() <= v@.len(),
    ensures
        r <= n,
        exists|outs: Seq<Answers>|
            #[trigger] answered(*predict, n as int, size as int, outs) && r == right_sum(
                outs,
                outs.len() as int,
            ),
{
    let order = loader::indices_below(n);
    let parts = batches(n, size);
    let mut correct: usize = 0;
    let ghost mut outs: Seq<Answers> = Seq::empty();
    let ghost mut done: int = 0;
    let mut k: usize = 0;
    while k < parts.len()
        invariant
            k <= parts@.len(),
            size > 0,
            order@ == loader::below(n as int),
            parts@.len() == loader::batch_count(n as int, size as int),
            forall|i: int|
                0 <= i < parts@.len() ==> ((#[trigger] parts@[i]).0 as int, parts@[i].1 as int)
                    == loader::batch_bounds(n as int, size as int, i),
            forall|v: &Vec<usize>| 0 < v@.len() <= size ==> predict.requires((v,)),
            forall|v: &Vec<usize>, out: Answers|
                #[trigger] predict.ensures((v,), out) ==> out.0@.len() <= v@.len(),
            outs.len() == k,
            correct == right_sum(outs, k as int),
            0 <= correct <= done <= n,
            k < parts@.len() ==> done == loader::batch_bounds(n as int, size as int, k as int).0,
            forall|i: int|
                0 <= i < k ==> #[trigger] answer_at(
                    *predict,
                    n as int,
                    size as int,
                    i,
                    outs[i],
                ),
        decreases parts@.len() - k,
    {
        proof {
            batch_fits(n as int, size as int, k as int);
            loader::batches_cover(n as int, size as int, k as int);
        }
        let v = part_of(order.as_slice(), parts[k].0, parts[k].1);
        let out = predict(&v);
        let more: usize = count_correct(out.0.as_slice(), out.1.as_slice());
        assert(out.0@.len() <= v@.len());
        proof {
            let old_outs = outs;
            outs = outs.push(out);
            right_sum_stays(old_outs, outs, k as int);
            assert(v@ == batch_of(loader::below(n as int), size as int, k as int));
            assert(predict.ensures((&v,), out));
            assert forall|i: int| 0 <= i < k + 1 implies #[trigger] answer_at(
                *predict,
                n as int,
                size as int,
                i,
                outs[i],
            ) by {
                if i < k {
                    assert(answer_at(*predict, n as int, size as int, i, old_outs[i]));
                }
            }
            done = done + (parts@[k as int].1 - parts@[k as int].0);
        }
        correct = correct + more;
        k += 1;
    }
    assert(answered(*predict, n as int, size as int, outs));
    correct
}

/// The sum over the first batches does not depend on those behind.
proof fn right_sum_stays(a: Seq<Answers>, b: Seq<Answers>, k: int)
    requires
        k <= a.len() <= b.len(),
        forall|i: int| 0 <= i < a.len() ==> #[trigger] b[i] == a[i],
    ensures
        right_sum(a, k) == right_sum(b, k),
    decreases k,
{
    if k > 0 {
        right_sum_stays(a, b, k - 1);
    }
}

/// What an epoch of a run is given: its number, an order of all images shuffled by the run's seed
/// plus that number, and whether it is validated, which is so after every multiple of the interval
/// and after the last epoch.
pub proof fn epochs_are_given_their_order<P, F: Fn(P, u32, &Vec<usize>, bool) -> P>(
    step: F,
    seed: u64,
    epochs: u32,
    every: u32,
    n_train: int,
    ps: Seq<P>,
    k: int,
)
    requires
        // what `run_epochs` says of its states
        run_made(step, seed, epochs, every, n_train, ps),
        0 <= k < epochs,
    ensures
        ps.len() == epochs + 1,
        exists|order: Vec<usize>, due: bool|
            order@ == loader::shuffled(
                loader::below(n_train),
                schedule::order_seed(seed, k as u32) as u64,
            ) && order@.len() == n_train && due == (k % (every as int) == 0 || k == epochs - 1)
                && #[trigger] step.ensures((ps[k], k as u32, &order, due), ps[k + 1]),
{
    assert(epoch_made(step, seed, epochs, every, n_train, k, ps[k], ps[k + 1]));
    let order = choose|order: Vec<usize>|
        order@ == loader::shuffled(loader::below(n_train), (seed + k) as u64) && loader::is_order(
            order@,
            n_train,
        ) && #[trigger] step.ensures(
            (ps[k], k as u32, &order, schedule::validated(k, every as int, epochs as int)),
            ps[k + 1],
        );
    let due = k % (every as int) == 0 || k == epochs - 1;
    assert(step.ensures((ps[k], k as u32, &order, due), ps[k + 1]));
}

/// Right answers of all batches together: those of each batch are added, and in a batch as many
/// answers count as there are of both kinds.
pub proof fn right_answers_add_up(outs: Seq<Answers>, a: Answers)
    ensures
        right_sum(outs.push(a), outs.len() as int + 1) == right_sum(outs, outs.len() as int)
            + right_in(a),
        right_sum(outs, 0) == 0,
        a.0@.len() <= a.1@.len() ==> right_in(a) == loader::agreements(
            a.0@,
            a.1@,
            a.0@.len() as int,
        ),
        a.1@.len() <= a.0@.len() ==> right_in(a) == loader::agreements(
            a.0@,
            a.1@,
            a.1@.len() as int,
        ),
{
    right_sum_of_prefix(outs, outs.push(a), outs.len() as int);
}

proof fn right_sum_of_prefix(a: Seq<Answers>, b: Seq<Answers>, n: int)
    requires
        0 <= n <= a.len(),
        n <= b.len(),
        forall|i: int| 0 <= i < n ==> a[i] == b[i],
    ensures
        right_sum(a, n) == right_sum(b, n),
    decreases n,
{
    if n > 0 {
        right_sum_of_prefix(a, b, n - 1);
    }
}

/// What a step of an epoch is given: the images at the places of its batch, which follow each
/// other in the order of the epoch.
pub proof fn steps_are_given_their_batch<P, F: Fn(P, &Vec<usize>) -> P>(
    step: F,
    order: Seq<usize>,
    size: int,
    ps: Seq<P>,
    k: int,
)
    requires
        // what `train_epoch` says of its states
        batches_made(step, order, size, ps),
        size > 0,
        0 <= k < ps.len() - 1,
    ensures
        ps.len() - 1 == loader::batch_count(order.len() as int, size),
        exists|v: Vec<usize>|
            0 < v@.len() <= size && (forall|i: int|
                0 <= i < v@.len() ==> #[trigger] v@[i] == order[k * size + i])
                && #[trigger] step.ensures((ps[k], &v), ps[k + 1]),
{
    assert(batch_made(step, order, size, k, ps[k], ps[k + 1]));
    let v = choose|v: Vec<usize>|
        v@ == batch_of(order, size, k) && #[trigger] step.ensures((ps[k], &v), ps[k + 1]);
    loader::batches_cover(order.len() as int, size, k);
    loader::batches_are_full(order.len() as int, size, k, 0);
    assert(0 <= k * size) by (nonlinear_arith)
        requires
            0 <= k,
            size > 0,
    ;
    assert forall|i: int| 0 <= i < v@.len() implies #[trigger] v@[i] == order[k * size + i] by {}
}

/// What an evaluation asks: the images of each batch in turn, by their numbers from the first on.
pub proof fn answers_are_on_images_in_turn<F: Fn(&Vec<usize>) -> Answers>(
    predict: F,
    n: int,
    size: int,
    outs: Seq<Answers>,
    k: int,
)
    requires
        // what `evaluate` says of its answers
        answered(predict, n, size, outs),
        size > 0,
        0 <= n <= usize::MAX,
        0 <= k < outs.len(),
    ensures
        outs.len() == loader::batch_count(n, size),
        exists|v: Vec<usize>|
            0 < v@.len() <= size && (forall|i: int|
                0 <= i < v@.len() ==> #[trigger] v@[i] == k * size + i)
                && #[trigger] predict.ensures((&v,), outs[k]),
{
    assert(answer_at(predict, n, size, k, outs[k]));
    let v = choose|v: Vec<usize>|
        v@ == batch_of(loader::below(n), size, k) && #[trigger] predict.ensures((&v,), outs[k]);
    loader::batches_cover(n, size, k);
    loader::batches_are_full(n, size, k, 0);
    assert(0 <= k * size) by (nonlinear_arith)
        requires
            0 <= k,
            size > 0,
    ;
    assert forall|i: int| 0 <= i < v@.len() implies #[trigger] v@[i] == k * size + i by {}
}

} // verus!
