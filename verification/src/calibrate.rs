//! Static calibration: every layer is rescaled by what it gives on real images, one after the
//! other in forward order, until the scale of all layers is right.

use crate::loader;
use crate::weights;
use crate::weights::{get_conv, layer_list, pick_conv, ConvLayer, LayerSel, SdtWeights};
use vstd::prelude::*;

verus! {

/// Batches of images that layers are measured on.
pub const CALIB_BATCHES: usize = 16;

/// Images of a batch.
pub const CALIB_BATCH: usize = 32;

/// Rounds after which calibration ends in any case.
pub const CALIB_ROUNDS: usize = 10;

/// Images that layers are measured on: the first ones, as many as there are.
pub open spec fn calib_images(n_train: int) -> int {
    if n_train < 512 {
        n_train
    } else {
        512
    }
}

/// The batches that layers are measured on.
pub fn calib_batches(n_train: usize) -> (r: Vec<(usize, usize)>)
    ensures
        r@.len() == loader::batch_count(calib_images(n_train as int), CALIB_BATCH as int),
        forall|k: int|
            0 <= k < r@.len() ==> ((#[trigger] r@[k]).0 as int, r@[k].1 as int)
                == loader::batch_bounds(calib_images(n_train as int), CALIB_BATCH as int, k),
{
    let most: usize = CALIB_BATCHES * CALIB_BATCH;
    let n: usize = if n_train < most {
        n_train
    } else {
        most
    };
    loader::batches(n, CALIB_BATCH)
}

/// Whether tree `b` is tree `a` with one layer rescaled by statistics `s`, which were measured
/// on `a`.
pub open spec fn layer_swapped<
    W,
    M,
    B,
    S,
    FS: Fn(&SdtWeights<W, M, B>, LayerSel) -> S,
    FC: Fn(&ConvLayer<W, B>, &S) -> ConvLayer<W, B>,
    FH: Fn(&M, &B, &S) -> (M, B),
>(
    stats: FS,
    conv: FC,
    head: FH,
    a: SdtWeights<W, M, B>,
    b: SdtWeights<W, M, B>,
    sel: LayerSel,
    s: S,
) -> bool {
    &&& stats.ensures((&a, sel), s)
    &&& if sel is Head {
        &&& head.ensures((&a.head_w, &a.head_b, &s), (b.head_w, b.head_b))
        &&& b.pe_proj@ == a.pe_proj@
        &&& b.pe_rpe == a.pe_rpe
        &&& b.blk@ == a.blk@
    } else {
        &&& conv.ensures((&a.conv(sel), &s), b.conv(sel))
        &&& weights::conv_replaced(a, b, sel, b.conv(sel))
    }
}

/// A chain of trees, each with one more layer rescaled, in forward order: what a layer is
/// measured on has all earlier layers rescaled already.
pub open spec fn cascade<
    W,
    M,
    B,
    S,
    FS: Fn(&SdtWeights<W, M, B>, LayerSel) -> S,
    FC: Fn(&ConvLayer<W, B>, &S) -> ConvLayer<W, B>,
    FH: Fn(&M, &B, &S) -> (M, B),
>(
    stats: FS,
    conv: FC,
    head: FH,
    depths: int,
    ws: Seq<SdtWeights<W, M, B>>,
    ss: Seq<S>,
) -> bool {
    &&& ws.len() == ss.len() + 1
    &&& forall|l: int|
        0 <= l < ss.len() ==> #[trigger] layer_swapped(
            stats,
            conv,
            head,
            ws[l],
            ws[l + 1],
            weights::layer_at(depths, l),
            ss[l],
        )
}

/// Whether a round leads from one tree to another, with the statistics of all layers.
pub open spec fn round_made<
    W,
    M,
    B,
    S,
    FS: Fn(&SdtWeights<W, M, B>, LayerSel) -> S,
    FC: Fn(&ConvLayer<W, B>, &S) -> ConvLayer<W, B>,
    FH: Fn(&M, &B, &S) -> (M, B),
>(
    stats: FS,
    conv: FC,
    head: FH,
    depths: int,
    a: SdtWeights<W, M, B>,
    b: SdtWeights<W, M, B>,
    ss: Seq<S>,
) -> bool {
    &&& ss.len() == weights::num_layers(depths)
    &&& exists|ws: Seq<SdtWeights<W, M, B>>|
        #[trigger] cascade(stats, conv, head, depths, ws, ss) && ws[0] == a && ws.last() == b
}

/// Layers of a tree with `depths` blocks are there.
proof fn layers_exist<W, M, B>(w: SdtWeights<W, M, B>, depths: int, l: int)
    requires
        w.blk@.len() == depths,
        depths <= usize::MAX,
        0 <= l < weights::num_layers(depths),
    ensures
        w.has(weights::layer_at(depths, l)),
        weights::layer_at(depths, l) is Head <==> l == weights::num_layers(depths) - 1,
{
}

/// One round: every layer in forward order is measured and rescaled before the next is measured.
pub fn calibrate_round<
    W,
    M,
    B,
    S,
    FS: Fn(&SdtWeights<W, M, B>, LayerSel) -> S,
    FC: Fn(&ConvLayer<W, B>, &S) -> ConvLayer<W, B>,
    FH: Fn(&M, &B, &S) -> (M, B),
>(w: &mut SdtWeights<W, M, B>, depths: usize, stats: &FS, conv: &FC, head: &FH) -> (r: Vec<S>)
    requires
        old(w).blk@.len() == depths,
        weights::num_layers(depths as int) <= usize::MAX,
        forall|a: &SdtWeights<W, M, B>, sel: LayerSel| stats.requires((a, sel)),
        forall|c: &ConvLayer<W, B>, s: &S| conv.requires((c, s)),
        forall|m: &M, b: &B, s: &S| head.requires((m, b, s)),
    ensures
        final(w).blk@.len() == depths,
        round_made(*stats, *conv, *head, depths as int, *old(w), *final(w), r@),
{
    let list: Vec<LayerSel> = layer_list(depths);
    let mut r: Vec<S> = Vec::new();
    let ghost mut ws: Seq<SdtWeights<W, M, B>> = seq![*w];
    let mut l: usize = 0;
    while l < list.len()
        invariant
            l <= list@.len(),
            list@ == Seq::new(
                weights::num_layers(depths as int) as nat,
                |l: int| weights::layer_at(depths as int, l),
            ),
            w.blk@.len() == depths,
            r@.len() == l,
            ws.len() == l + 1,
            ws[0] == *old(w),
            ws[l as int] == *w,
            cascade(*stats, *conv, *head, depths as int, ws, r@),
            forall|a: &SdtWeights<W, M, B>, sel: LayerSel| stats.requires((a, sel)),
            forall|c: &ConvLayer<W, B>, s: &S| conv.requires((c, s)),
            forall|m: &M, b: &B, s: &S| head.requires((m, b, s)),
        decreases list@.len() - l,
    {
        let sel: LayerSel = list[l];
        proof {
            layers_exist(*w, depths as int, l as int);
        }
        let ghost a = *w;
        let s: S = stats(&*w, sel);
        match sel {
            LayerSel::Head => {
                let (m, b) = head(&w.head_w, &w.head_b, &s);
                w.head_w = m;
                w.head_b = b;
            }
            _ => {
                let c = conv(get_conv(&*w, sel), &s);
                match pick_conv(w, sel) {
                    Some(p) => {
                        *p = c;
                    }
                    None => {}
                }
                assert(weights::conv_replaced(a, *w, sel, c));
                assert(w.conv(sel) == c) by {
                    match sel {
                        LayerSel::Blk { j, which } => {
                            assert(w.blk@[j as int] == a.blk@[j as int].with_conv(which as int, c));
                        },
                        _ => {},
                    }
                }
            }
        }
        assert(layer_swapped(*stats, *conv, *head, a, *w, sel, s));
        r.push(s);
        proof {
            let before = ws;
            ws = ws.push(*w);
            assert forall|k: int| 0 <= k < r@.len() implies #[trigger] layer_swapped(
                *stats,
                *conv,
                *head,
                ws[k],
                ws[k + 1],
                weights::layer_at(depths as int, k),
                r@[k],
            ) by {
                if k < l {
                    assert(ws[k] == before[k] && ws[k + 1] == before[k + 1]);
                    assert(layer_swapped(
                        *stats,
                        *conv,
                        *head,
                        before[k],
                        before[k + 1],
                        weights::layer_at(depths as int, k),
                        r@[k],
                    ));
                }
            }
        }
        l += 1;
    }
    assert(ws.last() == *w);
    r
}

/// A calibration: trees after each round and the statistics of each round. It ends with the
/// first round whose statistics are good, or with the last round that is allowed.
pub open spec fn calibration<
    W,
    M,
    B,
    S,
    FS: Fn(&SdtWeights<W, M, B>, LayerSel) -> S,
    FC: Fn(&ConvLayer<W, B>, &S) -> ConvLayer<W, B>,
    FH: Fn(&M, &B, &S) -> (M, B),
    FG: Fn(&Vec<S>) -> bool,
>(
    stats: FS,
    conv: FC,
    head: FH,
    good: FG,
    depths: int,
    vs: Seq<SdtWeights<W, M, B>>,
    rs: Seq<Vec<S>>,
) -> bool {
    &&& vs.len() == rs.len() + 1
    &&& 1 <= rs.len() <= CALIB_ROUNDS
    &&& forall|k: int|
        0 <= k < rs.len() ==> #[trigger] round_made(
            stats,
            conv,
            head,
            depths,
            vs[k],
            vs[k + 1],
            rs[k]@,
        )
    &&& forall|k: int| 0 <= k < rs.len() - 1 ==> good.ensures((&#[trigger] rs[k],), false)
    &&& good.ensures((&rs.last(),), true) || rs.len() == CALIB_ROUNDS
}

/// Calibrates a network.
///
/// `stats` measures a layer, `conv` and `head` rescale a layer by its statistics, and `good` says
/// whether the statistics of a round are those of a calibrated network. Returns the number of
/// rounds.
pub fn static_calibrate<
    W,
    M,
    B,
    S,
    FS: Fn(&SdtWeights<W, M, B>, LayerSel) -> S,
    FC: Fn(&ConvLayer<W, B>, &S) -> ConvLayer<W, B>,
    FH: Fn(&M, &B, &S) -> (M, B),
    FG: Fn(&Vec<S>) -> bool,
>(
    w: &mut SdtWeights<W, M, B>,
    depths: usize,
    stats: &FS,
    conv: &FC,
    head: &FH,
    good: &FG,
) -> (n: usize)
    requires
        old(w).blk@.len() == depths,
        weights::num_layers(depths as int) <= usize::MAX,
        forall|a: &SdtWeights<W, M, B>, sel: LayerSel| stats.requires((a, sel)),
        forall|c: &ConvLayer<W, B>, s: &S| conv.requires((c, s)),
        forall|m: &M, b: &B, s: &S| head.requires((m, b, s)),
        forall|v: &Vec<S>| good.requires((v,)),
    ensures
        final(w).blk@.len() == depths,
        exists|vs: Seq<SdtWeights<W, M, B>>, rs: Seq<Vec<S>>|
            #[trigger] calibration(*stats, *conv, *head, *good, depths as int, vs, rs) && vs[0]
                == *old(w) && vs.last() == *final(w) && rs.len() == n,
{
    let ghost mut vs: Seq<SdtWeights<W, M, B>> = seq![*w];
    let ghost mut rs: Seq<Vec<S>> = Seq::empty();
    let mut n: usize = 0;
    let mut done = false;
    while !done && n < CALIB_ROUNDS
        invariant
            n <= CALIB_ROUNDS,
            w.blk@.len() == depths,
            weights::num_layers(depths as int) <= usize::MAX,
            rs.len() == n,
            vs.len() == n + 1,
            vs[0] == *old(w),
            vs[n as int] == *w,
            forall|k: int|
                0 <= k < n ==> #[trigger] round_made(
                    *stats,
                    *conv,
                    *head,
                    depths as int,
                    vs[k],
                    vs[k + 1],
                    rs[k]@,
                ),
            forall|k: int| 0 <= k < n - 1 ==> good.ensures((&#[trigger] rs[k],), false),
            n > 0 ==> good.ensures((&rs[n - 1],), done),
            done ==> n > 0,
            forall|a: &SdtWeights<W, M, B>, sel: LayerSel| stats.requires((a, sel)),
            forall|c: &ConvLayer<W, B>, s: &S| conv.requires((c, s)),
            forall|m: &M, b: &B, s: &S| head.requires((m, b, s)),
            forall|v: &Vec<S>| good.requires((v,)),
        decreases CALIB_ROUNDS - n + if done { 0int } else { 1int },
    {
        let ghost a = *w;
        let r: Vec<S> = calibrate_round(w, depths, stats, conv, head);
        done = good(&r);
        proof {
            let v0 = vs;
            let r0 = rs;
            vs = vs.push(*w);
            rs = rs.push(r);
            assert forall|k: int| 0 <= k < n + 1 implies #[trigger] round_made(
                *stats,
                *conv,
                *head,
                depths as int,
                vs[k],
                vs[k + 1],
                rs[k]@,
            ) by {
                if k < n {
                    assert(round_made(
                        *stats,
                        *conv,
                        *head,
                        depths as int,
                        v0[k],
                        v0[k + 1],
                        r0[k]@,
                    ));
                }
            }
            assert forall|k: int| 0 <= k < n implies good.ensures((&#[trigger] rs[k],), false) by {
                assert(rs[k] == r0[k]);
            }
        }
        n += 1;
    }
    assert(vs.last() == *w);
    assert(calibration(*stats, *conv, *head, *good, depths as int, vs, rs));
    n
}

/// Calibration looks at the first 512 images, or at all where there are fewer, 32 at a time.
pub proof fn calibration_looks_at_the_first_images(n_train: int, k: int)
    requires
        0 <= n_train,
        0 <= k < loader::batch_count(calib_images(n_train), CALIB_BATCH as int),
    ensures
        ({
            let b = loader::batch_bounds(calib_images(n_train), CALIB_BATCH as int, k);
            let last = k + 1 == loader::batch_count(calib_images(n_train), CALIB_BATCH as int);
            &&& b.0 == 32 * k
            &&& !last ==> b.1 == 32 * k + 32
            &&& last && n_train >= 512 ==> b.1 == 512 && k == 15
            &&& last && n_train < 512 ==> b.1 == n_train
        }),
{
    loader::batches_cover(calib_images(n_train), CALIB_BATCH as int, k);
    loader::batches_are_full(calib_images(n_train), CALIB_BATCH as int, k, 0);
}

/// Calibration goes on until a round is good, and ends there: there is at least one round and at
/// most ten, fewer only because of a good one.
pub proof fn calibration_ends_at_the_first_good_round<
    W,
    M,
    B,
    S,
    FS: Fn(&SdtWeights<W, M, B>, LayerSel) -> S,
    FC: Fn(&ConvLayer<W, B>, &S) -> ConvLayer<W, B>,
    FH: Fn(&M, &B, &S) -> (M, B),
    FG: Fn(&Vec<S>) -> bool,
>(
    stats: FS,
    conv: FC,
    head: FH,
    good: FG,
    depths: int,
    vs: Seq<SdtWeights<W, M, B>>,
    rs: Seq<Vec<S>>,
    k: int,
)
    requires
        // what `static_calibrate` says of its rounds
        calibration(stats, conv, head, good, depths, vs, rs),
        0 <= k < rs.len(),
    ensures
        1 <= rs.len() <= 10,
        k + 1 < rs.len() ==> good.ensures((&rs[k],), false),
        rs.len() < 10 ==> good.ensures((&rs.last(),), true),
        rs[k]@.len() == 6 + 6 * depths,
{
    assert(round_made(stats, conv, head, depths, vs[k], vs[k + 1], rs[k]@));
}

/// What a step of a round does, by the field that the layer's number names: the statistics are
/// taken with the weights as the steps before left them, and the layer alone is replaced.
pub proof fn calibrated_layer_is_the_named_one<
    W,
    M,
    B,
    S,
    FS: Fn(&SdtWeights<W, M, B>, LayerSel) -> S,
    FC: Fn(&ConvLayer<W, B>, &S) -> ConvLayer<W, B>,
    FH: Fn(&M, &B, &S) -> (M, B),
>(
    stats: FS,
    conv: FC,
    head: FH,
    a: SdtWeights<W, M, B>,
    b: SdtWeights<W, M, B>,
    j: usize,
    s: S,
)
    requires
        j < a.blk@.len(),
    ensures
        layer_swapped(stats, conv, head, a, b, LayerSel::Head, s) ==> {
            &&& stats.ensures((&a, LayerSel::Head), s)
            &&& head.ensures((&a.head_w, &a.head_b, &s), (b.head_w, b.head_b))
            &&& b.blk@ == a.blk@
        },
        layer_swapped(stats, conv, head, a, b, LayerSel::PeRpe, s) ==> {
            &&& stats.ensures((&a, LayerSel::PeRpe), s)
            &&& conv.ensures((&a.pe_rpe, &s), b.pe_rpe)
            &&& b.blk@ == a.blk@ && b.head_w == a.head_w
        },
        layer_swapped(stats, conv, head, a, b, LayerSel::Blk { j, which: 1 }, s) ==> {
            &&& stats.ensures((&a, LayerSel::Blk { j, which: 1 }), s)
            &&& conv.ensures((&a.blk@[j as int].k, &s), b.blk@[j as int].k)
            &&& b.blk@[j as int].q == a.blk@[j as int].q
            &&& b.blk@[j as int].v == a.blk@[j as int].v
        },
        layer_swapped(stats, conv, head, a, b, LayerSel::Blk { j, which: 4 }, s) ==> {
            &&& stats.ensures((&a, LayerSel::Blk { j, which: 4 }), s)
            &&& conv.ensures((&a.blk@[j as int].fc1, &s), b.blk@[j as int].fc1)
            &&& b.blk@[j as int].fc2 == a.blk@[j as int].fc2
        },
{
}

/// A round goes through the layers in forward order: each is measured with the weights that the
/// steps before left, and then replaced.
pub proof fn rounds_go_forward<
    W,
    M,
    B,
    S,
    FS: Fn(&SdtWeights<W, M, B>, LayerSel) -> S,
    FC: Fn(&ConvLayer<W, B>, &S) -> ConvLayer<W, B>,
    FH: Fn(&M, &B, &S) -> (M, B),
>(
    stats: FS,
    conv: FC,
    head: FH,
    depths: int,
    a: SdtWeights<W, M, B>,
    b: SdtWeights<W, M, B>,
    ss: Seq<S>,
)
    requires
        // what `calibrate_round` says of its result
        round_made(stats, conv, head, depths, a, b, ss),
        0 <= depths,
        weights::num_layers(depths) <= usize::MAX,
    ensures
        ss.len() == 6 + 6 * depths,
        stats.ensures((&a, LayerSel::PeProj(0)), ss[0]),
        exists|ws: Seq<SdtWeights<W, M, B>>|
            ws.len() == ss.len() + 1 && ws[0] == a && ws.last() == b && (forall|l: int|
                0 <= l < ss.len() ==> stats.ensures(
                    (&ws[l], weights::layer_at(depths, l)),
                    #[trigger] ss[l],
                )) && (#[trigger] ws[ss.len() - 1]).pe_rpe == b.pe_rpe && head.ensures(
                (&ws[ss.len() - 1].head_w, &ws[ss.len() - 1].head_b, &ss.last()),
                (b.head_w, b.head_b),
            ),
{
    let ws = choose|ws: Seq<SdtWeights<W, M, B>>|
        #[trigger] cascade(stats, conv, head, depths, ws, ss) && ws[0] == a && ws.last() == b;
    assert forall|l: int| 0 <= l < ss.len() implies stats.ensures(
        (&ws[l], weights::layer_at(depths, l)),
        #[trigger] ss[l],
    ) by {
        assert(layer_swapped(
            stats,
            conv,
            head,
            ws[l],
            ws[l + 1],
            weights::layer_at(depths, l),
            ss[l],
        ));
    }
    let n = ss.len() - 1;
    assert(layer_swapped(
        stats,
        conv,
        head,
        ws[n],
        ws[n + 1],
        weights::layer_at(depths, n),
        ss[n],
    ));
    assert(weights::layer_at(depths, n) == LayerSel::Head);
    assert(ws[n + 1] == ws.last());
    assert(stats.ensures((&ws[0], weights::layer_at(depths, 0)), ss[0]));
    assert(ws[ss.len() - 1].pe_rpe == b.pe_rpe);
}

} // verus!
