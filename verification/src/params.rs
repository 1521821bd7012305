//! The parameter list of the factored estimator and its way back into the weights.

use crate::factored;
use crate::factored::{Blocks, FLoc, FSlotSpec};
use crate::net;
use crate::net::Level;
use crate::slots::{OrigShape, ShapeTree};
use crate::weights;
use crate::weights::{ConvLayer, SdtWeights, F_WHICH};
use vstd::prelude::*;

verus! {

/// Start value of a slot that has no tensor in the weights.
#[derive(Clone, Copy, Debug, PartialEq, Eq, Structural)]
pub enum StartValue {
    /// Modulation amplitude: one tenth.
    Amplitude,
    /// Modulation phase: one half.
    Phase,
    /// Firing threshold one.
    ThresholdOne,
    /// Firing threshold one half, at the attention site.
    ThresholdHalf,
}

/// Site of the key-value sums, the only one that fires at one half.
pub const KV_SITE: usize = 4;

/// Start value of a modulation or threshold slot.
pub open spec fn start_value(loc: FLoc) -> StartValue {
    match loc {
        FLoc::Qam(_, w) => if w == 0 {
            StartValue::Amplitude
        } else {
            StartValue::Phase
        },
        FLoc::Vth(site) => if site == KV_SITE {
            StartValue::ThresholdHalf
        } else {
            StartValue::ThresholdOne
        },
        _ => arbitrary(),
    }
}

/// A slot that may stand in the `lora` list of these weights.
pub open spec fn lora_slot_ok<W, M, B>(w: SdtWeights<W, M, B>, s: FSlotSpec) -> bool {
    match s.loc {
        FLoc::BlkW(j, which) => j < w.blk@.len() && which < F_WHICH && s.shape is W4,
        FLoc::HeadW => s.shape is W2,
        _ => false,
    }
}

/// A slot that may stand in the `dense` list of these weights.
pub open spec fn dense_slot_ok<W, M, B>(w: SdtWeights<W, M, B>, s: FSlotSpec) -> bool {
    &&& s.shape is B1
    &&& match s.loc {
        FLoc::BlkB(j, which) => j < w.blk@.len() && which < F_WHICH,
        FLoc::HeadB | FLoc::Vth(_) => true,
        FLoc::Qam(_, which) => which < 2,
        _ => false,
    }
}

/// Length of a vector slot.
pub open spec fn slot_n(s: FSlotSpec) -> usize {
    match s.shape {
        OrigShape::B1(n) => n,
        _ => arbitrary(),
    }
}

/// `p` was made of slot `s`: of its tensor where the weights hold one, of its start value
/// otherwise.
pub open spec fn param_made<
    W,
    M,
    B,
    F,
    FW: Fn(&OrigShape, &W) -> F,
    FM: Fn(&OrigShape, &M) -> F,
    FB: Fn(&OrigShape, &B) -> F,
    FC: Fn(StartValue, usize) -> F,
>(fw: FW, fm: FM, fb: FB, fill: FC, w: SdtWeights<W, M, B>, s: FSlotSpec, p: F) -> bool {
    match s.loc {
        FLoc::BlkW(j, which) => fw.ensures(
            (&s.shape, &w.blk@[j as int].conv(which as int).w),
            p,
        ),
        FLoc::HeadW => fm.ensures((&s.shape, &w.head_w), p),
        FLoc::BlkB(j, which) => fb.ensures(
            (&s.shape, &w.blk@[j as int].conv(which as int).b),
            p,
        ),
        FLoc::HeadB => fb.ensures((&s.shape, &w.head_b), p),
        _ => fill.ensures((start_value(s.loc), slot_n(s)), p),
    }
}

/// The parameter list: one entry for each `lora` slot, then one for each `dense` slot.
pub fn factored_params2d<
    W,
    M,
    B,
    F,
    FW: Fn(&OrigShape, &W) -> F,
    FM: Fn(&OrigShape, &M) -> F,
    FB: Fn(&OrigShape, &B) -> F,
    FC: Fn(StartValue, usize) -> F,
>(
    base: &SdtWeights<W, M, B>,
    lora: &[FSlotSpec],
    dense: &[FSlotSpec],
    fw: &FW,
    fm: &FM,
    fb: &FB,
    fill: &FC,
) -> (out: Vec<F>)
    requires
        forall|i: int| 0 <= i < lora@.len() ==> lora_slot_ok(*base, #[trigger] lora@[i]),
        forall|i: int| 0 <= i < dense@.len() ==> dense_slot_ok(*base, #[trigger] dense@[i]),
        forall|s: &OrigShape, x: &W| fw.requires((s, x)),
        forall|s: &OrigShape, x: &M| fm.requires((s, x)),
        forall|s: &OrigShape, x: &B| fb.requires((s, x)),
        forall|v: StartValue, n: usize| fill.requires((v, n)),
    ensures
        out@.len() == lora@.len() + dense@.len(),
        forall|i: int|
            0 <= i < out@.len() ==> param_made(
                *fw,
                *fm,
                *fb,
                *fill,
                *base,
                (lora@ + dense@)[i],
                #[trigger] out@[i],
            ),
{
    let ghost all = lora@ + dense@;
    let mut out: Vec<F> = Vec::new();
    let mut i: usize = 0;
    while i < lora.len()
        invariant
            i <= lora@.len(),
            all == lora@ + dense@,
            forall|i: int| 0 <= i < lora@.len() ==> lora_slot_ok(*base, #[trigger] lora@[i]),
            forall|s: &OrigShape, x: &W| fw.requires((s, x)),
            forall|s: &OrigShape, x: &M| fm.requires((s, x)),
            out@.len() == i,
            forall|k: int|
                0 <= k < i ==> param_made(*fw, *fm, *fb, *fill, *base, all[k], #[trigger] out@[k]),
        decreases lora@.len() - i,
    {
        let s = &lora[i];
        assert(lora_slot_ok(*base, lora@[i as int]));
        let p = match s.loc {
            FLoc::BlkW(j, which) => fw(&s.shape, weights::floc_get4(base, j, which)),
            _ => fm(&s.shape, &base.head_w),
        };
        out.push(p);
        i += 1;
    }
    let mut d: usize = 0;
    while d < dense.len()
        invariant
            d <= dense@.len(),
            all == lora@ + dense@,
            forall|i: int| 0 <= i < dense@.len() ==> dense_slot_ok(*base, #[trigger] dense@[i]),
            forall|s: &OrigShape, x: &B| fb.requires((s, x)),
            forall|v: StartValue, n: usize| fill.requires((v, n)),
            out@.len() == lora@.len() + d,
            forall|k: int|
                0 <= k < out@.len() ==> param_made(
                    *fw,
                    *fm,
                    *fb,
                    *fill,
                    *base,
                    all[k],
                    #[trigger] out@[k],
                ),
        decreases dense@.len() - d,
    {
        let s = &dense[d];
        assert(dense_slot_ok(*base, dense@[d as int]));
        let n: usize = match s.shape {
            OrigShape::B1(n) => n,
            _ => 0,
        };
        let p = match s.loc {
            FLoc::BlkB(j, which) => fb(&s.shape, weights::floc_get1(base, j, which)),
            FLoc::HeadB => fb(&s.shape, &base.head_b),
            FLoc::Qam(_, which) => if which == 0 {
                fill(StartValue::Amplitude, n)
            } else {
                fill(StartValue::Phase, n)
            },
            FLoc::Vth(site) => if site == KV_SITE {
                fill(StartValue::ThresholdHalf, n)
            } else {
                fill(StartValue::ThresholdOne, n)
            },
            _ => fill(StartValue::ThresholdOne, n),
        };
        out.push(p);
        d += 1;
    }
    out
}

/// Whether a slot names a tensor of the weights.
pub open spec fn held(loc: FLoc) -> bool {
    !(loc is Qam || loc is Vth)
}

/// No tensor is named by two slots.
pub open spec fn locs_distinct(list: Seq<FSlotSpec>) -> bool {
    forall|i: int, k: int|
        0 <= i < k < list.len() && held(list[i].loc) ==> (#[trigger] list[i]).loc != (
        #[trigger] list[k]).loc
}

/// Whether one of the first `n` slots names `loc`.
pub open spec fn names(list: Seq<FSlotSpec>, n: int, loc: FLoc) -> bool {
    exists|i: int| 0 <= i < n && (#[trigger] list[i]).loc == loc
}

/// Everything that no slot names is the same in both weights.
pub open spec fn rest_kept<W, M, B>(
    old_w: SdtWeights<W, M, B>,
    new_w: SdtWeights<W, M, B>,
    lora: Seq<FSlotSpec>,
    nl: int,
    dense: Seq<FSlotSpec>,
    nd: int,
) -> bool {
    &&& new_w.pe_proj@ == old_w.pe_proj@
    &&& new_w.pe_rpe == old_w.pe_rpe
    &&& new_w.blk@.len() == old_w.blk@.len()
    &&& forall|j: int|
        0 <= j < old_w.blk@.len() ==> (#[trigger] new_w.blk@[j]).th_w == old_w.blk@[j].th_w
            && new_w.blk@[j].layer == old_w.blk@[j].layer
    &&& forall|j: usize, which: usize|
        j < old_w.blk@.len() && which < F_WHICH && !names(lora, nl, FLoc::BlkW(j, which))
            ==> #[trigger] new_w.blk@[j as int].conv(which as int).w == old_w.blk@[j as int].conv(
            which as int,
        ).w
    &&& forall|j: usize, which: usize|
        j < old_w.blk@.len() && which < F_WHICH && !names(dense, nd, FLoc::BlkB(j, which))
            ==> #[trigger] new_w.blk@[j as int].conv(which as int).b == old_w.blk@[j as int].conv(
            which as int,
        ).b
    &&& !names(lora, nl, FLoc::HeadW) ==> new_w.head_w == old_w.head_w
    &&& !names(dense, nd, FLoc::HeadB) ==> new_w.head_b == old_w.head_b
}

/// The tensor that `lora` slot `s` names was restored from the parameter `p`.
pub open spec fn lora_restored<
    W,
    M,
    B,
    F,
    UW: Fn(&F, [usize; 4]) -> W,
    UM: Fn(&F, [usize; 2]) -> M,
>(uw: UW, um: UM, w: SdtWeights<W, M, B>, s: FSlotSpec, p: F) -> bool {
    match (s.loc, s.shape) {
        (FLoc::BlkW(j, which), OrigShape::W4(d)) => uw.ensures(
            (&p, d),
            w.blk@[j as int].conv(which as int).w,
        ),
        (FLoc::HeadW, OrigShape::W2(d)) => um.ensures((&p, d), w.head_w),
        _ => false,
    }
}

/// The tensor that `dense` slot `s` names, if the weights hold one, was restored from `p`.
pub open spec fn dense_restored<W, M, B, F, UB: Fn(&F, usize) -> B>(
    ub: UB,
    w: SdtWeights<W, M, B>,
    s: FSlotSpec,
    p: F,
) -> bool {
    match (s.loc, s.shape) {
        (FLoc::BlkB(j, which), OrigShape::B1(n)) => ub.ensures(
            (&p, n),
            w.blk@[j as int].conv(which as int).b,
        ),
        (FLoc::HeadB, OrigShape::B1(n)) => ub.ensures((&p, n), w.head_b),
        _ => true,
    }
}

/// Writes the parameter list back into the weights. Modulation and threshold slots live in
/// the list alone.
pub fn write_back_factored<
    W,
    M,
    B,
    F,
    UW: Fn(&F, [usize; 4]) -> W,
    UM: Fn(&F, [usize; 2]) -> M,
    UB: Fn(&F, usize) -> B,
>(
    base: &mut SdtWeights<W, M, B>,
    lora: &[FSlotSpec],
    dense: &[FSlotSpec],
    params: &[F],
    uw: &UW,
    um: &UM,
    ub: &UB,
)
    requires
        params@.len() == lora@.len() + dense@.len(),
        forall|i: int| 0 <= i < lora@.len() ==> lora_slot_ok(*old(base), #[trigger] lora@[i]),
        forall|i: int| 0 <= i < dense@.len() ==> dense_slot_ok(*old(base), #[trigger] dense@[i]),
        locs_distinct(lora@),
        locs_distinct(dense@),
        forall|f: &F, d: [usize; 4]| uw.requires((f, d)),
        forall|f: &F, d: [usize; 2]| um.requires((f, d)),
        forall|f: &F, n: usize| ub.requires((f, n)),
    ensures
        rest_kept(
            *old(base),
            *final(base),
            lora@,
            lora@.len() as int,
            dense@,
            dense@.len() as int,
        ),
        forall|i: int|
            0 <= i < lora@.len() ==> lora_restored(
                *uw,
                *um,
                *final(base),
                #[trigger] lora@[i],
                params@[i],
            ),
        forall|i: int|
            0 <= i < dense@.len() ==> dense_restored(
                *ub,
                *final(base),
                #[trigger] dense@[i],
                params@[lora@.len() + i],
            ),
{
    let ghost w0 = *base;
    let nl: usize = lora.len();
    let np: usize = params.len();
    let mut i: usize = 0;
    while i < nl
        invariant
            i <= nl == lora@.len(),
            params@.len() == lora@.len() + dense@.len(),
            forall|i: int| 0 <= i < lora@.len() ==> lora_slot_ok(w0, #[trigger] lora@[i]),
            locs_distinct(lora@),
            forall|f: &F, d: [usize; 4]| uw.requires((f, d)),
            forall|f: &F, d: [usize; 2]| um.requires((f, d)),
            rest_kept(w0, *base, lora@, i as int, dense@, 0),
            forall|k: int|
                0 <= k < i ==> lora_restored(*uw, *um, *base, #[trigger] lora@[k], params@[k]),
        decreases nl - i,
    {
        let s = &lora[i];
        let ghost before = *base;
        assert(lora_slot_ok(w0, lora@[i as int]));
        match (s.loc, s.shape) {
            (FLoc::BlkW(j, which), OrigShape::W4(d)) => {
                let t = uw(&params[i], d);
                weights::floc_set4(base, j, which, t);
                proof {
                    let c = ConvLayer { w: t, b: before.blk@[j as int].conv(which as int).b };
                    weights::conv_replaced_in_block(before, *base, j, which, c);
                }
            },
            (FLoc::HeadW, OrigShape::W2(d)) => {
                base.head_w = um(&params[i], d);
            },
            _ => {},
        }
        proof {
            let loc = lora@[i as int].loc;
            assert(names(lora@, i + 1, loc));
            assert forall|l: FLoc| names(lora@, i as int, l) implies #[trigger] names(
                lora@,
                i + 1,
                l,
            ) by {
                let k = choose|k: int| 0 <= k < i && (#[trigger] lora@[k]).loc == l;
                assert(lora@[k].loc == l);
            }
            assert forall|k: int| 0 <= k < i implies lora_restored(
                *uw,
                *um,
                *base,
                #[trigger] lora@[k],
                params@[k],
            ) by {
                assert(lora_restored(*uw, *um, before, lora@[k], params@[k]));
                assert(lora@[k].loc != loc);
                assert(lora_slot_ok(w0, lora@[k]));
            }
        }
        i += 1;
    }
    let mut d: usize = 0;
    while d < dense.len()
        invariant
            d <= dense@.len(),
            nl == lora@.len(),
            np == params@.len() == lora@.len() + dense@.len(),
            forall|i: int| 0 <= i < lora@.len() ==> lora_slot_ok(w0, #[trigger] lora@[i]),
            forall|i: int| 0 <= i < dense@.len() ==> dense_slot_ok(w0, #[trigger] dense@[i]),
            locs_distinct(dense@),
            forall|f: &F, n: usize| ub.requires((f, n)),
            rest_kept(w0, *base, lora@, nl as int, dense@, d as int),
            forall|k: int|
                0 <= k < nl ==> lora_restored(*uw, *um, *base, #[trigger] lora@[k], params@[k]),
            forall|k: int|
                0 <= k < d ==> dense_restored(*ub, *base, #[trigger] dense@[k], params@[nl + k]),
        decreases dense@.len() - d,
    {
        let s = &dense[d];
        let ghost before = *base;
        assert(dense_slot_ok(w0, dense@[d as int]));
        match (s.loc, s.shape) {
            (FLoc::BlkB(j, which), OrigShape::B1(n)) => {
                let t = ub(&params[nl + d], n);
                weights::floc_set1(base, j, which, t);
                proof {
                    let c = ConvLayer { w: before.blk@[j as int].conv(which as int).w, b: t };
                    weights::conv_replaced_in_block(before, *base, j, which, c);
                }
            },
            (FLoc::HeadB, OrigShape::B1(n)) => {
                base.head_b = ub(&params[nl + d], n);
            },
            _ => {},
        }
        proof {
            let loc = dense@[d as int].loc;
            assert(names(dense@, d + 1, loc));
            assert forall|l: FLoc| names(dense@, d as int, l) implies #[trigger] names(
                dense@,
                d + 1,
                l,
            ) by {
                let k = choose|k: int| 0 <= k < d && (#[trigger] dense@[k]).loc == l;
                assert(dense@[k].loc == l);
            }
            assert forall|k: int| 0 <= k < nl implies lora_restored(
                *uw,
                *um,
                *base,
                #[trigger] lora@[k],
                params@[k],
            ) by {
                assert(lora_restored(*uw, *um, before, lora@[k], params@[k]));
                assert(lora_slot_ok(w0, lora@[k]));
            }
            assert forall|k: int| 0 <= k < d implies dense_restored(
                *ub,
                *base,
                #[trigger] dense@[k],
                params@[nl + k],
            ) by {
                assert(dense_restored(*ub, before, dense@[k], params@[nl + k]));
                assert(held(dense@[k].loc) ==> dense@[k].loc != loc);
                assert(dense_slot_ok(w0, dense@[k]));
            }
        }
        d += 1;
    }
}

/// The lists of [`factored::factored_slots`] fit the weights that they were made for: they
/// can be read and written back.
pub proof fn factored_lists_fit<W, M, B>(
    w: SdtWeights<W, M, B>,
    dims: ShapeTree,
    depths: int,
    blocks: Blocks,
    qam_sites: Seq<usize>,
    vth_sites: Seq<usize>,
)
    requires
        0 <= depths <= w.blk@.len(),
        !(blocks is Fc),
    ensures
        ({
            let lora = factored::lora_list(dims, depths, blocks);
            let dense = factored::dense_list(dims, depths, blocks, qam_sites, vth_sites);
            &&& forall|i: int| 0 <= i < lora.len() ==> lora_slot_ok(w, #[trigger] lora[i])
            &&& forall|i: int| 0 <= i < dense.len() ==> dense_slot_ok(w, #[trigger] dense[i])
            &&& locs_distinct(lora)
            &&& locs_distinct(dense)
        }),
{
    assert(w.blk.len() == w.blk@.len());
    let lora = factored::lora_list(dims, depths, blocks);
    let dense = factored::dense_list(dims, depths, blocks, qam_sites, vth_sites);
    assert forall|i: int, k: int| 0 <= i < k < lora.len() && held(lora[i].loc) implies (
    #[trigger] lora[i]).loc != (#[trigger] lora[k]).loc by {
        if k < 6 * depths {
            assert(i / 6 != k / 6 || i % 6 != k % 6);
        }
    }
    assert forall|i: int, k: int| 0 <= i < k < dense.len() && held(dense[i].loc) implies (
    #[trigger] dense[i]).loc != (#[trigger] dense[k]).loc by {
        if k < 6 * depths {
            assert(i / 6 != k / 6 || i % 6 != k % 6);
        }
    }
}

/// A parameter that was written back and read again is the same parameter, wherever reading
/// undoes writing for the single tensor.
pub proof fn parameters_survive_write_back<
    W,
    M,
    B,
    F,
    FW: Fn(&OrigShape, &W) -> F,
    FM: Fn(&OrigShape, &M) -> F,
    FB: Fn(&OrigShape, &B) -> F,
    FC: Fn(StartValue, usize) -> F,
    UW: Fn(&F, [usize; 4]) -> W,
    UM: Fn(&F, [usize; 2]) -> M,
    UB: Fn(&F, usize) -> B,
>(
    w: SdtWeights<W, M, B>,
    s: FSlotSpec,
    p: F,
    q: F,
    fw: FW,
    fm: FM,
    fb: FB,
    fill: FC,
    uw: UW,
    um: UM,
    ub: UB,
)
    requires
        // `p` was written to slot `s`, and `q` was read from it afterwards
        held(s.loc),
        lora_slot_ok(w, s) && lora_restored(uw, um, w, s, p) || dense_slot_ok(w, s)
            && dense_restored(ub, w, s, p),
        param_made(fw, fm, fb, fill, w, s, q),
        forall|f: F, g: F, d: [usize; 4], x: W|
            #[trigger] uw.ensures((&f, d), x) && #[trigger] fw.ensures((&OrigShape::W4(d), &x), g)
                ==> f == g,
        forall|f: F, g: F, d: [usize; 2], x: M|
            #[trigger] um.ensures((&f, d), x) && #[trigger] fm.ensures((&OrigShape::W2(d), &x), g)
                ==> f == g,
        forall|f: F, g: F, n: usize, x: B|
            #[trigger] ub.ensures((&f, n), x) && #[trigger] fb.ensures((&OrigShape::B1(n), &x), g)
                ==> f == g,
    ensures
        q == p,
{
}

/// Weights of the fully connected network: three matrices and their biases.
pub struct FcBase<M, B> {
    pub w1: M,
    pub b1: B,
    pub w2: M,
    pub b2: B,
    pub w3: M,
    pub b3: B,
}

impl<M, B> FcBase<M, B> {
    /// Matrix of layer `k`.
    pub open spec fn w(self, k: int) -> M {
        if k == 0 {
            self.w1
        } else if k == 1 {
            self.w2
        } else {
            self.w3
        }
    }

    /// Bias of layer `k`.
    pub open spec fn b(self, k: int) -> B {
        if k == 0 {
            self.b1
        } else if k == 1 {
            self.b2
        } else {
            self.b3
        }
    }
}

/// A slot that may stand in the `lora` list of a fully connected network.
pub open spec fn fc_lora_slot_ok(s: FSlotSpec) -> bool {
    s.shape is W2 && s.loc is FcW
}

/// A slot that may stand in the `dense` list of a fully connected network.
pub open spec fn fc_dense_slot_ok(s: FSlotSpec) -> bool {
    s.shape is B1 && match s.loc {
        FLoc::FcB(_) => true,
        FLoc::Qam(_, which) => which < 2,
        _ => false,
    }
}

/// `p` was made of slot `s` of a fully connected network.
pub open spec fn fc_param_made<
    M,
    B,
    F,
    FM: Fn(&OrigShape, &M) -> F,
    FB: Fn(&OrigShape, &B) -> F,
    FC: Fn(StartValue, usize) -> F,
>(fm: FM, fb: FB, fill: FC, w: FcBase<M, B>, s: FSlotSpec, p: F) -> bool {
    match s.loc {
        FLoc::FcW(k) => fm.ensures((&s.shape, &w.w(k as int)), p),
        FLoc::FcB(k) => fb.ensures((&s.shape, &w.b(k as int)), p),
        _ => fill.ensures((start_value(s.loc), slot_n(s)), p),
    }
}

/// The parameter list of a fully connected network.
pub fn factored_params2d_fc<
    M,
    B,
    F,
    FM: Fn(&OrigShape, &M) -> F,
    FB: Fn(&OrigShape, &B) -> F,
    FC: Fn(StartValue, usize) -> F,
>(
    base: &FcBase<M, B>,
    lora: &[FSlotSpec],
    dense: &[FSlotSpec],
    fm: &FM,
    fb: &FB,
    fill: &FC,
) -> (out: Vec<F>)
    requires
        forall|i: int| 0 <= i < lora@.len() ==> fc_lora_slot_ok(#[trigger] lora@[i]),
        forall|i: int| 0 <= i < dense@.len() ==> fc_dense_slot_ok(#[trigger] dense@[i]),
        forall|s: &OrigShape, x: &M| fm.requires((s, x)),
        forall|s: &OrigShape, x: &B| fb.requires((s, x)),
        forall|v: StartValue, n: usize| fill.requires((v, n)),
    ensures
        out@.len() == lora@.len() + dense@.len(),
        forall|i: int|
            0 <= i < out@.len() ==> fc_param_made(
                *fm,
                *fb,
                *fill,
                *base,
                (lora@ + dense@)[i],
                #[trigger] out@[i],
            ),
{
    let ghost all = lora@ + dense@;
    let mut out: Vec<F> = Vec::new();
    let mut i: usize = 0;
    while i < lora.len()
        invariant
            i <= lora@.len(),
            all == lora@ + dense@,
            forall|i: int| 0 <= i < lora@.len() ==> fc_lora_slot_ok(#[trigger] lora@[i]),
            forall|s: &OrigShape, x: &M| fm.requires((s, x)),
            out@.len() == i,
            forall|k: int|
                0 <= k < i ==> fc_param_made(*fm, *fb, *fill, *base, all[k], #[trigger] out@[k]),
        decreases lora@.len() - i,
    {
        let s = &lora[i];
        assert(fc_lora_slot_ok(lora@[i as int]));
        let t = match s.loc {
            FLoc::FcW(0) => &base.w1,
            FLoc::FcW(1) => &base.w2,
            _ => &base.w3,
        };
        out.push(fm(&s.shape, t));
        i += 1;
    }
    let mut d: usize = 0;
    while d < dense.len()
        invariant
            d <= dense@.len(),
            all == lora@ + dense@,
            forall|i: int| 0 <= i < dense@.len() ==> fc_dense_slot_ok(#[trigger] dense@[i]),
            forall|s: &OrigShape, x: &B| fb.requires((s, x)),
            forall|v: StartValue, n: usize| fill.requires((v, n)),
            out@.len() == lora@.len() + d,
            forall|k: int|
                0 <= k < out@.len() ==> fc_param_made(
                    *fm,
                    *fb,
                    *fill,
                    *base,
                    all[k],
                    #[trigger] out@[k],
                ),
        decreases dense@.len() - d,
    {
        let s = &dense[d];
        assert(fc_dense_slot_ok(dense@[d as int]));
        let n: usize = match s.shape {
            OrigShape::B1(n) => n,
            _ => 0,
        };
        let p = match s.loc {
            FLoc::FcB(0) => fb(&s.shape, &base.b1),
            FLoc::FcB(1) => fb(&s.shape, &base.b2),
            FLoc::FcB(_) => fb(&s.shape, &base.b3),
            FLoc::Qam(_, 0) => fill(StartValue::Amplitude, n),
            _ => fill(StartValue::Phase, n),
        };
        out.push(p);
        d += 1;
    }
    out
}

/// Writes the parameter list back into a fully connected network with the slots of
/// [`factored::factored_slots`]: every matrix and every bias comes from the list.
pub fn write_back_fc<M, B, F, UM: Fn(&F, [usize; 2]) -> M, UB: Fn(&F, usize) -> B>(
    base: &mut FcBase<M, B>,
    lora: &[FSlotSpec],
    dense: &[FSlotSpec],
    params: &[F],
    um: &UM,
    ub: &UB,
)
    requires
        params@.len() == lora@.len() + dense@.len(),
        forall|i: int| 0 <= i < lora@.len() ==> fc_lora_slot_ok(#[trigger] lora@[i]),
        forall|i: int| 0 <= i < dense@.len() ==> fc_dense_slot_ok(#[trigger] dense@[i]),
        forall|i: int| 0 <= i < lora@.len() ==> (#[trigger] lora@[i]).loc == FLoc::FcW(i as usize),
        lora@.len() == 3,
        dense@.len() >= 3,
        forall|i: int| 0 <= i < 3 ==> (#[trigger] dense@[i]).loc == FLoc::FcB(i as usize),
        forall|i: int| 3 <= i < dense@.len() ==> (#[trigger] dense@[i]).loc is Qam,
        forall|f: &F, d: [usize; 2]| um.requires((f, d)),
        forall|f: &F, n: usize| ub.requires((f, n)),
    ensures
        forall|i: int|
            0 <= i < 3 ==> (lora@[i].shape matches OrigShape::W2(d) && um.ensures(
                (&params@[i], d),
                #[trigger] final(base).w(i),
            )),
        forall|i: int|
            0 <= i < 3 ==> ub.ensures(
                (&params@[3 + i], slot_n(dense@[i])),
                #[trigger] final(base).b(i),
            ),
{
    let mut i: usize = 0;
    while i < lora.len()
        invariant
            i <= lora@.len() == 3,
            params@.len() == lora@.len() + dense@.len(),
            forall|i: int| 0 <= i < lora@.len() ==> fc_lora_slot_ok(#[trigger] lora@[i]),
            forall|i: int|
                0 <= i < lora@.len() ==> (#[trigger] lora@[i]).loc == FLoc::FcW(i as usize),
            forall|f: &F, d: [usize; 2]| um.requires((f, d)),
            forall|k: int|
                0 <= k < i ==> (lora@[k].shape matches OrigShape::W2(d) && um.ensures(
                    (&params@[k], d),
                    #[trigger] base.w(k),
                )),
        decreases lora@.len() - i,
    {
        let s = &lora[i];
        let ghost before = *base;
        assert(fc_lora_slot_ok(lora@[i as int]));
        match (s.loc, s.shape) {
            (FLoc::FcW(k), OrigShape::W2(d)) => {
                let t = um(&params[i], d);
                if k == 0 {
                    base.w1 = t;
                } else if k == 1 {
                    base.w2 = t;
                } else {
                    base.w3 = t;
                }
            },
            _ => {},
        }
        assert(forall|k: int| 0 <= k < i ==> #[trigger] base.w(k) == before.w(k));
        i += 1;
    }
    let np: usize = params.len();
    let mut d: usize = 0;
    while d < dense.len()
        invariant
            d <= dense@.len(),
            dense@.len() >= 3,
            lora@.len() == 3,
            np == params@.len() == lora@.len() + dense@.len(),
            forall|i: int| 0 <= i < dense@.len() ==> fc_dense_slot_ok(#[trigger] dense@[i]),
            forall|i: int| 0 <= i < 3 ==> (#[trigger] dense@[i]).loc == FLoc::FcB(i as usize),
            forall|i: int| 3 <= i < dense@.len() ==> (#[trigger] dense@[i]).loc is Qam,
            forall|f: &F, n: usize| ub.requires((f, n)),
            forall|k: int|
                0 <= k < 3 ==> (lora@[k].shape matches OrigShape::W2(d) && um.ensures(
                    (&params@[k], d),
                    #[trigger] base.w(k),
                )),
            forall|k: int|
                0 <= k < 3 && k < d ==> ub.ensures(
                    (&params@[3 + k], slot_n(dense@[k])),
                    #[trigger] base.b(k),
                ),
        decreases dense@.len() - d,
    {
        let s = &dense[d];
        let ghost before = *base;
        assert(fc_dense_slot_ok(dense@[d as int]));
        match (s.loc, s.shape) {
            (FLoc::FcB(k), OrigShape::B1(n)) => {
                let t = ub(&params[3 + d], n);
                if k == 0 {
                    base.b1 = t;
                } else if k == 1 {
                    base.b2 = t;
                } else {
                    base.b3 = t;
                }
            },
            _ => {},
        }
        assert(base.w(0) == before.w(0) && base.w(1) == before.w(1) && base.w(2) == before.w(2));
        assert(forall|k: int| 0 <= k < 3 && k < d ==> #[trigger] base.b(k) == before.b(k));
        d += 1;
    }
}

/// A fresh parameter list leaves the forward pass as it is: the threshold of a site starts at what
/// the site's neurons fire at without one of their own.
pub proof fn thresholds_start_at_the_levels(site: usize)
    ensures
        start_value(FLoc::Vth(site)) == StartValue::ThresholdHalf <==> net::level_at(site as int)
            == Level::Half,
        start_value(FLoc::Vth(site)) == StartValue::ThresholdOne <==> net::level_at(site as int)
            == Level::Full,
{
}

/// The parameters that no tensor stands for: a threshold starts at the level of its site, the
/// first modulation of a site at the amplitude and the second at the phase, each as long as its
/// slot.
pub proof fn fresh_parameters_are_start_values<
    W,
    M,
    B,
    F,
    FW: Fn(&OrigShape, &W) -> F,
    FM: Fn(&OrigShape, &M) -> F,
    FB: Fn(&OrigShape, &B) -> F,
    FC: Fn(StartValue, usize) -> F,
>(fw: FW, fm: FM, fb: FB, fill: FC, w: SdtWeights<W, M, B>, s: FSlotSpec, site: usize, n: usize, p: F)
    requires
        // what `factored_params2d` says of a parameter
        param_made(fw, fm, fb, fill, w, s, p),
        s.shape == OrigShape::B1(n),
    ensures
        s.loc == FLoc::Vth(site) && net::level_at(site as int) == Level::Half ==> fill.ensures(
            (StartValue::ThresholdHalf, n),
            p,
        ),
        s.loc == FLoc::Vth(site) && net::level_at(site as int) == Level::Full ==> fill.ensures(
            (StartValue::ThresholdOne, n),
            p,
        ),
        s.loc == FLoc::Qam(site, 0) ==> fill.ensures((StartValue::Amplitude, n), p),
        s.loc == FLoc::Qam(site, 1) ==> fill.ensures((StartValue::Phase, n), p),
{
}

/// The parameters of a block are made of the tensors that carry their names: of queries, keys,
/// values and the projection of attention, and of the two layers of the perceptron, weights and
/// biases alike.
pub proof fn parameters_are_the_named_tensors<
    W,
    M,
    B,
    F,
    FW: Fn(&OrigShape, &W) -> F,
    FM: Fn(&OrigShape, &M) -> F,
    FB: Fn(&OrigShape, &B) -> F,
    FC: Fn(StartValue, usize) -> F,
>(fw: FW, fm: FM, fb: FB, fill: FC, w: SdtWeights<W, M, B>, s: FSlotSpec, j: usize, p: F)
    requires
        // what `factored_params2d` says of a parameter
        param_made(fw, fm, fb, fill, w, s, p),
        j < w.blk@.len(),
    ensures
        ({
            let b = w.blk@[j as int];
            &&& s.loc == FLoc::BlkW(j, 0) ==> fw.ensures((&s.shape, &b.q.w), p)
            &&& s.loc == FLoc::BlkW(j, 1) ==> fw.ensures((&s.shape, &b.k.w), p)
            &&& s.loc == FLoc::BlkW(j, 2) ==> fw.ensures((&s.shape, &b.v.w), p)
            &&& s.loc == FLoc::BlkW(j, 3) ==> fw.ensures((&s.shape, &b.proj.w), p)
            &&& s.loc == FLoc::BlkW(j, 4) ==> fw.ensures((&s.shape, &b.fc1.w), p)
            &&& s.loc == FLoc::BlkW(j, 5) ==> fw.ensures((&s.shape, &b.fc2.w), p)
            &&& s.loc == FLoc::BlkB(j, 0) ==> fb.ensures((&s.shape, &b.q.b), p)
            &&& s.loc == FLoc::BlkB(j, 1) ==> fb.ensures((&s.shape, &b.k.b), p)
            &&& s.loc == FLoc::BlkB(j, 2) ==> fb.ensures((&s.shape, &b.v.b), p)
            &&& s.loc == FLoc::BlkB(j, 3) ==> fb.ensures((&s.shape, &b.proj.b), p)
            &&& s.loc == FLoc::BlkB(j, 4) ==> fb.ensures((&s.shape, &b.fc1.b), p)
            &&& s.loc == FLoc::BlkB(j, 5) ==> fb.ensures((&s.shape, &b.fc2.b), p)
            &&& s.loc == FLoc::HeadW ==> fm.ensures((&s.shape, &w.head_w), p)
            &&& s.loc == FLoc::HeadB ==> fb.ensures((&s.shape, &w.head_b), p)
        }),
{
}

/// The parameters of the fully connected network are made of its three matrices, its three biases
/// and, where a site is modulated, the start values of amplitude and phase.
pub proof fn fc_parameters_are_the_named_tensors<
    M,
    B,
    F,
    FM: Fn(&OrigShape, &M) -> F,
    FB: Fn(&OrigShape, &B) -> F,
    FC: Fn(StartValue, usize) -> F,
>(fm: FM, fb: FB, fill: FC, w: FcBase<M, B>, s: FSlotSpec, site: usize, n: usize, p: F)
    requires
        // what `factored_params2d_fc` says of a parameter
        fc_param_made(fm, fb, fill, w, s, p),
    ensures
        s.loc == FLoc::FcW(0) ==> fm.ensures((&s.shape, &w.w1), p),
        s.loc == FLoc::FcW(1) ==> fm.ensures((&s.shape, &w.w2), p),
        s.loc == FLoc::FcW(2) ==> fm.ensures((&s.shape, &w.w3), p),
        s.loc == FLoc::FcB(0) ==> fb.ensures((&s.shape, &w.b1), p),
        s.loc == FLoc::FcB(1) ==> fb.ensures((&s.shape, &w.b2), p),
        s.loc == FLoc::FcB(2) ==> fb.ensures((&s.shape, &w.b3), p),
        s.loc == FLoc::Qam(site, 0) && s.shape == OrigShape::B1(n) ==> fill.ensures(
            (StartValue::Amplitude, n),
            p,
        ),
        s.loc == FLoc::Qam(site, 1) && s.shape == OrigShape::B1(n) ==> fill.ensures(
            (StartValue::Phase, n),
            p,
        ),
{
}

/// A parameter goes back to the tensor that carries its name.
pub proof fn named_tensors_are_written_back<
    W,
    M,
    B,
    F,
    UW: Fn(&F, [usize; 4]) -> W,
    UM: Fn(&F, [usize; 2]) -> M,
    UB: Fn(&F, usize) -> B,
>(
    uw: UW,
    um: UM,
    ub: UB,
    w: SdtWeights<W, M, B>,
    s: FSlotSpec,
    j: usize,
    d: [usize; 4],
    e: [usize; 2],
    n: usize,
    p: F,
)
    requires
        // what `write_back_factored` says of a slot
        lora_slot_ok(w, s) && lora_restored(uw, um, w, s, p) || dense_slot_ok(w, s)
            && dense_restored(ub, w, s, p),
        j < w.blk@.len(),
        s.shape is W4 ==> s.shape == OrigShape::W4(d),
        s.shape is W2 ==> s.shape == OrigShape::W2(e),
        s.shape is B1 ==> s.shape == OrigShape::B1(n),
    ensures
        ({
            let b = w.blk@[j as int];
            &&& s.loc == FLoc::BlkW(j, 0) ==> uw.ensures((&p, d), b.q.w)
            &&& s.loc == FLoc::BlkW(j, 1) ==> uw.ensures((&p, d), b.k.w)
            &&& s.loc == FLoc::BlkW(j, 2) ==> uw.ensures((&p, d), b.v.w)
            &&& s.loc == FLoc::BlkW(j, 3) ==> uw.ensures((&p, d), b.proj.w)
            &&& s.loc == FLoc::BlkW(j, 4) ==> uw.ensures((&p, d), b.fc1.w)
            &&& s.loc == FLoc::BlkW(j, 5) ==> uw.ensures((&p, d), b.fc2.w)
            &&& s.loc == FLoc::BlkB(j, 0) ==> ub.ensures((&p, n), b.q.b)
            &&& s.loc == FLoc::BlkB(j, 1) ==> ub.ensures((&p, n), b.k.b)
            &&& s.loc == FLoc::BlkB(j, 2) ==> ub.ensures((&p, n), b.v.b)
            &&& s.loc == FLoc::BlkB(j, 3) ==> ub.ensures((&p, n), b.proj.b)
            &&& s.loc == FLoc::BlkB(j, 4) ==> ub.ensures((&p, n), b.fc1.b)
            &&& s.loc == FLoc::BlkB(j, 5) ==> ub.ensures((&p, n), b.fc2.b)
            &&& s.loc == FLoc::HeadW ==> um.ensures((&p, e), w.head_w)
            &&& s.loc == FLoc::HeadB ==> ub.ensures((&p, n), w.head_b)
        }),
{
}

} // verus!
