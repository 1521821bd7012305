//! Training slots: the tensors of the network as a list of two-dimensional parameters.

use crate::weights;
use crate::weights::{LayerSel, SdtWeights, SlotVal};
use vstd::prelude::*;

verus! {

/// Shape that a slot has outside the two-dimensional list.
#[derive(Clone, Copy, Debug, PartialEq, Eq)]
pub enum OrigShape {
    /// Convolution kernel `[out, in, height, width]`.
    W4([usize; 4]),
    /// Matrix `[out, in]`.
    W2([usize; 2]),
    /// Vector of the given length.
    B1(usize),
}

impl OrigShape {
    /// The dimensions, outermost first.
    pub open spec fn dims(self) -> Seq<usize> {
        match self {
            OrigShape::W4(s) => s@,
            OrigShape::W2(s) => s@,
            OrigShape::B1(n) => seq![n],
        }
    }

    /// Rows of the two-dimensional form.
    pub open spec fn rows(self) -> int {
        match self {
            OrigShape::W4(s) => s[0] as int,
            OrigShape::W2(s) => s[0] as int,
            OrigShape::B1(n) => n as int,
        }
    }

    /// Columns of the two-dimensional form.
    pub open spec fn cols(self) -> int {
        match self {
            OrigShape::W4(s) => s[1] * s[2] * s[3],
            OrigShape::W2(s) => s[1] as int,
            OrigShape::B1(_) => 1,
        }
    }

    /// Number of elements.
    pub open spec fn numel(self) -> int {
        self.rows() * self.cols()
    }

    /// Every product of leading or of trailing dimensions fits a machine word.
    pub open spec fn fits(self) -> bool {
        match self {
            OrigShape::W4(s) => {
                &&& s[0] * s[1] <= usize::MAX
                &&& s[0] * s[1] * s[2] <= usize::MAX
                &&& s[1] * s[2] <= usize::MAX
                &&& s[1] * s[2] * s[3] <= usize::MAX
                &&& self.numel() <= usize::MAX
            },
            _ => self.numel() <= usize::MAX,
        }
    }

    /// Two-dimensional form: first dimension by all the others.
    pub fn flat2d(&self) -> (r: [usize; 2])
        requires
            self.fits(),
        ensures
            r[0] == self.rows(),
            r[1] == self.cols(),
    {
        match self {
            OrigShape::W4(s) => [s[0], s[1] * s[2] * s[3]],
            OrigShape::W2(s) => [s[0], s[1]],
            OrigShape::B1(n) => [*n, 1],
        }
    }

    /// The dimensions, outermost first.
    pub fn orig_dims(&self) -> (r: Vec<usize>)
        ensures
            r@ == self.dims(),
    {
        let mut r: Vec<usize> = Vec::new();
        match self {
            OrigShape::W4(s) => {
                r.push(s[0]);
                r.push(s[1]);
                r.push(s[2]);
                r.push(s[3]);
            },
            OrigShape::W2(s) => {
                r.push(s[0]);
                r.push(s[1]);
            },
            OrigShape::B1(n) => {
                r.push(*n);
            },
        }
        r
    }

    /// Number of elements.
    pub fn count(&self) -> (n: usize)
        requires
            self.fits(),
        ensures
            n == self.numel(),
    {
        let f = self.flat2d();
        f[0] * f[1]
    }
}

/// Odd multiplier that spreads slot numbers over the key space.
pub const KEY_MUL: u64 = 0x9E37_79B9_7F4A_7C15;

/// Noise key of slot number `i`.
pub open spec fn slot_key(i: int) -> u64 {
    vstd::wrapping::u64_specs::wrapping_mul((i + 1) as u64, KEY_MUL)
}

/// Elements in all slots together.
pub open spec fn sum_numel(shapes: Seq<OrigShape>) -> int
    decreases shapes.len(),
{
    if shapes.len() == 0 {
        0
    } else {
        sum_numel(shapes.drop_last()) + shapes.last().numel()
    }
}

/// A tree of shapes in place of tensors.
pub type ShapeTree = SdtWeights<[usize; 4], [usize; 2], usize>;

/// Shape of one tensor.
pub open spec fn shape_of(s: SlotVal<[usize; 4], [usize; 2], usize>) -> OrigShape {
    match s {
        SlotVal::Conv(d) => OrigShape::W4(d),
        SlotVal::Lin(d) => OrigShape::W2(d),
        SlotVal::Bias(n) => OrigShape::B1(n),
    }
}

/// Shapes of all slots of a network with `depths` blocks.
pub open spec fn shapes_of(dims: ShapeTree, depths: int) -> Seq<OrigShape> {
    Seq::new(weights::num_slots(depths) as nat, |i: int| shape_of(dims.slot(depths, i)))
}

/// Whether each position of the list has the rank that the tree has there.
pub open spec fn ranks_match(shapes: Seq<OrigShape>, depths: int) -> bool {
    &&& shapes.len() == weights::num_slots(depths)
    &&& forall|i: int|
        0 <= i < shapes.len() ==> if i % 2 == 1 {
            (#[trigger] shapes[i]) is B1
        } else if i == shapes.len() - 2 {
            shapes[i] is W2
        } else {
            shapes[i] is W4
        }
}

/// The slots of a network.
pub struct EsSlots<M> {
    /// Shape of each slot.
    pub shapes: Vec<OrigShape>,
    /// Whether the slot takes low-rank noise (weights) or dense noise (biases).
    pub lora: Vec<bool>,
    /// Noise key of each slot.
    pub keys: Vec<u64>,
    /// Number of parameters in all slots.
    pub num_params: usize,
    /// Talking-heads matrices: no slots, carried along.
    pub th_w: Vec<M>,
}

impl<M> EsSlots<M> {
    /// What the slots of a network with `depths` blocks and shapes `shapes` are.
    pub open spec fn is_for(self, shapes: Seq<OrigShape>, depths: int) -> bool {
        &&& self.shapes@ == shapes
        &&& ranks_match(shapes, depths)
        &&& self.lora@ == Seq::new(shapes.len(), |i: int| i % 2 == 0)
        &&& self.keys@ == Seq::new(shapes.len(), |i: int| slot_key(i))
        &&& self.num_params == sum_numel(shapes)
    }
}

/// A prefix of the slots has no more elements than all of them.
proof fn sum_numel_mono(shapes: Seq<OrigShape>, k: int)
    requires
        0 <= k <= shapes.len(),
    ensures
        0 <= sum_numel(shapes.take(k)) <= sum_numel(shapes),
    decreases shapes.len(),
{
    if shapes.len() == 0 {
        assert(shapes.take(k) =~= shapes);
    } else {
        let last = shapes.last();
        assert(last.numel() >= 0) by (nonlinear_arith)
            requires
                last.numel() == last.rows() * last.cols(),
                last.rows() >= 0,
                last.cols() >= 0,
        {};
        if k == shapes.len() {
            assert(shapes.take(k) =~= shapes);
            sum_numel_mono(shapes.drop_last(), k - 1);
        } else {
            sum_numel_mono(shapes.drop_last(), k);
            assert(shapes.drop_last().take(k) =~= shapes.take(k));
        }
    }
}

/// Slots of the first `depths` blocks of a network, with the layers around them.
pub fn slots_of<M>(dims: &ShapeTree, th_w: Vec<M>, depths: usize) -> (r: EsSlots<M>)
    requires
        depths <= dims.blk@.len(),
        weights::num_slots(depths as int) <= usize::MAX,
        forall|i: int|
            0 <= i < weights::num_slots(depths as int) ==> (#[trigger] shapes_of(
                *dims,
                depths as int,
            )[i]).fits(),
        sum_numel(shapes_of(*dims, depths as int)) <= usize::MAX,
    ensures
        r.is_for(shapes_of(*dims, depths as int), depths as int),
        r.th_w == th_w,
{
    let ghost all = shapes_of(*dims, depths as int);
    let mut shapes: Vec<OrigShape> = Vec::new();
    let mut lora: Vec<bool> = Vec::new();
    let mut keys: Vec<u64> = Vec::new();
    let mut num_params: usize = 0;
    let n: usize = 2 * (6 + 6 * depths);
    let mut i: usize = 0;
    while i < n
        invariant
            i <= n,
            n == weights::num_slots(depths as int) <= usize::MAX,
            depths <= dims.blk@.len(),
            all == shapes_of(*dims, depths as int),
            forall|k: int| 0 <= k < n ==> (#[trigger] all[k]).fits(),
            sum_numel(all) <= usize::MAX,
            shapes@ == all.take(i as int),
            lora@ == Seq::new(i as nat, |k: int| k % 2 == 0),
            keys@ == Seq::new(i as nat, |k: int| slot_key(k)),
            num_params == sum_numel(all.take(i as int)),
        decreases n - i,
    {
        let sel = weights::layer_sel(depths, i / 2);
        let shape = match sel {
            LayerSel::Head => if i % 2 == 0 {
                OrigShape::W2(dims.head_w)
            } else {
                OrigShape::B1(dims.head_b)
            },
            _ => {
                let c = weights::get_conv(dims, sel);
                if i % 2 == 0 {
                    OrigShape::W4(c.w)
                } else {
                    OrigShape::B1(c.b)
                }
            },
        };
        assert(shape == all[i as int]);
        proof {
            sum_numel_mono(all, i + 1);
            assert(all.take(i + 1).drop_last() =~= all.take(i as int));
        }
        num_params += shape.count();
        shapes.push(shape);
        lora.push(i % 2 == 0);
        keys.push((i as u64 + 1).wrapping_mul(KEY_MUL));
        proof {
            assert(shapes@ =~= all.take(i + 1));
            assert(lora@ =~= Seq::new((i + 1) as nat, |k: int| k % 2 == 0));
            assert(keys@ =~= Seq::new((i + 1) as nat, |k: int| slot_key(k)));
        }
        i += 1;
    }
    assert(all.take(n as int) =~= all);
    EsSlots { shapes, lora, keys, num_params, th_w }
}

/// `fw`, `fm` and `fb` made the two-dimensional parameter `f` of tensor `s`.
pub open spec fn slot_flattened<
    W,
    M,
    B,
    F,
    FW: Fn(&OrigShape, &W) -> F,
    FM: Fn(&OrigShape, &M) -> F,
    FB: Fn(&OrigShape, &B) -> F,
>(fw: FW, fm: FM, fb: FB, shape: OrigShape, s: SlotVal<W, M, B>, f: F) -> bool {
    match s {
        SlotVal::Conv(x) => fw.ensures((&shape, &x), f),
        SlotVal::Lin(x) => fm.ensures((&shape, &x), f),
        SlotVal::Bias(x) => fb.ensures((&shape, &x), f),
    }
}

/// The parameter list of a network: each tensor flattened by the function for its rank.
pub fn flatten_params<
    T,
    W,
    M,
    B,
    F,
    FW: Fn(&OrigShape, &W) -> F,
    FM: Fn(&OrigShape, &M) -> F,
    FB: Fn(&OrigShape, &B) -> F,
>(slots: &EsSlots<T>, w: &SdtWeights<W, M, B>, depths: usize, fw: &FW, fm: &FM, fb: &FB) -> (out:
    Vec<F>)
    requires
        depths <= w.blk@.len(),
        slots.shapes@.len() == weights::num_slots(depths as int),
        forall|s: &OrigShape, x: &W| fw.requires((s, x)),
        forall|s: &OrigShape, x: &M| fm.requires((s, x)),
        forall|s: &OrigShape, x: &B| fb.requires((s, x)),
    ensures
        out@.len() == weights::num_slots(depths as int),
        forall|i: int|
            0 <= i < out@.len() ==> slot_flattened(
                *fw,
                *fm,
                *fb,
                slots.shapes@[i],
                w.slot(depths as int, i),
                #[trigger] out@[i],
            ),
{
    let mut out: Vec<F> = Vec::new();
    let n: usize = slots.shapes.len();
    let mut i: usize = 0;
    while i < n
        invariant
            i <= n,
            n == slots.shapes@.len() == weights::num_slots(depths as int),
            depths <= w.blk@.len(),
            forall|s: &OrigShape, x: &W| fw.requires((s, x)),
            forall|s: &OrigShape, x: &M| fm.requires((s, x)),
            forall|s: &OrigShape, x: &B| fb.requires((s, x)),
            out@.len() == i,
            forall|k: int|
                0 <= k < i ==> slot_flattened(
                    *fw,
                    *fm,
                    *fb,
                    slots.shapes@[k],
                    w.slot(depths as int, k),
                    #[trigger] out@[k],
                ),
        decreases n - i,
    {
        let sel = weights::layer_sel(depths, i / 2);
        let f = match sel {
            LayerSel::Head => if i % 2 == 0 {
                fm(&slots.shapes[i], &w.head_w)
            } else {
                fb(&slots.shapes[i], &w.head_b)
            },
            _ => {
                let c = weights::get_conv(w, sel);
                if i % 2 == 0 {
                    fw(&slots.shapes[i], &c.w)
                } else {
                    fb(&slots.shapes[i], &c.b)
                }
            },
        };
        out.push(f);
        i += 1;
    }
    out
}

/// `uw`, `um` and `ub` restored tensor `s` of shape `shape` from the parameter `f`.
pub open spec fn slot_restored<
    W,
    M,
    B,
    F,
    UW: Fn(&F, [usize; 4]) -> W,
    UM: Fn(&F, [usize; 2]) -> M,
    UB: Fn(&F, usize) -> B,
>(uw: UW, um: UM, ub: UB, shape: OrigShape, f: F, s: SlotVal<W, M, B>) -> bool {
    match (shape, s) {
        (OrigShape::W4(d), SlotVal::Conv(x)) => uw.ensures((&f, d), x),
        (OrigShape::W2(d), SlotVal::Lin(x)) => um.ensures((&f, d), x),
        (OrigShape::B1(n), SlotVal::Bias(x)) => ub.ensures((&f, n), x),
        _ => false,
    }
}

/// The network of a parameter list: the inverse of [`flatten_params`]. Talking-heads
/// matrices are copied by `keep`.
pub fn assemble<
    W,
    M,
    B,
    F,
    UW: Fn(&F, [usize; 4]) -> W,
    UM: Fn(&F, [usize; 2]) -> M,
    UB: Fn(&F, usize) -> B,
    UK: Fn(&M) -> M,
>(slots: &EsSlots<M>, depths: usize, flat: &[F], uw: &UW, um: &UM, ub: &UB, keep: &UK) -> (r:
    SdtWeights<W, M, B>)
    requires
        ranks_match(slots.shapes@, depths as int),
        flat@.len() == slots.shapes@.len(),
        depths <= slots.th_w@.len(),
        forall|f: &F, d: [usize; 4]| uw.requires((f, d)),
        forall|f: &F, d: [usize; 2]| um.requires((f, d)),
        forall|f: &F, n: usize| ub.requires((f, n)),
        forall|m: &M| keep.requires((m,)),
    ensures
        r.blk@.len() == depths,
        forall|i: int|
            0 <= i < flat@.len() ==> slot_restored(
                *uw,
                *um,
                *ub,
                slots.shapes@[i],
                flat@[i],
                #[trigger] r.slot(depths as int, i),
            ),
        forall|j: int|
            0 <= j < depths ==> (#[trigger] r.blk@[j]).layer == j && keep.ensures(
                (&slots.th_w@[j],),
                r.blk@[j].th_w,
            ),
{
    let conv = |i: usize| -> (x: W)
        requires
            i < slots.shapes@.len(),
            flat@.len() == slots.shapes@.len(),
            slots.shapes@[i as int] is W4,
            forall|f: &F, d: [usize; 4]| uw.requires((f, d)),
        ensures
            slots.shapes@[i as int] matches OrigShape::W4(d) && uw.ensures((&flat@[i as int], d), x),
        {
            match slots.shapes[i] {
                OrigShape::W4(d) => uw(&flat[i], d),
                _ => uw(&flat[i], [0, 0, 0, 0]),
            }
        };
    let lin = |i: usize| -> (x: M)
        requires
            i < slots.shapes@.len(),
            flat@.len() == slots.shapes@.len(),
            slots.shapes@[i as int] is W2,
            forall|f: &F, d: [usize; 2]| um.requires((f, d)),
        ensures
            slots.shapes@[i as int] matches OrigShape::W2(d) && um.ensures((&flat@[i as int], d), x),
        {
            match slots.shapes[i] {
                OrigShape::W2(d) => um(&flat[i], d),
                _ => um(&flat[i], [0, 0]),
            }
        };
    let bias = |i: usize| -> (x: B)
        requires
            i < slots.shapes@.len(),
            flat@.len() == slots.shapes@.len(),
            slots.shapes@[i as int] is B1,
            forall|f: &F, n: usize| ub.requires((f, n)),
        ensures
            slots.shapes@[i as int] matches OrigShape::B1(n) && ub.ensures((&flat@[i as int], n), x),
        {
            match slots.shapes[i] {
                OrigShape::B1(n) => ub(&flat[i], n),
                _ => ub(&flat[i], 0),
            }
        };
    let th = |j: usize| -> (x: M)
        requires
            j < slots.th_w@.len(),
            forall|m: &M| keep.requires((m,)),
        ensures
            keep.ensures((&slots.th_w@[j as int],), x),
        { keep(&slots.th_w[j]) };
    assert(slots.shapes.len() == flat@.len());
    let r = weights::build_weights(depths, conv, lin, bias, th);
    proof {
        assert forall|i: int| 0 <= i < flat@.len() implies slot_restored(
            *uw,
            *um,
            *ub,
            slots.shapes@[i],
            flat@[i],
            #[trigger] r.slot(depths as int, i),
        ) by {
            assert(weights::slot_made(conv, lin, bias, i, r.slot(depths as int, i)));
        }
    }
    r
}

/// `aw`, `am` and `ab` made tensor `t` of tensor `s` and the perturbation `f`.
pub open spec fn slot_perturbed<
    W,
    M,
    B,
    F,
    AW: Fn(&W, &F, [usize; 4]) -> W,
    AM: Fn(&M, &F, [usize; 2]) -> M,
    AB: Fn(&B, &F, usize) -> B,
>(
    aw: AW,
    am: AM,
    ab: AB,
    shape: OrigShape,
    s: SlotVal<W, M, B>,
    f: F,
    t: SlotVal<W, M, B>,
) -> bool {
    match (shape, s, t) {
        (OrigShape::W4(d), SlotVal::Conv(x), SlotVal::Conv(y)) => aw.ensures((&x, &f, d), y),
        (OrigShape::W2(d), SlotVal::Lin(x), SlotVal::Lin(y)) => am.ensures((&x, &f, d), y),
        (OrigShape::B1(n), SlotVal::Bias(x), SlotVal::Bias(y)) => ab.ensures((&x, &f, n), y),
        _ => false,
    }
}

/// The network with one perturbation added in every slot: tensor `i` of the result is made
/// of tensor `i` of `base` and `delta[i]`. Talking-heads matrices are copied by `keep`.
pub fn perturb_weights<
    W,
    M,
    B,
    F,
    AW: Fn(&W, &F, [usize; 4]) -> W,
    AM: Fn(&M, &F, [usize; 2]) -> M,
    AB: Fn(&B, &F, usize) -> B,
    UK: Fn(&M) -> M,
>(
    slots: &EsSlots<M>,
    depths: usize,
    base: &SdtWeights<W, M, B>,
    delta: &[F],
    aw: &AW,
    am: &AM,
    ab: &AB,
    keep: &UK,
) -> (r: SdtWeights<W, M, B>)
    requires
        ranks_match(slots.shapes@, depths as int),
        delta@.len() == slots.shapes@.len(),
        depths <= base.blk@.len(),
        depths <= slots.th_w@.len(),
        forall|x: &W, f: &F, d: [usize; 4]| aw.requires((x, f, d)),
        forall|x: &M, f: &F, d: [usize; 2]| am.requires((x, f, d)),
        forall|x: &B, f: &F, n: usize| ab.requires((x, f, n)),
        forall|m: &M| keep.requires((m,)),
    ensures
        r.blk@.len() == depths,
        forall|i: int|
            0 <= i < delta@.len() ==> slot_perturbed(
                *aw,
                *am,
                *ab,
                slots.shapes@[i],
                base.slot(depths as int, i),
                delta@[i],
                #[trigger] r.slot(depths as int, i),
            ),
        forall|j: int|
            0 <= j < depths ==> (#[trigger] r.blk@[j]).layer == j && keep.ensures(
                (&slots.th_w@[j],),
                r.blk@[j].th_w,
            ),
{
    assert(slots.shapes.len() == delta@.len());
    let conv = |i: usize| -> (x: W)
        requires
            i < delta@.len() - 2,
            i % 2 == 0,
            delta@.len() == slots.shapes@.len() == weights::num_slots(depths as int) <= usize::MAX,
            depths <= base.blk@.len(),
            slots.shapes@[i as int] is W4,
            forall|x: &W, f: &F, d: [usize; 4]| aw.requires((x, f, d)),
        ensures
            slots.shapes@[i as int] matches OrigShape::W4(d) && aw.ensures(
                (
                    &base.conv(weights::layer_at(depths as int, i as int / 2)).w,
                    &delta@[i as int],
                    d,
                ),
                x,
            ),
        {
            let c = weights::get_conv(base, weights::layer_sel(depths, i / 2));
            match slots.shapes[i] {
                OrigShape::W4(d) => aw(&c.w, &delta[i], d),
                _ => aw(&c.w, &delta[i], [0, 0, 0, 0]),
            }
        };
    let lin = |i: usize| -> (x: M)
        requires
            i < delta@.len(),
            delta@.len() == slots.shapes@.len(),
            slots.shapes@[i as int] is W2,
            forall|x: &M, f: &F, d: [usize; 2]| am.requires((x, f, d)),
        ensures
            slots.shapes@[i as int] matches OrigShape::W2(d) && am.ensures(
                (&base.head_w, &delta@[i as int], d),
                x,
            ),
        {
            match slots.shapes[i] {
                OrigShape::W2(d) => am(&base.head_w, &delta[i], d),
                _ => am(&base.head_w, &delta[i], [0, 0]),
            }
        };
    let bias = |i: usize| -> (x: B)
        requires
            i < delta@.len(),
            i % 2 == 1,
            delta@.len() == slots.shapes@.len() == weights::num_slots(depths as int) <= usize::MAX,
            depths <= base.blk@.len(),
            slots.shapes@[i as int] is B1,
            forall|x: &B, f: &F, n: usize| ab.requires((x, f, n)),
        ensures
            slots.shapes@[i as int] matches OrigShape::B1(n) && base.slot(
                depths as int,
                i as int,
            ) matches SlotVal::Bias(b) && ab.ensures((&b, &delta@[i as int], n), x),
        {
            let sel = weights::layer_sel(depths, i / 2);
            let b = match sel {
                LayerSel::Head => &base.head_b,
                _ => &weights::get_conv(base, sel).b,
            };
            match slots.shapes[i] {
                OrigShape::B1(n) => ab(b, &delta[i], n),
                _ => ab(b, &delta[i], 0),
            }
        };
    let th = |j: usize| -> (x: M)
        requires
            j < slots.th_w@.len(),
            forall|m: &M| keep.requires((m,)),
        ensures
            keep.ensures((&slots.th_w@[j as int],), x),
        { keep(&slots.th_w[j]) };
    let r = weights::build_weights(depths, conv, lin, bias, th);
    proof {
        assert forall|i: int| 0 <= i < delta@.len() implies slot_perturbed(
            *aw,
            *am,
            *ab,
            slots.shapes@[i],
            base.slot(depths as int, i),
            delta@[i],
            #[trigger] r.slot(depths as int, i),
        ) by {
            assert(weights::slot_made(conv, lin, bias, i, r.slot(depths as int, i)));
        }
    }
    r
}

/// Whether these are the talking-heads matrices of a network whose blocks are numbered in order.
pub open spec fn are_kept<W, M, B>(th_w: Seq<M>, w: SdtWeights<W, M, B>) -> bool {
    th_w.len() == w.blk@.len() && forall|j: int|
        0 <= j < w.blk@.len() ==> (#[trigger] w.blk@[j]).layer == j && w.blk@[j].th_w == th_w[j]
}

/// Whether a function copies.
pub open spec fn copies<M, UK: Fn(&M) -> M>(keep: UK) -> bool {
    forall|m: &M, c: M| #[trigger] keep.ensures((m,), c) ==> c == *m
}

/// Flattening a network and assembling the result gives the network back, for every pair of
/// tensor functions where the second undoes the first, whatever the tensors are.
pub proof fn assemble_undoes_flatten<
    W,
    M,
    B,
    F,
    FW: Fn(&OrigShape, &W) -> F,
    FM: Fn(&OrigShape, &M) -> F,
    FB: Fn(&OrigShape, &B) -> F,
    UW: Fn(&F, [usize; 4]) -> W,
    UM: Fn(&F, [usize; 2]) -> M,
    UB: Fn(&F, usize) -> B,
    UK: Fn(&M) -> M,
>(
    shapes: Seq<OrigShape>,
    th_w: Seq<M>,
    w: SdtWeights<W, M, B>,
    flat: Seq<F>,
    r: SdtWeights<W, M, B>,
    fw: FW,
    fm: FM,
    fb: FB,
    uw: UW,
    um: UM,
    ub: UB,
    keep: UK,
)
    requires
        shapes.len() == flat.len() == weights::num_slots(w.blk@.len() as int),
        r.blk@.len() == w.blk@.len(),
        are_kept(th_w, w),
        copies(keep),
        // what `flatten_params` says of `flat`
        forall|i: int|
            0 <= i < flat.len() ==> slot_flattened(
                fw,
                fm,
                fb,
                shapes[i],
                w.slot(w.blk@.len() as int, i),
                #[trigger] flat[i],
            ),
        // what `assemble` says of `r`
        forall|i: int|
            0 <= i < flat.len() ==> slot_restored(
                uw,
                um,
                ub,
                shapes[i],
                flat[i],
                #[trigger] r.slot(w.blk@.len() as int, i),
            ),
        forall|j: int|
            0 <= j < w.blk@.len() ==> (#[trigger] r.blk@[j]).layer == j && keep.ensures(
                (&th_w[j],),
                r.blk@[j].th_w,
            ),
        // each tensor function undoes its counterpart on tensors of one shape
        forall|x: W, f: F, d: [usize; 4], y: W|
            #[trigger] fw.ensures((&OrigShape::W4(d), &x), f) && #[trigger] uw.ensures((&f, d), y)
                ==> x == y,
        forall|x: M, f: F, d: [usize; 2], y: M|
            #[trigger] fm.ensures((&OrigShape::W2(d), &x), f) && #[trigger] um.ensures((&f, d), y)
                ==> x == y,
        forall|x: B, f: F, n: usize, y: B|
            #[trigger] fb.ensures((&OrigShape::B1(n), &x), f) && #[trigger] ub.ensures((&f, n), y)
                ==> x == y,
    ensures
        flat.len() == 12 + 12 * w.blk@.len(),
        r.pe_proj@ == w.pe_proj@,
        r.pe_rpe == w.pe_rpe,
        r.blk@ == w.blk@,
        r.head_w == w.head_w,
        r.head_b == w.head_b,
{
    let d = w.blk@.len() as int;
    assert forall|i: int| 0 <= i < weights::num_slots(r.blk@.len() as int) implies r.slot(
        r.blk@.len() as int,
        i,
    ) == w.slot(r.blk@.len() as int, i) by {
        let f = flat[i];
        assert(slot_flattened(fw, fm, fb, shapes[i], w.slot(d, i), f));
        assert(slot_restored(uw, um, ub, shapes[i], f, r.slot(d, i)));
    }
    assert forall|j: int| 0 <= j < d implies (#[trigger] r.blk@[j]).layer == w.blk@[j].layer
        && r.blk@[j].th_w == w.blk@[j].th_w by {
        assert(w.blk@[j].layer == j);
    }
    weights::slots_determine_weights(r, w);
}

/// Flattening a perturbed network gives the sum of parameter and perturbation in every slot, for
/// tensor functions that add: `plus` is the sum of two parameters.
pub proof fn perturbed_parameters_are_sums<
    W,
    M,
    B,
    F,
    FW: Fn(&OrigShape, &W) -> F,
    FM: Fn(&OrigShape, &M) -> F,
    FB: Fn(&OrigShape, &B) -> F,
    AW: Fn(&W, &F, [usize; 4]) -> W,
    AM: Fn(&M, &F, [usize; 2]) -> M,
    AB: Fn(&B, &F, usize) -> B,
>(
    shapes: Seq<OrigShape>,
    depths: int,
    base: SdtWeights<W, M, B>,
    delta: Seq<F>,
    p: SdtWeights<W, M, B>,
    flat: Seq<F>,
    sums: Seq<F>,
    plus: spec_fn(F, F) -> F,
    fw: FW,
    fm: FM,
    fb: FB,
    aw: AW,
    am: AM,
    ab: AB,
    i: int,
)
    requires
        shapes.len() == delta.len() == flat.len() == sums.len() == weights::num_slots(depths),
        // what `perturb_weights` says of `p`
        forall|k: int|
            0 <= k < delta.len() ==> slot_perturbed(
                aw,
                am,
                ab,
                shapes[k],
                base.slot(depths, k),
                delta[k],
                #[trigger] p.slot(depths, k),
            ),
        // what `flatten_params` says of `flat` and `sums`
        forall|k: int|
            0 <= k < flat.len() ==> slot_flattened(
                fw,
                fm,
                fb,
                shapes[k],
                base.slot(depths, k),
                #[trigger] flat[k],
            ),
        forall|k: int|
            0 <= k < sums.len() ==> slot_flattened(
                fw,
                fm,
                fb,
                shapes[k],
                p.slot(depths, k),
                #[trigger] sums[k],
            ),
        // each tensor function adds
        forall|x: W, y: W, d: [usize; 4], f: F, g: F, h: F|
            #[trigger] fw.ensures((&OrigShape::W4(d), &x), f) && #[trigger] aw.ensures(
                (&x, &g, d),
                y,
            ) && #[trigger] fw.ensures((&OrigShape::W4(d), &y), h) ==> h == plus(f, g),
        forall|x: M, y: M, d: [usize; 2], f: F, g: F, h: F|
            #[trigger] fm.ensures((&OrigShape::W2(d), &x), f) && #[trigger] am.ensures(
                (&x, &g, d),
                y,
            ) && #[trigger] fm.ensures((&OrigShape::W2(d), &y), h) ==> h == plus(f, g),
        forall|x: B, y: B, n: usize, f: F, g: F, h: F|
            #[trigger] fb.ensures((&OrigShape::B1(n), &x), f) && #[trigger] ab.ensures(
                (&x, &g, n),
                y,
            ) && #[trigger] fb.ensures((&OrigShape::B1(n), &y), h) ==> h == plus(f, g),
        0 <= i < delta.len(),
    ensures
        sums[i] == plus(flat[i], delta[i]),
{
    assert(slot_perturbed(
        aw,
        am,
        ab,
        shapes[i],
        base.slot(depths, i),
        delta[i],
        p.slot(depths, i),
    ));
    assert(slot_flattened(fw, fm, fb, shapes[i], base.slot(depths, i), flat[i]));
    assert(slot_flattened(fw, fm, fb, shapes[i], p.slot(depths, i), sums[i]));
}

/// A perturbation by nothing gives the network back: for every tensor function that changes
/// nothing when it adds what `nothing` marks.
pub proof fn no_noise_changes_nothing<
    W,
    M,
    B,
    F,
    AW: Fn(&W, &F, [usize; 4]) -> W,
    AM: Fn(&M, &F, [usize; 2]) -> M,
    AB: Fn(&B, &F, usize) -> B,
    UK: Fn(&M) -> M,
>(
    shapes: Seq<OrigShape>,
    th_w: Seq<M>,
    base: SdtWeights<W, M, B>,
    delta: Seq<F>,
    p: SdtWeights<W, M, B>,
    nothing: spec_fn(F) -> bool,
    aw: AW,
    am: AM,
    ab: AB,
    keep: UK,
)
    requires
        are_kept(th_w, base),
        copies(keep),
        shapes.len() == delta.len() == weights::num_slots(base.blk@.len() as int),
        p.blk@.len() == base.blk@.len(),
        // what `perturb_weights` says of `p`
        forall|k: int|
            0 <= k < delta.len() ==> slot_perturbed(
                aw,
                am,
                ab,
                shapes[k],
                base.slot(base.blk@.len() as int, k),
                delta[k],
                #[trigger] p.slot(base.blk@.len() as int, k),
            ),
        forall|j: int|
            0 <= j < base.blk@.len() ==> (#[trigger] p.blk@[j]).layer == j && keep.ensures(
                (&th_w[j],),
                p.blk@[j].th_w,
            ),
        forall|k: int| 0 <= k < delta.len() ==> nothing(#[trigger] delta[k]),
        forall|x: W, f: F, d: [usize; 4], y: W|
            #[trigger] aw.ensures((&x, &f, d), y) && nothing(f) ==> y == x,
        forall|x: M, f: F, d: [usize; 2], y: M|
            #[trigger] am.ensures((&x, &f, d), y) && nothing(f) ==> y == x,
        forall|x: B, f: F, n: usize, y: B|
            #[trigger] ab.ensures((&x, &f, n), y) && nothing(f) ==> y == x,
    ensures
        p.pe_proj@ == base.pe_proj@,
        p.pe_rpe == base.pe_rpe,
        p.blk@ == base.blk@,
        p.head_w == base.head_w,
        p.head_b == base.head_b,
{
    let d = base.blk@.len() as int;
    assert forall|i: int| 0 <= i < weights::num_slots(p.blk@.len() as int) implies p.slot(
        p.blk@.len() as int,
        i,
    ) == base.slot(p.blk@.len() as int, i) by {
        assert(nothing(delta[i]));
        assert(slot_perturbed(aw, am, ab, shapes[i], base.slot(d, i), delta[i], p.slot(d, i)));
    }
    assert forall|j: int| 0 <= j < d implies (#[trigger] p.blk@[j]).layer == base.blk@[j].layer
        && p.blk@[j].th_w == base.blk@[j].th_w by {
        assert(base.blk@[j].layer == j);
    }
    weights::slots_determine_weights(p, base);
}

/// Perturbing by the opposite gives the network back: for every tensor function where adding one
/// of two opposite perturbations undoes adding the other.
pub proof fn opposite_noise_restores<
    W,
    M,
    B,
    F,
    AW: Fn(&W, &F, [usize; 4]) -> W,
    AM: Fn(&M, &F, [usize; 2]) -> M,
    AB: Fn(&B, &F, usize) -> B,
    UK: Fn(&M) -> M,
>(
    shapes: Seq<OrigShape>,
    th_w: Seq<M>,
    base: SdtWeights<W, M, B>,
    delta: Seq<F>,
    p: SdtWeights<W, M, B>,
    back: Seq<F>,
    q: SdtWeights<W, M, B>,
    opposite: spec_fn(F, F) -> bool,
    aw: AW,
    am: AM,
    ab: AB,
    keep: UK,
)
    requires
        are_kept(th_w, base),
        copies(keep),
        shapes.len() == delta.len() == back.len() == weights::num_slots(base.blk@.len() as int),
        q.blk@.len() == base.blk@.len(),
        // what `perturb_weights` says of `p` and `q`
        forall|k: int|
            0 <= k < delta.len() ==> slot_perturbed(
                aw,
                am,
                ab,
                shapes[k],
                base.slot(base.blk@.len() as int, k),
                delta[k],
                #[trigger] p.slot(base.blk@.len() as int, k),
            ),
        forall|k: int|
            0 <= k < back.len() ==> slot_perturbed(
                aw,
                am,
                ab,
                shapes[k],
                p.slot(base.blk@.len() as int, k),
                back[k],
                #[trigger] q.slot(base.blk@.len() as int, k),
            ),
        forall|j: int|
            0 <= j < base.blk@.len() ==> (#[trigger] q.blk@[j]).layer == j && keep.ensures(
                (&th_w[j],),
                q.blk@[j].th_w,
            ),
        forall|k: int| 0 <= k < delta.len() ==> opposite(#[trigger] delta[k], back[k]),
        forall|x: W, f: F, d: [usize; 4], y: W, g: F, z: W|
            #[trigger] aw.ensures((&x, &f, d), y) && #[trigger] aw.ensures((&y, &g, d), z)
                && opposite(f, g) ==> z == x,
        forall|x: M, f: F, d: [usize; 2], y: M, g: F, z: M|
            #[trigger] am.ensures((&x, &f, d), y) && #[trigger] am.ensures((&y, &g, d), z)
                && opposite(f, g) ==> z == x,
        forall|x: B, f: F, n: usize, y: B, g: F, z: B|
            #[trigger] ab.ensures((&x, &f, n), y) && #[trigger] ab.ensures((&y, &g, n), z)
                && opposite(f, g) ==> z == x,
    ensures
        q.pe_proj@ == base.pe_proj@,
        q.pe_rpe == base.pe_rpe,
        q.blk@ == base.blk@,
        q.head_w == base.head_w,
        q.head_b == base.head_b,
{
    let d = base.blk@.len() as int;
    assert forall|i: int| 0 <= i < weights::num_slots(q.blk@.len() as int) implies q.slot(
        q.blk@.len() as int,
        i,
    ) == base.slot(q.blk@.len() as int, i) by {
        assert(opposite(delta[i], back[i]));
        assert(slot_perturbed(aw, am, ab, shapes[i], base.slot(d, i), delta[i], p.slot(d, i)));
        assert(slot_perturbed(aw, am, ab, shapes[i], p.slot(d, i), back[i], q.slot(d, i)));
    }
    assert forall|j: int| 0 <= j < d implies (#[trigger] q.blk@[j]).layer == base.blk@[j].layer
        && q.blk@[j].th_w == base.blk@[j].th_w by {
        assert(base.blk@[j].layer == j);
    }
    weights::slots_determine_weights(q, base);
}

/// No two slots share a noise key.
pub proof fn slot_keys_distinct(i: int, j: int)
    requires
        0 <= i < u64::MAX,
        0 <= j < u64::MAX,
        slot_key(i) == slot_key(j),
    ensures
        i == j,
{
    let k: int = KEY_MUL as int;
    let inv: int = 0xF1DE_83E1_9937_733D;
    let m: int = 0x1_0000_0000_0000_0000;
    let a = i + 1;
    let b = j + 1;
    assert((k * inv) % m == 1);
    let q = (k * inv) / m;
    assert(k * inv == q * m + 1);
    assert((a * k) % m == (b * k) % m);
    let d = a * k - b * k;
    vstd::arithmetic::div_mod::lemma_mod_equivalence(a * k, b * k, m);
    assert(d % m == 0);
    let t = d / m;
    assert(d == t * m) by {
        vstd::arithmetic::div_mod::lemma_fundamental_div_mod(d, m);
    }
    assert((a - b) * (k * inv) == (a - b) + (a - b) * q * m) by (nonlinear_arith)
        requires
            k * inv == q * m + 1,
    ;
    assert((a - b) * (k * inv) == t * inv * m) by (nonlinear_arith)
        requires
            a * k - b * k == t * m,
    ;
    assert(a - b == (t * inv - (a - b) * q) * m) by (nonlinear_arith)
        requires
            (a - b) + (a - b) * q * m == t * inv * m,
    ;
    let z = t * inv - (a - b) * q;
    assert(-m < a - b < m);
    assert(z == 0) by (nonlinear_arith)
        requires
            a - b == z * m,
            -m < a - b < m,
            m > 0,
    ;
}

/// The two-dimensional form of a slot has all its elements and the first dimension for its rows.
pub proof fn flat_form_keeps_elements(s: OrigShape, a: usize, b: usize, h: usize, v: usize)
    ensures
        s == OrigShape::W4([a, b, h, v]) ==> s.rows() == a && s.numel() == a * b * h * v
            && s.dims() == seq![a, b, h, v],
        s == OrigShape::W2([a, b]) ==> s.rows() == a && s.numel() == a * b && s.dims() == seq![a, b],
        s == OrigShape::B1(a) ==> s.rows() == a && s.cols() == 1 && s.numel() == a && s.dims()
            == seq![a],
{
    if s == OrigShape::W4([a, b, h, v]) {
        let w = [a, b, h, v];
        assert(w[0] == a && w[1] == b && w[2] == h && w[3] == v);
        assert(s.numel() == a * b * h * v) by (nonlinear_arith)
            requires
                s.numel() == a * (b * h * v),
        ;
        assert(w@ =~= seq![a, b, h, v]);
    }
    if s == OrigShape::W2([a, b]) {
        let w = [a, b];
        assert(w@ =~= seq![a, b]);
    }
}

/// Weights take low-rank noise and biases dense noise; a network of shapes has a slot for every
/// tensor, and all parameters are counted.
pub proof fn weights_are_low_rank<M>(s: EsSlots<M>, shapes: Seq<OrigShape>, depths: int, i: int)
    requires
        // what `slots_of` says of its result
        s.is_for(shapes, depths),
        0 <= i < shapes.len(),
    ensures
        s.lora@[i] <==> !(s.shapes@[i] is B1),
        s.shapes@[i] == shapes[i],
        s.shapes@.len() == s.lora@.len() == s.keys@.len() == 12 + 12 * depths,
        s.num_params == sum_numel(shapes.take(i)) + shapes[i].numel() + sum_numel(
            shapes.skip(i + 1),
        ),
{
    sum_numel_splits(shapes, i + 1);
    assert(shapes.take(i + 1).drop_last() =~= shapes.take(i));
}

/// The elements of a list of slots are those of its two parts.
proof fn sum_numel_splits(shapes: Seq<OrigShape>, k: int)
    requires
        0 <= k <= shapes.len(),
    ensures
        sum_numel(shapes) == sum_numel(shapes.take(k)) + sum_numel(shapes.skip(k)),
    decreases shapes.len(),
{
    if k == shapes.len() {
        assert(shapes.take(k) =~= shapes);
        assert(shapes.skip(k) =~= Seq::empty());
    } else {
        let rest = shapes.drop_last();
        sum_numel_splits(rest, k);
        assert(rest.take(k) =~= shapes.take(k));
        assert(shapes.skip(k).drop_last() =~= rest.skip(k));
        assert(shapes.skip(k).last() == shapes.last());
    }
}

/// The shapes of slots are those of the fields at their places.
pub proof fn slot_shapes_in_full(dims: ShapeTree, d: int, i: int, j: int)
    requires
        0 <= i < 4,
        0 <= j < d <= dims.blk@.len(),
        weights::num_slots(d) <= usize::MAX,
    ensures
        ({
            let s = shapes_of(dims, d);
            let layer = |k: int, w: [usize; 4], b: usize|
                s[k] == OrigShape::W4(w) && s[k + 1] == OrigShape::B1(b);
            let b = dims.blk@[j];
            let at = 10 + 12 * j;
            &&& s.len() == 12 + 12 * d
            &&& layer(2 * i, dims.pe_proj@[i].w, dims.pe_proj@[i].b)
            &&& layer(8, dims.pe_rpe.w, dims.pe_rpe.b)
            &&& layer(at, b.q.w, b.q.b)
            &&& layer(at + 2, b.k.w, b.k.b)
            &&& layer(at + 4, b.v.w, b.v.b)
            &&& layer(at + 6, b.proj.w, b.proj.b)
            &&& layer(at + 8, b.fc1.w, b.fc1.b)
            &&& layer(at + 10, b.fc2.w, b.fc2.b)
            &&& s[10 + 12 * d] == OrigShape::W2(dims.head_w)
            &&& s[11 + 12 * d] == OrigShape::B1(dims.head_b)
        }),
{
    weights::slots_in_full(dims, d, i, j);
}

/// The keys of slots go up by one odd number from slot to slot, and leave out what is beyond 64
/// bits; the slots of a network have them in order.
pub proof fn keys_go_up_evenly<M>(s: EsSlots<M>, shapes: Seq<OrigShape>, depths: int, i: int)
    requires
        // what `slots_of` says of its result
        s.is_for(shapes, depths),
        0 <= i,
        i + 1 < shapes.len() <= u64::MAX,
    ensures
        s.keys@[0] == 0x9E37_79B9_7F4A_7C15,
        s.keys@[i + 1] == (s.keys@[i] + 0x9E37_79B9_7F4A_7C15) % 0x1_0000_0000_0000_0000,
{
    let k: int = 0x9E37_79B9_7F4A_7C15;
    let m: int = 0x1_0000_0000_0000_0000;
    let a = (i + 1) * k;
    assert(a + k == (i + 2) * k) by (nonlinear_arith)
        requires
            a == (i + 1) * k,
    ;
    vstd::arithmetic::div_mod::lemma_add_mod_noop(a, k, m);
    vstd::arithmetic::div_mod::lemma_small_mod(k as nat, m as nat);
    assert(a % m == s.keys@[i]);
    assert((a + k) % m == s.keys@[i + 1]);
    vstd::arithmetic::div_mod::lemma_mod_twice(a, m);
    vstd::arithmetic::div_mod::lemma_add_mod_noop(a % m, k, m);
    assert(s.keys@[0] == (1 * k) % m);
}

} // verus!
