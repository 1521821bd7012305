//! The weight tree of the network and the one linear order of its tensors.
//!
//! A tensor is a value of some type: a convolution kernel `W`, a matrix `M` or a vector `B`.
//! The tree is used with device tensors, with host arrays and with bare shapes alike; every
//! function that walks it does so in the order of [`layer_at`]: the four patch convolutions,
//! the relative position convolution, the six convolutions of each block, the head.

use vstd::prelude::*;

verus! {

/// One layer with a weight and a bias.
#[derive(Clone, Copy, Debug, PartialEq, Eq, Structural)]
pub enum LayerSel {
    /// Patch convolution `i`, with `i < 4`.
    PeProj(usize),
    /// Relative position convolution.
    PeRpe,
    /// Convolution `which` of block `j`: 0 q, 1 k, 2 v, 3 proj, 4 fc1, 5 fc2.
    Blk { j: usize, which: usize },
    /// The classifier.
    Head,
}

/// Weight and bias of a convolution.
#[derive(Clone, Debug)]
pub struct ConvLayer<W, B> {
    pub w: W,
    pub b: B,
}

/// Weights of one block.
#[derive(Clone, Debug)]
pub struct BlockWeights<W, M, B> {
    pub q: ConvLayer<W, B>,
    pub k: ConvLayer<W, B>,
    pub v: ConvLayer<W, B>,
    /// Talking-heads matrix: kept with the block, read by no forward pass.
    pub th_w: M,
    pub proj: ConvLayer<W, B>,
    pub fc1: ConvLayer<W, B>,
    pub fc2: ConvLayer<W, B>,
    /// Index of the block.
    pub layer: usize,
}

/// All weights of the network.
#[derive(Clone, Debug)]
pub struct SdtWeights<W, M, B> {
    pub pe_proj: [ConvLayer<W, B>; 4],
    pub pe_rpe: ConvLayer<W, B>,
    pub blk: Vec<BlockWeights<W, M, B>>,
    pub head_w: M,
    pub head_b: B,
}

/// One tensor of the tree.
pub enum SlotVal<W, M, B> {
    Conv(W),
    Lin(M),
    Bias(B),
}

/// Convolutions in one block.
pub const F_WHICH: usize = 6;

/// Number of layers of a network with `depths` blocks.
pub open spec fn num_layers(depths: int) -> int {
    6 + 6 * depths
}

/// Number of tensors that take part in training: a weight and a bias for each layer.
pub open spec fn num_slots(depths: int) -> int {
    2 * num_layers(depths)
}

/// The layer at position `l`.
pub open spec fn layer_at(depths: int, l: int) -> LayerSel {
    if l < 4 {
        LayerSel::PeProj(l as usize)
    } else if l == 4 {
        LayerSel::PeRpe
    } else if l < 5 + 6 * depths {
        LayerSel::Blk { j: ((l - 5) / 6) as usize, which: ((l - 5) % 6) as usize }
    } else {
        LayerSel::Head
    }
}

impl<W, M, B> BlockWeights<W, M, B> {
    /// Convolution `which` of the block.
    pub open spec fn conv(self, which: int) -> ConvLayer<W, B> {
        if which == 0 {
            self.q
        } else if which == 1 {
            self.k
        } else if which == 2 {
            self.v
        } else if which == 3 {
            self.proj
        } else if which == 4 {
            self.fc1
        } else {
            self.fc2
        }
    }

    /// The block with convolution `which` replaced.
    pub open spec fn with_conv(self, which: int, c: ConvLayer<W, B>) -> Self {
        if which == 0 {
            BlockWeights { q: c, ..self }
        } else if which == 1 {
            BlockWeights { k: c, ..self }
        } else if which == 2 {
            BlockWeights { v: c, ..self }
        } else if which == 3 {
            BlockWeights { proj: c, ..self }
        } else if which == 4 {
            BlockWeights { fc1: c, ..self }
        } else {
            BlockWeights { fc2: c, ..self }
        }
    }
}

impl<W, M, B> SdtWeights<W, M, B> {
    /// The convolution that `sel` names. The head has none.
    pub open spec fn conv(self, sel: LayerSel) -> ConvLayer<W, B> {
        match sel {
            LayerSel::PeProj(i) => self.pe_proj[i as int],
            LayerSel::PeRpe => self.pe_rpe,
            LayerSel::Blk { j, which } => self.blk[j as int].conv(which as int),
            LayerSel::Head => arbitrary(),
        }
    }

    /// Whether the layer exists in this tree.
    pub open spec fn has(self, sel: LayerSel) -> bool {
        match sel {
            LayerSel::PeProj(i) => i < 4,
            LayerSel::Blk { j, .. } => j < self.blk@.len(),
            _ => true,
        }
    }

    /// Tensor `i` of a network with `depths` blocks: weights at even positions, biases at odd.
    pub open spec fn slot(self, depths: int, i: int) -> SlotVal<W, M, B> {
        let sel = layer_at(depths, i / 2);
        if sel is Head {
            if i % 2 == 0 {
                SlotVal::Lin(self.head_w)
            } else {
                SlotVal::Bias(self.head_b)
            }
        } else if i % 2 == 0 {
            SlotVal::Conv(self.conv(sel).w)
        } else {
            SlotVal::Bias(self.conv(sel).b)
        }
    }
}

/// `new` is `old` with the convolution `sel` replaced by `c` and nothing else changed.
pub open spec fn conv_replaced<W, M, B>(
    old_w: SdtWeights<W, M, B>,
    new_w: SdtWeights<W, M, B>,
    sel: LayerSel,
    c: ConvLayer<W, B>,
) -> bool {
    &&& new_w.head_w == old_w.head_w
    &&& new_w.head_b == old_w.head_b
    &&& match sel {
        LayerSel::PeProj(i) => {
            &&& new_w.pe_proj@ == old_w.pe_proj@.update(i as int, c)
            &&& new_w.pe_rpe == old_w.pe_rpe
            &&& new_w.blk@ == old_w.blk@
        },
        LayerSel::PeRpe => {
            &&& new_w.pe_proj@ == old_w.pe_proj@
            &&& new_w.pe_rpe == c
            &&& new_w.blk@ == old_w.blk@
        },
        LayerSel::Blk { j, which } => {
            &&& new_w.pe_proj@ == old_w.pe_proj@
            &&& new_w.pe_rpe == old_w.pe_rpe
            &&& new_w.blk@ == old_w.blk@.update(
                j as int,
                old_w.blk@[j as int].with_conv(which as int, c),
            )
        },
        LayerSel::Head => false,
    }
}

/// The layers in order.
pub fn layer_list(depths: usize) -> (list: Vec<LayerSel>)
    requires
        num_layers(depths as int) <= usize::MAX,
    ensures
        list@ == Seq::new(num_layers(depths as int) as nat, |l: int| layer_at(depths as int, l)),
{
    let mut list: Vec<LayerSel> = Vec::new();
    list.push(LayerSel::PeProj(0));
    list.push(LayerSel::PeProj(1));
    list.push(LayerSel::PeProj(2));
    list.push(LayerSel::PeProj(3));
    list.push(LayerSel::PeRpe);
    let mut j: usize = 0;
    while j < depths
        invariant
            j <= depths,
            num_layers(depths as int) <= usize::MAX,
            list@.len() == 5 + 6 * j,
            forall|l: int| 0 <= l < list@.len() ==> list@[l] == layer_at(depths as int, l),
        decreases depths - j,
    {
        let mut which: usize = 0;
        while which < F_WHICH
            invariant
                j < depths,
                which <= F_WHICH,
                num_layers(depths as int) <= usize::MAX,
                list@.len() == 5 + 6 * j + which,
                forall|l: int| 0 <= l < list@.len() ==> list@[l] == layer_at(depths as int, l),
            decreases F_WHICH - which,
        {
            list.push(LayerSel::Blk { j, which });
            which += 1;
        }
        j += 1;
    }
    list.push(LayerSel::Head);
    list
}

/// The convolution that `sel` names, for changing it. The head is no convolution: `None`.
pub fn pick_conv<'a, W, M, B>(w: &'a mut SdtWeights<W, M, B>, sel: LayerSel) -> (r: Option<
    &'a mut ConvLayer<W, B>,
>)
    requires
        old(w).has(sel),
    ensures
        match r {
            None => sel is Head && *final(w) == *old(w),
            Some(c) => {
                &&& !(sel is Head)
                &&& *c == old(w).conv(sel)
                &&& conv_replaced(*old(w), *final(w), sel, *final(c))
            },
        },
{
    match sel {
        LayerSel::PeProj(i) => Some(&mut w.pe_proj[i]),
        LayerSel::PeRpe => Some(&mut w.pe_rpe),
        LayerSel::Blk { j, which } => {
            let b = &mut w.blk[j];
            if which == 0 {
                Some(&mut b.q)
            } else if which == 1 {
                Some(&mut b.k)
            } else if which == 2 {
                Some(&mut b.v)
            } else if which == 3 {
                Some(&mut b.proj)
            } else if which == 4 {
                Some(&mut b.fc1)
            } else {
                Some(&mut b.fc2)
            }
        },
        LayerSel::Head => None,
    }
}

/// Weight of convolution `which` of block `blk`.
pub fn floc_get4<W, M, B>(w: &SdtWeights<W, M, B>, blk: usize, which: usize) -> (r: &W)
    requires
        blk < w.blk@.len(),
        which < F_WHICH,
    ensures
        *r == w.blk@[blk as int].conv(which as int).w,
{
    let b = &w.blk[blk];
    if which == 0 {
        &b.q.w
    } else if which == 1 {
        &b.k.w
    } else if which == 2 {
        &b.v.w
    } else if which == 3 {
        &b.proj.w
    } else if which == 4 {
        &b.fc1.w
    } else {
        &b.fc2.w
    }
}

/// Bias of convolution `which` of block `blk`.
pub fn floc_get1<W, M, B>(w: &SdtWeights<W, M, B>, blk: usize, which: usize) -> (r: &B)
    requires
        blk < w.blk@.len(),
        which < F_WHICH,
    ensures
        *r == w.blk@[blk as int].conv(which as int).b,
{
    let b = &w.blk[blk];
    if which == 0 {
        &b.q.b
    } else if which == 1 {
        &b.k.b
    } else if which == 2 {
        &b.v.b
    } else if which == 3 {
        &b.proj.b
    } else if which == 4 {
        &b.fc1.b
    } else {
        &b.fc2.b
    }
}

/// Replaces the weight of convolution `which` of block `blk`.
pub fn floc_set4<W, M, B>(w: &mut SdtWeights<W, M, B>, blk: usize, which: usize, t: W)
    requires
        blk < old(w).blk@.len(),
        which < F_WHICH,
    ensures
        conv_replaced(
            *old(w),
            *final(w),
            LayerSel::Blk { j: blk, which },
            (ConvLayer { w: t, b: old(w).blk@[blk as int].conv(which as int).b }),
        ),
{
    let sel = LayerSel::Blk { j: blk, which };
    match pick_conv(w, sel) {
        Some(c) => {
            c.w = t;
        },
        None => {},
    }
}

/// Replaces the bias of convolution `which` of block `blk`.
pub fn floc_set1<W, M, B>(w: &mut SdtWeights<W, M, B>, blk: usize, which: usize, t: B)
    requires
        blk < old(w).blk@.len(),
        which < F_WHICH,
    ensures
        conv_replaced(
            *old(w),
            *final(w),
            LayerSel::Blk { j: blk, which },
            (ConvLayer { w: old(w).blk@[blk as int].conv(which as int).w, b: t }),
        ),
{
    let sel = LayerSel::Blk { j: blk, which };
    match pick_conv(w, sel) {
        Some(c) => {
            c.b = t;
        },
        None => {},
    }
}

/// What `conv`, `lin` and `bias` may have made of position `i`.
pub open spec fn slot_made<W, M, B, FW: Fn(usize) -> W, FM: Fn(usize) -> M, FB: Fn(usize) -> B>(
    conv: FW,
    lin: FM,
    bias: FB,
    i: int,
    s: SlotVal<W, M, B>,
) -> bool {
    match s {
        SlotVal::Conv(x) => conv.ensures((i as usize,), x),
        SlotVal::Lin(x) => lin.ensures((i as usize,), x),
        SlotVal::Bias(x) => bias.ensures((i as usize,), x),
    }
}

/// Whether a layer was made at position `i`.
#[verifier::opaque]
spec fn made_by<W, B, FW: Fn(usize) -> W, FB: Fn(usize) -> B>(
    conv: FW,
    bias: FB,
    i: int,
    c: ConvLayer<W, B>,
) -> bool {
    conv.ensures((i as usize,), c.w) && bias.ensures(((i + 1) as usize,), c.b)
}

/// Whether a layer can be made at position `i`.
#[verifier::opaque]
spec fn can_make<W, B, FW: Fn(usize) -> W, FB: Fn(usize) -> B>(conv: FW, bias: FB, i: int) -> bool {
    conv.requires((i as usize,)) && bias.requires(((i + 1) as usize,))
}

/// Whether the layers of block `k` can be made.
spec fn can_make_block<W, B, FW: Fn(usize) -> W, FB: Fn(usize) -> B>(
    conv: FW,
    bias: FB,
    k: int,
) -> bool {
    &&& can_make(conv, bias, 10 + 12 * k)
    &&& can_make(conv, bias, 12 + 12 * k)
    &&& can_make(conv, bias, 14 + 12 * k)
    &&& can_make(conv, bias, 16 + 12 * k)
    &&& can_make(conv, bias, 18 + 12 * k)
    &&& can_make(conv, bias, 20 + 12 * k)
}

/// Layers can be made at even positions.
proof fn even_can_make<W, B, FW: Fn(usize) -> W, FB: Fn(usize) -> B>(
    conv: FW,
    bias: FB,
    n: int,
    l: int,
)
    requires
        0 <= 2 * l < n - 2,
        n <= usize::MAX,
        forall|i: usize| i < n - 2 && i % 2 == 0 ==> conv.requires((i,)),
        forall|i: usize| i < n && i % 2 == 1 ==> bias.requires((i,)),
    ensures
        can_make(conv, bias, 2 * l),
{
    reveal(can_make);
    let a = (2 * l) as usize;
    let b = (2 * l + 1) as usize;
    assert(a % 2 == 0);
    assert(b % 2 == 1);
}

/// One convolution layer from its two positions.
fn make_conv<W, B, FW: Fn(usize) -> W, FB: Fn(usize) -> B>(conv: &FW, bias: &FB, i: usize) -> (r:
    ConvLayer<W, B>)
    requires
        i < usize::MAX,
        can_make(*conv, *bias, i as int),
    ensures
        made_by(*conv, *bias, i as int, r),
{
    proof {
        reveal(can_make);
    }
    let r = ConvLayer { w: conv(i), b: bias(i + 1) };
    assert(made_by(*conv, *bias, i as int, r)) by {
        reveal(made_by);
    }
    r
}

/// Whether the convolutions of block `k` were made by `conv` and `bias`.
spec fn block_made<W, M, B, FW: Fn(usize) -> W, FB: Fn(usize) -> B>(
    conv: FW,
    bias: FB,
    k: int,
    b: BlockWeights<W, M, B>,
) -> bool {
    forall|which: int|
        0 <= which < 6 ==> made_by(conv, bias, 10 + 12 * k + 2 * which, #[trigger] b.conv(which))
}

/// Makes block `j`.
fn make_block<W, M, B, FW: Fn(usize) -> W, FB: Fn(usize) -> B>(
    conv: &FW,
    bias: &FB,
    th_w: M,
    j: usize,
) -> (b: BlockWeights<W, M, B>)
    requires
        22 + 12 * j <= usize::MAX,
        can_make_block(*conv, *bias, j as int),
    ensures
        block_made(*conv, *bias, j as int, b),
        b.th_w == th_w,
        b.layer == j,
{
    let at: usize = 10 + 12 * j;
    let q = make_conv(conv, bias, at);
    let k = make_conv(conv, bias, at + 2);
    let v = make_conv(conv, bias, at + 4);
    let proj = make_conv(conv, bias, at + 6);
    let fc1 = make_conv(conv, bias, at + 8);
    let fc2 = make_conv(conv, bias, at + 10);
    let b = BlockWeights { q, k, v, th_w, proj, fc1, fc2, layer: j };
    proof {
        assert(made_by(*conv, *bias, at as int, b.conv(0)));
        assert(made_by(*conv, *bias, at + 2, b.conv(1)));
        assert(made_by(*conv, *bias, at + 4, b.conv(2)));
        assert(made_by(*conv, *bias, at + 6, b.conv(3)));
        assert(made_by(*conv, *bias, at + 8, b.conv(4)));
        assert(made_by(*conv, *bias, at + 10, b.conv(5)));
        assert forall|which: int| 0 <= which < 6 implies made_by(
            *conv,
            *bias,
            10 + 12 * j + 2 * which,
            #[trigger] b.conv(which),
        ) by {
            assert(which == 0 || which == 1 || which == 2 || which == 3 || which == 4 || which == 5);
        }
    }
    b
}

/// A tree whose layers were made at their positions has all tensors made at theirs.
proof fn slots_made<W, M, B, FW: Fn(usize) -> W, FM: Fn(usize) -> M, FB: Fn(usize) -> B>(
    conv: FW,
    lin: FM,
    bias: FB,
    r: SdtWeights<W, M, B>,
    d: int,
)
    requires
        0 <= d == r.blk@.len(),
        num_slots(d) <= usize::MAX,
        forall|i: int| 0 <= i < 4 ==> made_by(conv, bias, 2 * i, #[trigger] r.pe_proj[i]),
        made_by(conv, bias, 8, r.pe_rpe),
        forall|k: int| 0 <= k < d ==> block_made(conv, bias, k, #[trigger] r.blk@[k]),
        lin.ensures(((num_slots(d) - 2) as usize,), r.head_w),
        bias.ensures(((num_slots(d) - 1) as usize,), r.head_b),
    ensures
        forall|i: int|
            0 <= i < num_slots(d) ==> slot_made(conv, lin, bias, i, #[trigger] r.slot(d, i)),
{
    assert forall|i: int| 0 <= i < num_slots(d) implies slot_made(
        conv,
        lin,
        bias,
        i,
        #[trigger] r.slot(d, i),
    ) by {
        reveal(made_by);
        let l = i / 2;
        if l < 4 {
            assert(made_by(conv, bias, 2 * l, r.pe_proj[l]));
        } else if 5 <= l < 5 + 6 * d {
            let k = (l - 5) / 6;
            let which = (l - 5) % 6;
            assert(l == 5 + 6 * k + which);
            assert(block_made(conv, bias, k, r.blk@[k]));
            assert(made_by(conv, bias, 10 + 12 * k + 2 * which, r.blk@[k].conv(which)));
        }
    }
}

/// Builds a tree tensor by tensor. Position `i` is made by `conv(i)` for the weight of a
/// convolution, `bias(i)` for a bias and `lin(i)` for the head matrix; `th(j)` makes the
/// talking-heads matrix of block `j`.
pub fn build_weights<
    W,
    M,
    B,
    FW: Fn(usize) -> W,
    FM: Fn(usize) -> M,
    FB: Fn(usize) -> B,
    FT: Fn(usize) -> M,
>(depths: usize, conv: FW, lin: FM, bias: FB, th: FT) -> (r: SdtWeights<W, M, B>)
    requires
        num_slots(depths as int) <= usize::MAX,
        forall|i: usize| i < num_slots(depths as int) - 2 && i % 2 == 0 ==> conv.requires((i,)),
        forall|i: usize| i < num_slots(depths as int) && i % 2 == 1 ==> bias.requires((i,)),
        lin.requires(((num_slots(depths as int) - 2) as usize,)),
        forall|j: usize| j < depths ==> th.requires((j,)),
    ensures
        r.blk@.len() == depths,
        forall|i: int|
            0 <= i < num_slots(depths as int) ==> slot_made(
                conv,
                lin,
                bias,
                i,
                #[trigger] r.slot(depths as int, i),
            ),
        forall|j: int|
            0 <= j < depths ==> (#[trigger] r.blk@[j]).layer == j && th.ensures(
                (j as usize,),
                r.blk@[j].th_w,
            ),
{
    let ghost n = num_slots(depths as int);
    proof {
        even_can_make(conv, bias, n, 0);
        even_can_make(conv, bias, n, 1);
        even_can_make(conv, bias, n, 2);
        even_can_make(conv, bias, n, 3);
        even_can_make(conv, bias, n, 4);
    }
    let pe_proj = [
        make_conv(&conv, &bias, 0),
        make_conv(&conv, &bias, 2),
        make_conv(&conv, &bias, 4),
        make_conv(&conv, &bias, 6),
    ];
    let pe_rpe = make_conv(&conv, &bias, 8);
    let mut blk: Vec<BlockWeights<W, M, B>> = Vec::new();
    let mut j: usize = 0;
    while j < depths
        invariant
            j <= depths,
            n == num_slots(depths as int) <= usize::MAX,
            forall|i: usize| i < n - 2 && i % 2 == 0 ==> conv.requires((i,)),
            forall|i: usize| i < n && i % 2 == 1 ==> bias.requires((i,)),
            forall|j: usize| j < depths ==> th.requires((j,)),
            blk@.len() == j,
            forall|k: int|
                0 <= k < j ==> (#[trigger] blk@[k]).layer == k && th.ensures(
                    (k as usize,),
                    blk@[k].th_w,
                ),
            forall|k: int| 0 <= k < j ==> block_made(conv, bias, k, #[trigger] blk@[k]),
        decreases depths - j,
    {
        proof {
            even_can_make(conv, bias, n, 5 + 6 * j);
            even_can_make(conv, bias, n, 6 + 6 * j);
            even_can_make(conv, bias, n, 7 + 6 * j);
            even_can_make(conv, bias, n, 8 + 6 * j);
            even_can_make(conv, bias, n, 9 + 6 * j);
            even_can_make(conv, bias, n, 10 + 6 * j);
        }
        let th_w = th(j);
        blk.push(make_block(&conv, &bias, th_w, j));
        j += 1;
    }
    let at: usize = 10 + 12 * depths;
    let r = SdtWeights { pe_proj, pe_rpe, blk, head_w: lin(at), head_b: bias(at + 1) };
    proof {
        slots_made(conv, lin, bias, r, depths as int);
    }
    r
}

/// `f4`, `f2` and `f1` carried tensor `s` to tensor `t`.
pub open spec fn slot_mapped<
    W,
    M,
    B,
    W2,
    M2,
    B2,
    F4: Fn(&W) -> W2,
    F2: Fn(&M) -> M2,
    F1: Fn(&B) -> B2,
>(f4: F4, f2: F2, f1: F1, s: SlotVal<W, M, B>, t: SlotVal<W2, M2, B2>) -> bool {
    match (s, t) {
        (SlotVal::Conv(x), SlotVal::Conv(y)) => f4.ensures((&x,), y),
        (SlotVal::Lin(x), SlotVal::Lin(y)) => f2.ensures((&x,), y),
        (SlotVal::Bias(x), SlotVal::Bias(y)) => f1.ensures((&x,), y),
        _ => false,
    }
}

/// The convolution that `sel` names, for reading it.
pub fn get_conv<W, M, B>(w: &SdtWeights<W, M, B>, sel: LayerSel) -> (r: &ConvLayer<W, B>)
    requires
        w.has(sel),
        !(sel is Head),
    ensures
        *r == w.conv(sel),
{
    match sel {
        LayerSel::PeProj(i) => &w.pe_proj[i],
        LayerSel::PeRpe => &w.pe_rpe,
        LayerSel::Blk { j, which } => {
            let b = &w.blk[j];
            if which == 0 {
                &b.q
            } else if which == 1 {
                &b.k
            } else if which == 2 {
                &b.v
            } else if which == 3 {
                &b.proj
            } else if which == 4 {
                &b.fc1
            } else {
                &b.fc2
            }
        },
        LayerSel::Head => &w.pe_rpe,
    }
}

/// The layer at position `l`.
pub fn layer_sel(depths: usize, l: usize) -> (sel: LayerSel)
    requires
        l < num_layers(depths as int) <= usize::MAX,
    ensures
        sel == layer_at(depths as int, l as int),
{
    if l < 4 {
        LayerSel::PeProj(l)
    } else if l == 4 {
        LayerSel::PeRpe
    } else if l < 5 + 6 * depths {
        LayerSel::Blk { j: (l - 5) / 6, which: (l - 5) % 6 }
    } else {
        LayerSel::Head
    }
}

/// `f4` and `f1` carried layer `c` to layer `d`.
pub open spec fn conv_mapped<W, B, W2, B2, F4: Fn(&W) -> W2, F1: Fn(&B) -> B2>(
    f4: F4,
    f1: F1,
    c: ConvLayer<W, B>,
    d: ConvLayer<W2, B2>,
) -> bool {
    f4.ensures((&c.w,), d.w) && f1.ensures((&c.b,), d.b)
}

fn map_conv<W, B, W2, B2, F4: Fn(&W) -> W2, F1: Fn(&B) -> B2>(
    c: &ConvLayer<W, B>,
    f4: &F4,
    f1: &F1,
) -> (r: ConvLayer<W2, B2>)
    requires
        forall|x: &W| f4.requires((x,)),
        forall|x: &B| f1.requires((x,)),
    ensures
        conv_mapped(*f4, *f1, *c, r),
{
    ConvLayer { w: f4(&c.w), b: f1(&c.b) }
}

/// Carries every tensor of a tree to another kind of tensor. Block indices are kept.
pub fn map_weights<
    W,
    M,
    B,
    W2,
    M2,
    B2,
    F4: Fn(&W) -> W2,
    F2: Fn(&M) -> M2,
    F1: Fn(&B) -> B2,
>(w: &SdtWeights<W, M, B>, f4: F4, f2: F2, f1: F1) -> (r: SdtWeights<W2, M2, B2>)
    requires
        forall|x: &W| f4.requires((x,)),
        forall|x: &M| f2.requires((x,)),
        forall|x: &B| f1.requires((x,)),
    ensures
        r.blk@.len() == w.blk@.len(),
        forall|i: int|
            0 <= i < num_slots(w.blk@.len() as int) ==> slot_mapped(
                f4,
                f2,
                f1,
                w.slot(w.blk@.len() as int, i),
                #[trigger] r.slot(w.blk@.len() as int, i),
            ),
        forall|j: int|
            0 <= j < w.blk@.len() ==> {
                &&& (#[trigger] r.blk@[j]).layer == w.blk@[j].layer
                &&& f2.ensures((&w.blk@[j].th_w,), r.blk@[j].th_w)
            },
{
    let pe_proj = [
        map_conv(&w.pe_proj[0], &f4, &f1),
        map_conv(&w.pe_proj[1], &f4, &f1),
        map_conv(&w.pe_proj[2], &f4, &f1),
        map_conv(&w.pe_proj[3], &f4, &f1),
    ];
    let pe_rpe = map_conv(&w.pe_rpe, &f4, &f1);
    let mut blk: Vec<BlockWeights<W2, M2, B2>> = Vec::new();
    let mut j: usize = 0;
    while j < w.blk.len()
        invariant
            j <= w.blk@.len(),
            blk@.len() == j,
            forall|x: &W| f4.requires((x,)),
            forall|x: &M| f2.requires((x,)),
            forall|x: &B| f1.requires((x,)),
            forall|k: int|
                0 <= k < j ==> {
                    &&& (#[trigger] blk@[k]).layer == w.blk@[k].layer
                    &&& f2.ensures((&w.blk@[k].th_w,), blk@[k].th_w)
                },
            forall|k: int, which: int|
                0 <= k < j && 0 <= which < 6 ==> conv_mapped(
                    f4,
                    f1,
                    w.blk@[k].conv(which),
                    #[trigger] blk@[k].conv(which),
                ),
        decreases w.blk@.len() - j,
    {
        let b = &w.blk[j];
        let m = BlockWeights {
            q: map_conv(&b.q, &f4, &f1),
            k: map_conv(&b.k, &f4, &f1),
            v: map_conv(&b.v, &f4, &f1),
            th_w: f2(&b.th_w),
            proj: map_conv(&b.proj, &f4, &f1),
            fc1: map_conv(&b.fc1, &f4, &f1),
            fc2: map_conv(&b.fc2, &f4, &f1),
            layer: b.layer,
        };
        blk.push(m);
        j += 1;
    }
    let r = SdtWeights { pe_proj, pe_rpe, blk, head_w: f2(&w.head_w), head_b: f1(&w.head_b) };
    proof {
        let d = w.blk@.len() as int;
        assert forall|i: int| 0 <= i < num_slots(d) implies slot_mapped(
            f4,
            f2,
            f1,
            w.slot(d, i),
            #[trigger] r.slot(d, i),
        ) by {
            let l = i / 2;
            if 5 <= l < 5 + 6 * d {
                let k = (l - 5) / 6;
                let which = (l - 5) % 6;
                assert(0 <= k < d && 0 <= which < 6);
                assert(conv_mapped(f4, f1, w.blk@[k].conv(which), r.blk@[k].conv(which)));
            }
        }
    }
    r
}

/// Two trees with the same tensor at every position, the same talking-heads matrices and the
/// same block indices are the same tree: the linear order leaves no tensor out.
pub proof fn slots_determine_weights<W, M, B>(
    a: SdtWeights<W, M, B>,
    b: SdtWeights<W, M, B>,
)
    requires
        a.blk@.len() == b.blk@.len(),
        forall|i: int|
            0 <= i < num_slots(a.blk@.len() as int) ==> a.slot(a.blk@.len() as int, i)
                == b.slot(a.blk@.len() as int, i),
        forall|j: int|
            0 <= j < a.blk@.len() ==> (#[trigger] a.blk@[j]).layer == b.blk@[j].layer && a.blk@[j].th_w
                == b.blk@[j].th_w,
    ensures
        a.pe_proj@ == b.pe_proj@,
        a.pe_rpe == b.pe_rpe,
        a.blk@ == b.blk@,
        a.head_w == b.head_w,
        a.head_b == b.head_b,
{
    let d = a.blk@.len() as int;
    assert(a.blk.len() == d);
    assert forall|l: int| 0 <= l < num_layers(d) && !(layer_at(d, l) is Head) implies a.conv(
        #[trigger] layer_at(d, l),
    ) == b.conv(layer_at(d, l)) by {
        assert((2 * l) / 2 == l && (2 * l + 1) / 2 == l);
        assert(a.slot(d, 2 * l) == b.slot(d, 2 * l));
        assert(a.slot(d, 2 * l + 1) == b.slot(d, 2 * l + 1));
    }
    assert forall|i: int| 0 <= i < 4 implies a.pe_proj@[i] == b.pe_proj@[i] by {
        assert(layer_at(d, i) == LayerSel::PeProj(i as usize));
    }
    assert(layer_at(d, 4) == LayerSel::PeRpe);
    assert forall|j: int| 0 <= j < d implies a.blk@[j] == b.blk@[j] by {
        assert forall|which: int| 0 <= which < 6 implies a.blk@[j].conv(which)
            == #[trigger] b.blk@[j].conv(which) by {
            let l = 5 + 6 * j + which;
            assert((l - 5) / 6 == j && (l - 5) % 6 == which);
            assert(layer_at(d, l) == LayerSel::Blk { j: j as usize, which: which as usize });
        }
        assert(a.blk@[j].conv(0) == b.blk@[j].conv(0));
        assert(a.blk@[j].conv(1) == b.blk@[j].conv(1));
        assert(a.blk@[j].conv(2) == b.blk@[j].conv(2));
        assert(a.blk@[j].conv(3) == b.blk@[j].conv(3));
        assert(a.blk@[j].conv(4) == b.blk@[j].conv(4));
        assert(a.blk@[j].conv(5) == b.blk@[j].conv(5));
        assert(a.blk@[j].layer == b.blk@[j].layer);
    }
    let last = num_slots(d) - 2;
    assert(a.slot(d, last) == b.slot(d, last));
    assert(a.slot(d, last + 1) == b.slot(d, last + 1));
}

/// Replacing one convolution of one block leaves all other tensors of the blocks alone.
pub proof fn conv_replaced_in_block<W, M, B>(
    old_w: SdtWeights<W, M, B>,
    new_w: SdtWeights<W, M, B>,
    j: usize,
    which: usize,
    c: ConvLayer<W, B>,
)
    requires
        j < old_w.blk@.len(),
        which < F_WHICH,
        conv_replaced(old_w, new_w, LayerSel::Blk { j, which }, c),
    ensures
        new_w.blk@.len() == old_w.blk@.len(),
        forall|j2: int, w2: int|
            0 <= j2 < old_w.blk@.len() && 0 <= w2 < F_WHICH ==> #[trigger] new_w.blk@[j2].conv(w2)
                == if j2 == j && w2 == which {
                c
            } else {
                old_w.blk@[j2].conv(w2)
            },
        forall|j2: int|
            0 <= j2 < old_w.blk@.len() ==> (#[trigger] new_w.blk@[j2]).th_w == old_w.blk@[j2].th_w
                && new_w.blk@[j2].layer == old_w.blk@[j2].layer,
{
}

/// The linear order in full: the patch convolutions, the position term, of each block queries,
/// keys, values, projection and the two layers of the perceptron, and the classifier; the weight
/// of a layer stands before its bias.
pub proof fn slots_in_full<W, M, B>(w: SdtWeights<W, M, B>, d: int, i: int, j: int)
    requires
        0 <= i < 4,
        0 <= j < d <= w.blk@.len(),
        num_slots(d) <= usize::MAX,
    ensures
        ({
            let kernel = |k: int, x: W| w.slot(d, k) == SlotVal::<W, M, B>::Conv(x);
            let bias = |k: int, x: B| w.slot(d, k) == SlotVal::<W, M, B>::Bias(x);
            let b = w.blk@[j];
            let at = 10 + 12 * j;
            &&& kernel(2 * i, w.pe_proj@[i].w) && bias(2 * i + 1, w.pe_proj@[i].b)
            &&& kernel(8, w.pe_rpe.w) && bias(9, w.pe_rpe.b)
            &&& kernel(at, b.q.w) && bias(at + 1, b.q.b)
            &&& kernel(at + 2, b.k.w) && bias(at + 3, b.k.b)
            &&& kernel(at + 4, b.v.w) && bias(at + 5, b.v.b)
            &&& kernel(at + 6, b.proj.w) && bias(at + 7, b.proj.b)
            &&& kernel(at + 8, b.fc1.w) && bias(at + 9, b.fc1.b)
            &&& kernel(at + 10, b.fc2.w) && bias(at + 11, b.fc2.b)
            &&& w.slot(d, 10 + 12 * d) == SlotVal::<W, M, B>::Lin(w.head_w)
            &&& bias(11 + 12 * d, w.head_b)
            &&& num_slots(d) == 12 + 12 * d
        }),
{
    assert(2 * i / 2 == i && (2 * i + 1) / 2 == i);
    block_place(d, j, 0);
    block_place(d, j, 1);
    block_place(d, j, 2);
    block_place(d, j, 3);
    block_place(d, j, 4);
    block_place(d, j, 5);
}

/// The place of a layer of a block in the linear order.
proof fn block_place(d: int, j: int, which: int)
    requires
        0 <= j < d,
        0 <= which < 6,
    ensures
        layer_at(d, (10 + 12 * j + 2 * which) / 2) == (LayerSel::Blk {
            j: j as usize,
            which: which as usize,
        }),
        layer_at(d, (10 + 12 * j + 2 * which + 1) / 2) == (LayerSel::Blk {
            j: j as usize,
            which: which as usize,
        }),
        (10 + 12 * j + 2 * which) % 2 == 0,
        (10 + 12 * j + 2 * which + 1) % 2 == 1,
{
    assert((10 + 12 * j + 2 * which) / 2 == 5 + 6 * j + which);
    assert((10 + 12 * j + 2 * which + 1) / 2 == 5 + 6 * j + which);
    assert((6 * j + which) / 6 == j && (6 * j + which) % 6 == which);
}

/// The layers in full, in forward order.
pub proof fn layers_in_full(d: int, i: int, j: int, which: int)
    requires
        0 <= i < 4,
        0 <= j < d,
        0 <= which < 6,
        num_layers(d) <= usize::MAX,
    ensures
        layer_at(d, i) == LayerSel::PeProj(i as usize),
        layer_at(d, 4) == LayerSel::PeRpe,
        layer_at(d, 5 + 6 * j + which) == (LayerSel::Blk { j: j as usize, which: which as usize }),
        layer_at(d, 5 + 6 * d) == LayerSel::Head,
        num_layers(d) == 6 + 6 * d,
{
    assert((6 * j + which) / 6 == j && (6 * j + which) % 6 == which);
}

/// A layer that is replaced is the one that its number names, and it alone: number 0 is the
/// queries, 1 the keys, 2 the values, 3 the projection, 4 and 5 the layers of the perceptron.
pub proof fn replaced_layer_is_the_named_one<W, M, B>(
    old_w: SdtWeights<W, M, B>,
    new_w: SdtWeights<W, M, B>,
    j: usize,
    which: usize,
    c: ConvLayer<W, B>,
)
    requires
        j < old_w.blk@.len(),
        which < F_WHICH,
        // what `pick_conv` says of a layer that is changed through it
        conv_replaced(old_w, new_w, LayerSel::Blk { j, which }, c),
    ensures
        ({
            let a = old_w.blk@[j as int];
            let b = new_w.blk@[j as int];
            &&& b.q == if which == 0 {
                c
            } else {
                a.q
            }
            &&& b.k == if which == 1 {
                c
            } else {
                a.k
            }
            &&& b.v == if which == 2 {
                c
            } else {
                a.v
            }
            &&& b.proj == if which == 3 {
                c
            } else {
                a.proj
            }
            &&& b.fc1 == if which == 4 {
                c
            } else {
                a.fc1
            }
            &&& b.fc2 == if which == 5 {
                c
            } else {
                a.fc2
            }
            &&& b.th_w == a.th_w && b.layer == a.layer
            &&& forall|k: int|
                0 <= k < old_w.blk@.len() && k != j ==> #[trigger] new_w.blk@[k] == old_w.blk@[k]
            &&& new_w.blk@.len() == old_w.blk@.len()
            &&& new_w.pe_proj@ == old_w.pe_proj@ && new_w.pe_rpe == old_w.pe_rpe
            &&& new_w.head_w == old_w.head_w && new_w.head_b == old_w.head_b
        }),
{
}

/// A tree that is built tensor by tensor has at every field what was made for its place: the places
/// of block `j` start at `10 + 12 j`.
pub proof fn built_fields_are_made_at_their_places<
    W,
    M,
    B,
    FW: Fn(usize) -> W,
    FM: Fn(usize) -> M,
    FB: Fn(usize) -> B,
>(conv: FW, lin: FM, bias: FB, r: SdtWeights<W, M, B>, d: int, i: int, j: int)
    requires
        // what `build_weights` says of its result
        forall|k: int|
            0 <= k < num_slots(d) ==> slot_made(conv, lin, bias, k, #[trigger] r.slot(d, k)),
        0 <= i < 4,
        0 <= j < d == r.blk@.len(),
        num_slots(d) <= usize::MAX,
    ensures
        ({
            let made = |k: int, c: ConvLayer<W, B>|
                conv.ensures((k as usize,), c.w) && bias.ensures(((k + 1) as usize,), c.b);
            let b = r.blk@[j];
            let at = 10 + 12 * j;
            &&& made(2 * i, r.pe_proj@[i])
            &&& made(8, r.pe_rpe)
            &&& made(at, b.q)
            &&& made(at + 2, b.k)
            &&& made(at + 4, b.v)
            &&& made(at + 6, b.proj)
            &&& made(at + 8, b.fc1)
            &&& made(at + 10, b.fc2)
            &&& lin.ensures(((10 + 12 * d) as usize,), r.head_w)
            &&& bias.ensures(((11 + 12 * d) as usize,), r.head_b)
        }),
{
    slots_in_full(r, d, i, j);
    let at = 10 + 12 * j;
    assert(slot_made(conv, lin, bias, 2 * i, r.slot(d, 2 * i)));
    assert(slot_made(conv, lin, bias, 2 * i + 1, r.slot(d, 2 * i + 1)));
    assert(slot_made(conv, lin, bias, 8, r.slot(d, 8)));
    assert(slot_made(conv, lin, bias, 9, r.slot(d, 9)));
    assert(slot_made(conv, lin, bias, at, r.slot(d, at)));
    assert(slot_made(conv, lin, bias, at + 1, r.slot(d, at + 1)));
    assert(slot_made(conv, lin, bias, at + 2, r.slot(d, at + 2)));
    assert(slot_made(conv, lin, bias, at + 3, r.slot(d, at + 3)));
    assert(slot_made(conv, lin, bias, at + 4, r.slot(d, at + 4)));
    assert(slot_made(conv, lin, bias, at + 5, r.slot(d, at + 5)));
    assert(slot_made(conv, lin, bias, at + 6, r.slot(d, at + 6)));
    assert(slot_made(conv, lin, bias, at + 7, r.slot(d, at + 7)));
    assert(slot_made(conv, lin, bias, at + 8, r.slot(d, at + 8)));
    assert(slot_made(conv, lin, bias, at + 9, r.slot(d, at + 9)));
    assert(slot_made(conv, lin, bias, at + 10, r.slot(d, at + 10)));
    assert(slot_made(conv, lin, bias, at + 11, r.slot(d, at + 11)));
    assert(slot_made(conv, lin, bias, 10 + 12 * d, r.slot(d, 10 + 12 * d)));
    assert(slot_made(conv, lin, bias, 11 + 12 * d, r.slot(d, 11 + 12 * d)));
}

/// A tree that is mapped has at every field what the function for its kind makes of the same field:
/// nothing changes places.
pub proof fn mapped_fields_keep_their_places<
    W,
    M,
    B,
    W2,
    M2,
    B2,
    F4: Fn(&W) -> W2,
    F2: Fn(&M) -> M2,
    F1: Fn(&B) -> B2,
>(
    f4: F4,
    f2: F2,
    f1: F1,
    w: SdtWeights<W, M, B>,
    r: SdtWeights<W2, M2, B2>,
    i: int,
    j: int,
)
    requires
        // what `map_weights` says of its result
        r.blk@.len() == w.blk@.len(),
        forall|k: int|
            0 <= k < num_slots(w.blk@.len() as int) ==> slot_mapped(
                f4,
                f2,
                f1,
                w.slot(w.blk@.len() as int, k),
                #[trigger] r.slot(w.blk@.len() as int, k),
            ),
        num_slots(w.blk@.len() as int) <= usize::MAX,
        0 <= i < 4,
        0 <= j < w.blk@.len(),
    ensures
        ({
            let mapped = |c: ConvLayer<W, B>, e: ConvLayer<W2, B2>|
                f4.ensures((&c.w,), e.w) && f1.ensures((&c.b,), e.b);
            let a = w.blk@[j];
            let b = r.blk@[j];
            &&& mapped(w.pe_proj@[i], r.pe_proj@[i])
            &&& mapped(w.pe_rpe, r.pe_rpe)
            &&& mapped(a.q, b.q)
            &&& mapped(a.k, b.k)
            &&& mapped(a.v, b.v)
            &&& mapped(a.proj, b.proj)
            &&& mapped(a.fc1, b.fc1)
            &&& mapped(a.fc2, b.fc2)
            &&& f2.ensures((&w.head_w,), r.head_w)
            &&& f1.ensures((&w.head_b,), r.head_b)
        }),
{
    let d = w.blk@.len() as int;
    slots_in_full(w, d, i, j);
    slots_in_full(r, d, i, j);
    let at = 10 + 12 * j;
    assert(slot_mapped(f4, f2, f1, w.slot(d, 2 * i), r.slot(d, 2 * i)));
    assert(slot_mapped(f4, f2, f1, w.slot(d, 2 * i + 1), r.slot(d, 2 * i + 1)));
    assert(slot_mapped(f4, f2, f1, w.slot(d, 8), r.slot(d, 8)));
    assert(slot_mapped(f4, f2, f1, w.slot(d, 9), r.slot(d, 9)));
    assert(slot_mapped(f4, f2, f1, w.slot(d, at), r.slot(d, at)));
    assert(slot_mapped(f4, f2, f1, w.slot(d, at + 1), r.slot(d, at + 1)));
    assert(slot_mapped(f4, f2, f1, w.slot(d, at + 2), r.slot(d, at + 2)));
    assert(slot_mapped(f4, f2, f1, w.slot(d, at + 3), r.slot(d, at + 3)));
    assert(slot_mapped(f4, f2, f1, w.slot(d, at + 4), r.slot(d, at + 4)));
    assert(slot_mapped(f4, f2, f1, w.slot(d, at + 5), r.slot(d, at + 5)));
    assert(slot_mapped(f4, f2, f1, w.slot(d, at + 6), r.slot(d, at + 6)));
    assert(slot_mapped(f4, f2, f1, w.slot(d, at + 7), r.slot(d, at + 7)));
    assert(slot_mapped(f4, f2, f1, w.slot(d, at + 8), r.slot(d, at + 8)));
    assert(slot_mapped(f4, f2, f1, w.slot(d, at + 9), r.slot(d, at + 9)));
    assert(slot_mapped(f4, f2, f1, w.slot(d, at + 10), r.slot(d, at + 10)));
    assert(slot_mapped(f4, f2, f1, w.slot(d, at + 11), r.slot(d, at + 11)));
    assert(slot_mapped(f4, f2, f1, w.slot(d, 10 + 12 * d), r.slot(d, 10 + 12 * d)));
    assert(slot_mapped(f4, f2, f1, w.slot(d, 11 + 12 * d), r.slot(d, 11 + 12 * d)));
}

} // verus!
