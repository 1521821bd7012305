//! A network that is made from scratch: the shapes of its weights and the order of its draws.

use crate::config::SdtConfig;
use crate::shapes;
use crate::slots::ShapeTree;
use crate::weights;
use crate::weights::{BlockWeights, ConvLayer, LayerSel, SdtWeights};
use vstd::prelude::*;

verus! {

/// Layer at place `i` of the order in which weights are drawn: the blocks, the patch embedding,
/// the head.
pub open spec fn drawn_at(depths: int, i: int) -> LayerSel {
    if i < 6 * depths {
        LayerSel::Blk { j: (i / 6) as usize, which: (i % 6) as usize }
    } else if i < 6 * depths + 4 {
        LayerSel::PeProj((i - 6 * depths) as usize)
    } else if i == 6 * depths + 4 {
        LayerSel::PeRpe
    } else {
        LayerSel::Head
    }
}

/// The order in which weights are drawn from one stream of random numbers. Biases are zero.
pub fn draw_order(depths: usize) -> (r: Vec<LayerSel>)
    requires
        6 * depths + 6 <= usize::MAX,
    ensures
        r@ == Seq::new((6 * depths + 6) as nat, |i: int| drawn_at(depths as int, i)),
{
    let mut r: Vec<LayerSel> = Vec::new();
    let mut j: usize = 0;
    while j < depths
        invariant
            6 * depths + 6 <= usize::MAX,
            j <= depths,
            r@.len() == 6 * j,
            forall|i: int| 0 <= i < r@.len() ==> #[trigger] r@[i] == drawn_at(depths as int, i),
        decreases depths - j,
    {
        let mut which: usize = 0;
        while which < 6
            invariant
                6 * depths + 6 <= usize::MAX,
                j < depths,
                which <= 6,
                r@.len() == 6 * j + which,
                forall|i: int| 0 <= i < r@.len() ==> #[trigger] r@[i] == drawn_at(depths as int, i),
            decreases 6 - which,
        {
            assert((6 * j + which) / 6 == j && (6 * j + which) % 6 == which);
            r.push(LayerSel::Blk { j, which });
            which += 1;
        }
        j += 1;
    }
    r.push(LayerSel::PeProj(0));
    r.push(LayerSel::PeProj(1));
    r.push(LayerSel::PeProj(2));
    r.push(LayerSel::PeProj(3));
    r.push(LayerSel::PeRpe);
    r.push(LayerSel::Head);
    assert(r@ =~= Seq::new((6 * depths + 6) as nat, |i: int| drawn_at(depths as int, i)));
    r
}

/// Every layer is drawn exactly once.
pub proof fn each_layer_is_drawn_once(depths: int, l: int, i: int, k: int)
    requires
        0 <= depths,
        6 * depths + 6 <= usize::MAX,
        0 <= l < weights::num_layers(depths),
        0 <= i < k < weights::num_layers(depths),
    ensures
        exists|p: int|
            0 <= p < weights::num_layers(depths) && #[trigger] drawn_at(depths, p)
                == weights::layer_at(depths, l),
        drawn_at(depths, i) != drawn_at(depths, k),
{
    if l < 4 {
        assert(drawn_at(depths, 6 * depths + l) == weights::layer_at(depths, l));
    } else if l == 4 {
        assert(drawn_at(depths, 6 * depths + 4) == weights::layer_at(depths, l));
    } else if l < 5 + 6 * depths {
        assert(drawn_at(depths, l - 5) == weights::layer_at(depths, l));
    } else {
        assert(drawn_at(depths, 6 * depths + 5) == weights::layer_at(depths, l));
    }
}

/// Shape of a kernel with its bias.
pub open spec fn kernel_shape(i: int, o: int, k: int) -> ConvLayer<[usize; 4], usize> {
    ConvLayer { w: [o as usize, i as usize, k as usize, k as usize], b: o as usize }
}

/// The shapes of a network that is made from scratch. With a quarter of the embedding as unit,
/// the patch convolutions have one, one, two and four units.
pub open spec fn fresh_shapes(cfg: SdtConfig, r: ShapeTree) -> bool {
    let u = cfg.embed_dims as int / 4;
    let hidden = 4 * u * cfg.mlp_ratio;
    &&& r.pe_proj[0] == kernel_shape(cfg.in_channels as int, u, 3)
    &&& r.pe_proj[1] == kernel_shape(u, u, 3)
    &&& r.pe_proj[2] == kernel_shape(u, 2 * u, 3)
    &&& r.pe_proj[3] == kernel_shape(2 * u, 4 * u, 3)
    &&& r.pe_rpe == kernel_shape(4 * u, 4 * u, 3)
    &&& r.blk@.len() == cfg.depths
    &&& forall|j: int|
        #![trigger r.blk@[j]]
        0 <= j < cfg.depths ==> {
            &&& r.blk@[j].q == kernel_shape(4 * u, 4 * u, 1)
            &&& r.blk@[j].k == kernel_shape(4 * u, 4 * u, 1)
            &&& r.blk@[j].v == kernel_shape(4 * u, 4 * u, 1)
            &&& r.blk@[j].th_w == [cfg.num_heads, cfg.num_heads]
            &&& r.blk@[j].proj == kernel_shape(4 * u, 4 * u, 1)
            &&& r.blk@[j].fc1 == kernel_shape(4 * u, hidden, 1)
            &&& r.blk@[j].fc2 == kernel_shape(hidden, 4 * u, 1)
            &&& r.blk@[j].layer == j
        }
    &&& r.head_w == [cfg.num_classes, (4 * u) as usize]
    &&& r.head_b == cfg.num_classes
}

/// Shape of a kernel with its bias.
fn kernel_of(i: usize, o: usize, k: usize) -> (r: ConvLayer<[usize; 4], usize>)
    ensures
        r == kernel_shape(i as int, o as int, k as int),
{
    ConvLayer { w: [o, i, k, k], b: o }
}

/// The shapes of a network that is made from scratch.
pub fn init_shapes(cfg: &SdtConfig) -> (r: ShapeTree)
    requires
        4 * (cfg.embed_dims / 4) * cfg.mlp_ratio <= usize::MAX,
    ensures
        fresh_shapes(*cfg, r),
{
    let u: usize = cfg.embed_dims / 4;
    let hidden: usize = 4 * u * cfg.mlp_ratio;
    let mut blk: Vec<BlockWeights<[usize; 4], [usize; 2], usize>> = Vec::new();
    let mut j: usize = 0;
    while j < cfg.depths
        invariant
            j <= cfg.depths,
            u == cfg.embed_dims / 4,
            4 * u <= usize::MAX,
            hidden == 4 * u * cfg.mlp_ratio,
            blk@.len() == j,
            forall|i: int|
                #![trigger blk@[i]]
                0 <= i < j ==> {
                    &&& blk@[i].q == kernel_shape(4 * u, 4 * u, 1)
                    &&& blk@[i].k == kernel_shape(4 * u, 4 * u, 1)
                    &&& blk@[i].v == kernel_shape(4 * u, 4 * u, 1)
                    &&& blk@[i].th_w == [cfg.num_heads, cfg.num_heads]
                    &&& blk@[i].proj == kernel_shape(4 * u, 4 * u, 1)
                    &&& blk@[i].fc1 == kernel_shape(4 * u, hidden as int, 1)
                    &&& blk@[i].fc2 == kernel_shape(hidden as int, 4 * u, 1)
                    &&& blk@[i].layer == i
                },
        decreases cfg.depths - j,
    {
        blk.push(
            BlockWeights {
                q: kernel_of(4 * u, 4 * u, 1),
                k: kernel_of(4 * u, 4 * u, 1),
                v: kernel_of(4 * u, 4 * u, 1),
                th_w: [cfg.num_heads, cfg.num_heads],
                proj: kernel_of(4 * u, 4 * u, 1),
                fc1: kernel_of(4 * u, hidden, 1),
                fc2: kernel_of(hidden, 4 * u, 1),
                layer: j,
            },
        );
        j += 1;
    }
    SdtWeights {
        pe_proj: [
            kernel_of(cfg.in_channels, u, 3),
            kernel_of(u, u, 3),
            kernel_of(u, 2 * u, 3),
            kernel_of(2 * u, 4 * u, 3),
        ],
        pe_rpe: kernel_of(4 * u, 4 * u, 3),
        blk,
        head_w: [cfg.num_classes, 4 * u],
        head_b: cfg.num_classes,
    }
}

/// The weights of a network that is made from scratch go together.
pub proof fn fresh_weights_fit(cfg: SdtConfig, r: ShapeTree)
    requires
        fresh_shapes(cfg, r),
        cfg.embed_dims % 4 == 0,
        cfg.embed_dims * cfg.mlp_ratio <= usize::MAX,
    ensures
        shapes::dims_fit(
            r,
            cfg.depths as int,
            cfg.in_channels as int,
            cfg.embed_dims as int,
            cfg.embed_dims * cfg.mlp_ratio,
            cfg.num_classes as int,
        ),
{
    let u = cfg.embed_dims as int / 4;
    let hidden = cfg.embed_dims * cfg.mlp_ratio;
    assert(4 * u == cfg.embed_dims);
    assert forall|j: int|
        #![trigger r.blk@[j]]
        0 <= j < cfg.depths implies {
        &&& shapes::kernel(r.blk@[j].fc1.w, r.blk@[j].fc1.b, cfg.embed_dims as int, hidden, 1)
        &&& shapes::kernel(r.blk@[j].fc2.w, r.blk@[j].fc2.b, hidden, cfg.embed_dims as int, 1)
    } by {
        assert(hidden >= 0) by (nonlinear_arith)
            requires
                hidden == cfg.embed_dims * cfg.mlp_ratio,
        ;
    }
}

/// The order of draws in full: block by block the six projections, then the four patch
/// convolutions, the position term and the classifier.
pub proof fn draws_in_full(depths: int, j: int, which: int, i: int)
    requires
        0 <= j < depths,
        0 <= which < 6,
        0 <= i < 4,
        6 * depths + 6 <= usize::MAX,
    ensures
        drawn_at(depths, 6 * j + which) == (LayerSel::Blk {
            j: j as usize,
            which: which as usize,
        }),
        drawn_at(depths, 6 * depths + i) == LayerSel::PeProj(i as usize),
        drawn_at(depths, 6 * depths + 4) == LayerSel::PeRpe,
        drawn_at(depths, 6 * depths + 5) == LayerSel::Head,
{
    assert((6 * j + which) / 6 == j && (6 * j + which) % 6 == which);
}

/// The widths of a fresh network: a quarter of the embedding twice, half of it and all of it
/// behind the patch convolutions; the hidden layer of a perceptron is as many times wider than
/// the embedding as the configuration says; the patch embedding has kernels of three by three and
/// the blocks of one by one.
pub proof fn fresh_widths(cfg: SdtConfig, r: ShapeTree, j: int)
    requires
        // what `init_shapes` says of its result
        fresh_shapes(cfg, r),
        cfg.embed_dims % 4 == 0,
        cfg.embed_dims * cfg.mlp_ratio <= usize::MAX,
        0 <= j < cfg.depths,
    ensures
        4 * r.pe_proj@[0].b == cfg.embed_dims,
        4 * r.pe_proj@[1].b == cfg.embed_dims,
        2 * r.pe_proj@[2].b == cfg.embed_dims,
        r.pe_proj@[3].b == cfg.embed_dims,
        r.pe_rpe.b == cfg.embed_dims,
        r.pe_proj@[0].w[1] == cfg.in_channels,
        r.pe_proj@[0].w[2] == 3 && r.pe_proj@[3].w[3] == 3 && r.pe_rpe.w[2] == 3,
        r.blk@[j].q.w@ == seq![cfg.embed_dims, cfg.embed_dims, 1, 1],
        r.blk@[j].fc1.w@ == seq![
            (cfg.embed_dims * cfg.mlp_ratio) as usize,
            cfg.embed_dims,
            1,
            1,
        ],
        r.blk@[j].fc2.w@ == seq![
            cfg.embed_dims,
            (cfg.embed_dims * cfg.mlp_ratio) as usize,
            1,
            1,
        ],
        r.blk@[j].th_w@ == seq![cfg.num_heads, cfg.num_heads],
        r.blk@.len() == cfg.depths,
        r.head_w@ == seq![cfg.num_classes, cfg.embed_dims],
        r.head_b == cfg.num_classes,
{
    let u = cfg.embed_dims as int / 4;
    assert(4 * u == cfg.embed_dims);
    let b = r.blk@[j];
    let hidden = 4 * u * cfg.mlp_ratio;
    assert(hidden == cfg.embed_dims * cfg.mlp_ratio);
    assert(b.q == kernel_shape(4 * u, 4 * u, 1));
    assert(b.fc1 == kernel_shape(4 * u, hidden, 1));
    assert(b.fc2 == kernel_shape(hidden, 4 * u, 1));
    assert(b.q.w@ =~= seq![cfg.embed_dims, cfg.embed_dims, 1, 1]);
    assert(b.fc1.w@ =~= seq![hidden as usize, cfg.embed_dims, 1, 1]);
    assert(b.fc2.w@ =~= seq![cfg.embed_dims, hidden as usize, 1, 1]);
    assert(b.th_w@ =~= seq![cfg.num_heads, cfg.num_heads]);
    assert(r.head_w@ =~= seq![cfg.num_classes, cfg.embed_dims]);
    assert(r.pe_proj[0] == kernel_shape(cfg.in_channels as int, u, 3));
    assert(r.pe_proj[1] == kernel_shape(u, u, 3));
    assert(r.pe_proj[2] == kernel_shape(u, 2 * u, 3));
    assert(r.pe_proj[3] == kernel_shape(2 * u, 4 * u, 3));
}

} // verus!
