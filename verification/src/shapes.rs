//! Shapes of the registers of a forward pass.

use crate::factored;
use crate::factored::{FC_HIDE, FC_IN, FC_OUT};
use crate::net;
use crate::net::{FcNetwork, HeadRegs, Level, MlpRegs, Network, Op, Proj, SpsRegs, SsaRegs};
use crate::params::KV_SITE;
use crate::schedule::Relaxation;
use crate::slots::ShapeTree;
use crate::weights::LayerSel;
use vstd::prelude::*;

verus! {

/// What the shapes of a forward pass depend on.
pub struct Env {
    /// Shape of the images.
    pub input: Seq<int>,
    pub dims: ShapeTree,
    pub heads: int,
    /// Whether the network is the fully connected one.
    pub fc: bool,
}

/// Shape of a convolution's output: the padding is half the kernel's height, rounded down.
pub open spec fn conv_shape(s: Seq<int>, w: [usize; 4], b: usize) -> Option<Seq<int>> {
    let pad = (w[2] - 1) / 2;
    let h = s[3] + 2 * pad - w[2] + 1;
    let v = s[4] + 2 * pad - w[3] + 1;
    if s.len() == 5 && s[2] == w[1] && b == w[0] && w[2] >= 1 && h >= 1 && v >= 1 {
        Some(seq![s[0], s[1], w[0] as int, h, v])
    } else {
        None
    }
}

/// Shape of the output of a convolution that is done pixel by pixel.
pub open spec fn pixel_shape(s: Seq<int>, w: [usize; 4], b: usize) -> Option<Seq<int>> {
    if s.len() == 5 && s[2] == w[1] * w[2] * w[3] && b == w[0] {
        Some(seq![s[0], s[1], w[0] as int, s[3], s[4]])
    } else {
        None
    }
}

/// Size after pooling: three wide, every second, one padded on each side.
pub open spec fn pooled(n: int) -> int {
    (n + 2 - 3) / 2 + 1
}

/// Neurons at a site.
pub open spec fn site_width(e: Env, site: int) -> int {
    if e.fc {
        FC_HIDE as int
    } else {
        factored::qam_site_n(site)
    }
}

/// Whether the modulation of a site fits a shape: one factor for each neuron.
pub open spec fn width_fits(e: Env, site: int, s: Seq<int>) -> bool {
    if site == KV_SITE && !e.fc {
        s.len() == 5 && s[3] == 1 && site_width(e, site) == s[2] * s[4]
    } else {
        s.len() >= 3 && site_width(e, site) == s[2]
    }
}

/// Rows and columns of a fully connected layer.
pub open spec fn fc_rows(slot: int) -> int {
    if slot == 2 {
        FC_OUT as int
    } else {
        FC_HIDE as int
    }
}

/// Columns of a fully connected layer.
pub open spec fn fc_cols(slot: int) -> int {
    if slot == 0 {
        FC_IN as int
    } else {
        FC_HIDE as int
    }
}

/// Shape of a product: the shapes are equal, or the second has one token that is repeated.
pub open spec fn product_shape(a: Seq<int>, b: Seq<int>) -> Option<Seq<int>> {
    if a == b || (a.len() == 5 && b == a.update(3, 1)) {
        Some(a)
    } else {
        None
    }
}

/// Shape after an image is cut into heads.
pub open spec fn heads_shape(s: Seq<int>, heads: int) -> Option<Seq<int>> {
    if s.len() == 5 && heads > 0 && s[2] % heads == 0 {
        Some(seq![s[0], s[1], heads, s[3] * s[4], s[2] / heads])
    } else {
        None
    }
}

/// Shape after heads are put back together in the layout of `l`.
pub open spec fn unheads_shape(s: Seq<int>, l: Seq<int>) -> Option<Seq<int>> {
    if s.len() == 5 && l.len() == 5 && s[3] == l[3] * l[4] {
        Some(seq![s[0], s[1], s[2] * s[4], l[3], l[4]])
    } else {
        None
    }
}

/// Shape of the classifier's output.
pub open spec fn head_shape(s: Seq<int>, w: [usize; 2], b: usize) -> Option<Seq<int>> {
    if s.len() == 4 && s[3] == 1 && s[2] == w[1] && b == w[0] {
        Some(seq![s[0], s[1], w[0] as int])
    } else {
        None
    }
}

/// Shape of a register, or nothing if the operations before it do not fit together.
pub open spec fn shape(ops: Seq<Op>, e: Env, r: int) -> Option<Seq<int>>
    decreases r,
{
    if r < 0 || r >= ops.len() {
        None
    } else {
        match ops[r] {
            Op::Input => Some(e.input),
            Op::Conv { x, layer } => if x < r && e.dims.has(layer) && !(layer is Head) {
                match shape(ops, e, x as int) {
                    Some(s) => conv_shape(s, e.dims.conv(layer).w, e.dims.conv(layer).b),
                    None => None,
                }
            } else {
                None
            },
            Op::Noisy { x, j, which, slot } => if x < r && e.dims.has(LayerSel::Blk { j, which }) {
                match shape(ops, e, x as int) {
                    Some(s) => pixel_shape(
                        s,
                        e.dims.conv(LayerSel::Blk { j, which }).w,
                        e.dims.conv(LayerSel::Blk { j, which }).b,
                    ),
                    None => None,
                }
            } else {
                None
            },
            Op::Spike { x, own, level, relaxed } => if x < r {
                shape(ops, e, x as int)
            } else {
                None
            },
            Op::Modulated { x, site } => if x < r {
                match shape(ops, e, x as int) {
                    Some(s) => if width_fits(e, site as int, s) {
                        Some(s)
                    } else {
                        None
                    },
                    None => None,
                }
            } else {
                None
            },
            Op::Pool { x } => if x < r {
                match shape(ops, e, x as int) {
                    Some(s) => if s.len() == 5 {
                        Some(seq![s[0], s[1], s[2], pooled(s[3]), pooled(s[4])])
                    } else {
                        None
                    },
                    None => None,
                }
            } else {
                None
            },
            Op::Sum { a, b } => if a < r && b < r && shape(ops, e, a as int) == shape(
                ops,
                e,
                b as int,
            ) {
                shape(ops, e, a as int)
            } else {
                None
            },
            Op::Product { a, b } => if a < r && b < r {
                match (shape(ops, e, a as int), shape(ops, e, b as int)) {
                    (Some(s), Some(v)) => product_shape(s, v),
                    _ => None,
                }
            } else {
                None
            },
            Op::Heads { x } => if x < r {
                match shape(ops, e, x as int) {
                    Some(s) => heads_shape(s, e.heads),
                    None => None,
                }
            } else {
                None
            },
            Op::TokenSum { x } => if x < r {
                match shape(ops, e, x as int) {
                    Some(s) => if s.len() == 5 {
                        Some(s.update(3, 1))
                    } else {
                        None
                    },
                    None => None,
                }
            } else {
                None
            },
            Op::Unheads { x, like } => if x < r && like < r {
                match (shape(ops, e, x as int), shape(ops, e, like as int)) {
                    (Some(s), Some(l)) => unheads_shape(s, l),
                    _ => None,
                }
            } else {
                None
            },
            Op::Mean { x } => if x < r {
                match shape(ops, e, x as int) {
                    Some(s) => if s.len() == 5 {
                        Some(seq![s[0], s[1], s[2], 1])
                    } else {
                        None
                    },
                    None => None,
                }
            } else {
                None
            },
            Op::Head { x } => if x < r {
                match shape(ops, e, x as int) {
                    Some(s) => head_shape(s, e.dims.head_w, e.dims.head_b),
                    None => None,
                }
            } else {
                None
            },
            Op::NoisyHead { x, slot } => if x < r {
                match shape(ops, e, x as int) {
                    Some(s) => head_shape(s, e.dims.head_w, e.dims.head_b),
                    None => None,
                }
            } else {
                None
            },
            Op::Flatten { x } => if x < r {
                match shape(ops, e, x as int) {
                    Some(s) => if s.len() == 5 {
                        Some(seq![s[0], s[1], s[2] * s[3] * s[4]])
                    } else {
                        None
                    },
                    None => None,
                }
            } else {
                None
            },
            Op::Linear { x, slot } => if x < r {
                match shape(ops, e, x as int) {
                    Some(s) => if s.len() == 3 && slot < 3 && s[2] == fc_cols(slot as int) {
                        Some(seq![s[0], s[1], fc_rows(slot as int)])
                    } else {
                        None
                    },
                    None => None,
                }
            } else {
                None
            },
            Op::TimeMean { x } => if x < r {
                match shape(ops, e, x as int) {
                    Some(s) => if s.len() == 3 {
                        Some(seq![s[1], s[2]])
                    } else {
                        None
                    },
                    None => None,
                }
            } else {
                None
            },
        }
    }
}

/// A kernel from `i` to `o` channels, with its bias.
pub open spec fn kernel(w: [usize; 4], b: usize, i: int, o: int, k: int) -> bool {
    w[0] == o && w[1] == i && w[2] == k && w[3] == k && b == o
}

/// The shapes of all weights go together: images of `cin` channels, `embed` channels in the
/// blocks, `hidden` in the perceptrons, `classes` at the end.
pub open spec fn dims_fit(
    d: ShapeTree,
    depths: int,
    cin: int,
    embed: int,
    hidden: int,
    classes: int,
) -> bool {
    &&& kernel(d.pe_proj[0].w, d.pe_proj[0].b, cin, d.pe_proj[0].b as int, 3)
    &&& kernel(d.pe_proj[1].w, d.pe_proj[1].b, d.pe_proj[0].b as int, d.pe_proj[1].b as int, 3)
    &&& kernel(d.pe_proj[2].w, d.pe_proj[2].b, d.pe_proj[1].b as int, d.pe_proj[2].b as int, 3)
    &&& kernel(d.pe_proj[3].w, d.pe_proj[3].b, d.pe_proj[2].b as int, embed, 3)
    &&& kernel(d.pe_rpe.w, d.pe_rpe.b, embed, embed, 3)
    &&& d.blk@.len() == depths
    &&& forall|j: int|
        #![trigger d.blk@[j]]
        0 <= j < depths ==> {
            &&& kernel(d.blk@[j].q.w, d.blk@[j].q.b, embed, embed, 1)
            &&& kernel(d.blk@[j].k.w, d.blk@[j].k.b, embed, embed, 1)
            &&& kernel(d.blk@[j].v.w, d.blk@[j].v.b, embed, embed, 1)
            &&& kernel(d.blk@[j].proj.w, d.blk@[j].proj.b, embed, embed, 1)
            &&& kernel(d.blk@[j].fc1.w, d.blk@[j].fc1.b, embed, hidden, 1)
            &&& kernel(d.blk@[j].fc2.w, d.blk@[j].fc2.b, hidden, embed, 1)
        }
    &&& d.head_w[0] == classes && d.head_w[1] == embed
    &&& d.head_b == classes
}

/// The widths of the modulated sites go together with those of the network.
pub open spec fn mods_fit(proj: Proj, mods: Seq<usize>, embed: int, hidden: int) -> bool {
    forall|site: usize| #[trigger] mods.contains(site) ==> factored::qam_site_n(site as int) == if site
        == 6 && !(proj is Identity) {
        hidden
    } else {
        embed
    }
}

/// Spikes have the shape of what they are made from.
proof fn spikes_keep_shape(
    ops: Seq<Op>,
    e: Env,
    r: usize,
    x: usize,
    site: usize,
    mods: Seq<usize>,
    relax: Relaxation,
)
    requires
        net::spiked(ops, r, x, site, mods, relax),
        shape(ops, e, x as int) is Some,
        mods.contains(site) ==> width_fits(e, site as int, shape(ops, e, x as int)->0),
    ensures
        shape(ops, e, r as int) == shape(ops, e, x as int),
{
    let y = choose|y: usize| #[trigger] net::modulated(ops, y, x, site, mods) && y < r && net::at(
        ops,
        r,
        Op::Spike {
            x: y,
            own: Some(site),
            level: net::level_at(site as int),
            relaxed: net::relaxed_at(relax, site as int),
        },
    );
    assert(shape(ops, e, y as int) == shape(ops, e, x as int));
    assert(shape(ops, e, r as int) == shape(ops, e, y as int));
}

/// A projection with a one by one kernel changes the channels only.
proof fn projection_shape(
    ops: Seq<Op>,
    e: Env,
    r: usize,
    x: usize,
    j: usize,
    which: usize,
    proj: Proj,
    i: int,
    o: int,
)
    requires
        !(proj is Identity),
        net::projected(ops, r, x, j, which, proj),
        j < e.dims.blk@.len(),
        which < 6,
        kernel(
            e.dims.blk@[j as int].conv(which as int).w,
            e.dims.blk@[j as int].conv(which as int).b,
            i,
            o,
            1,
        ),
        shape(ops, e, x as int) is Some,
        shape(ops, e, x as int)->0.len() == 5,
        shape(ops, e, x as int)->0[2] == i,
        shape(ops, e, x as int)->0[3] >= 1,
        shape(ops, e, x as int)->0[4] >= 1,
    ensures
        shape(ops, e, r as int) == Some(shape(ops, e, x as int)->0.update(2, o)),
{
    let s = shape(ops, e, x as int)->0;
    let c = e.dims.conv(LayerSel::Blk { j, which });
    assert(c == e.dims.blk@[j as int].conv(which as int));
    assert(e.dims.has(LayerSel::Blk { j, which }));
    match proj {
        Proj::Plain => {
            assert(shape(ops, e, r as int) == conv_shape(s, c.w, c.b));
            assert(conv_shape(s, c.w, c.b)->0 =~= s.update(2, o));
        },
        _ => {
            assert(c.w[1] * c.w[2] * c.w[3] == i) by (nonlinear_arith)
                requires
                    c.w[1] == i,
                    c.w[2] == 1,
                    c.w[3] == 1,
            ;
            assert(shape(ops, e, r as int) == pixel_shape(s, c.w, c.b));
            assert(pixel_shape(s, c.w, c.b)->0 =~= s.update(2, o));
        },
    }
}

/// A three by three convolution changes the channels only.
proof fn conv3_shape(s: Seq<int>, w: [usize; 4], b: usize, i: int, o: int)
    requires
        kernel(w, b, i, o, 3),
        s.len() == 5,
        s[2] == i,
        s[3] >= 1,
        s[4] >= 1,
    ensures
        conv_shape(s, w, b) == Some(s.update(2, o)),
{
    assert(conv_shape(s, w, b)->0 =~= s.update(2, o));
}

/// The patch embedding halves the image twice, rounding up, and has `embed` channels.
proof fn sps_shape(
    ops: Seq<Op>,
    e: Env,
    x: usize,
    r: SpsRegs,
    depths: int,
    embed: int,
    hidden: int,
    classes: int,
)
    requires
        net::is_sps(ops, x, r),
        shape(ops, e, x as int) is Some,
        shape(ops, e, x as int)->0.len() == 5,
        shape(ops, e, x as int)->0[3] >= 1,
        shape(ops, e, x as int)->0[4] >= 1,
        dims_fit(e.dims, depths, shape(ops, e, x as int)->0[2], embed, hidden, classes),
    ensures
        ({
            let s = shape(ops, e, x as int)->0;
            shape(ops, e, r.out as int) == Some(
                seq![s[0], s[1], embed, pooled(pooled(s[3])), pooled(pooled(s[4]))],
            )
        }),
{
    let s = shape(ops, e, x as int)->0;
    let d = e.dims;
    let w0 = s.update(2, d.pe_proj[0].b as int);
    conv3_shape(s, d.pe_proj[0].w, d.pe_proj[0].b, s[2], d.pe_proj[0].b as int);
    assert(shape(ops, e, r.c0 as int) == Some(w0));
    assert(shape(ops, e, r.s0 as int) == Some(w0));
    let w1 = w0.update(2, d.pe_proj[1].b as int);
    conv3_shape(w0, d.pe_proj[1].w, d.pe_proj[1].b, w0[2], d.pe_proj[1].b as int);
    assert(shape(ops, e, r.c1 as int) == Some(w1));
    assert(shape(ops, e, r.s1 as int) == Some(w1));
    let w2 = w1.update(2, d.pe_proj[2].b as int);
    conv3_shape(w1, d.pe_proj[2].w, d.pe_proj[2].b, w1[2], d.pe_proj[2].b as int);
    assert(shape(ops, e, r.c2 as int) == Some(w2));
    assert(shape(ops, e, r.s2 as int) == Some(w2));
    let v2 = seq![w2[0], w2[1], w2[2], pooled(w2[3]), pooled(w2[4])];
    assert(shape(ops, e, r.p2 as int) == Some(v2));
    let w3 = v2.update(2, embed);
    conv3_shape(v2, d.pe_proj[3].w, d.pe_proj[3].b, v2[2], embed);
    assert(shape(ops, e, r.c3 as int) == Some(w3));
    let v3 = seq![w3[0], w3[1], w3[2], pooled(w3[3]), pooled(w3[4])];
    assert(shape(ops, e, r.p3 as int) == Some(v3));
    assert(shape(ops, e, r.s3 as int) == Some(v3));
    conv3_shape(v3, d.pe_rpe.w, d.pe_rpe.b, embed, embed);
    assert(v3.update(2, embed) =~= v3);
    assert(shape(ops, e, r.rpe as int) == Some(v3));
    assert(shape(ops, e, r.out as int) == Some(v3));
}

/// Cutting into heads and putting back together keeps the number of channels.
proof fn heads_multiply(c: int, heads: int)
    requires
        heads > 0,
        c % heads == 0,
    ensures
        heads * (c / heads) == c,
{
    vstd::arithmetic::div_mod::lemma_fundamental_div_mod(c, heads);
}

/// The attention half of a block keeps the shape.
proof fn ssa_shape(
    ops: Seq<Op>,
    e: Env,
    x: usize,
    j: usize,
    proj: Proj,
    mods: Seq<usize>,
    relax: Relaxation,
    r: SsaRegs,
    s: Seq<int>,
    depths: int,
    cin: int,
    embed: int,
    hidden: int,
    classes: int,
)
    requires
        net::is_ssa(ops, x, j, proj, mods, relax, r),
        dims_fit(e.dims, depths, cin, embed, hidden, classes),
        mods_fit(proj, mods, embed, hidden),
        !e.fc,
        j < depths,
        e.heads > 0,
        embed % e.heads == 0,
        shape(ops, e, x as int) == Some(s),
        s.len() == 5,
        s[2] == embed,
        s[3] >= 1,
        s[4] >= 1,
    ensures
        shape(ops, e, r.out as int) == Some(s),
{
    let b = e.dims.blk@[j as int];
    let h = e.heads;
    let hd = embed / h;
    heads_multiply(embed, h);
    spikes_keep_shape(ops, e, r.xs, x, 0, mods, relax);
    if proj is Identity {
        assert(shape(ops, e, r.qs as int) == Some(s));
    } else {
        assert(b.conv(0) == b.q && b.conv(1) == b.k && b.conv(2) == b.v);
        projection_shape(ops, e, r.q, r.xs, j, 0, proj, embed, embed);
        projection_shape(ops, e, r.k, r.xs, j, 1, proj, embed, embed);
        projection_shape(ops, e, r.v, r.xs, j, 2, proj, embed, embed);
        assert(s.update(2, embed) =~= s);
        spikes_keep_shape(ops, e, r.qs, r.q, 1, mods, relax);
        spikes_keep_shape(ops, e, r.ks, r.k, 2, mods, relax);
        spikes_keep_shape(ops, e, r.vs, r.v, 3, mods, relax);
    }
    let sh = seq![s[0], s[1], h, s[3] * s[4], hd];
    assert(shape(ops, e, r.qh as int) == Some(sh));
    assert(shape(ops, e, r.kh as int) == Some(sh));
    assert(shape(ops, e, r.vh as int) == Some(sh));
    assert(shape(ops, e, r.kv as int) == Some(sh));
    let st = sh.update(3, 1);
    assert(shape(ops, e, r.kvt as int) == Some(st));
    spikes_keep_shape(ops, e, r.kvs, r.kvt, 4, mods, relax);
    assert(shape(ops, e, r.attn as int) == Some(sh));
    assert(shape(ops, e, r.xo as int) == unheads_shape(sh, s));
    assert(unheads_shape(sh, s)->0 =~= s);
    if proj is Identity {
    } else {
        assert(b.conv(3) == b.proj);
        projection_shape(ops, e, r.xp, r.xo, j, 3, proj, embed, embed);
        assert(s.update(2, embed) =~= s);
    }
    assert(shape(ops, e, r.xp as int) == Some(s));
    assert(shape(ops, e, r.out as int) == Some(s));
}

/// The perceptron half of a block keeps the shape.
proof fn mlp_shape(
    ops: Seq<Op>,
    e: Env,
    x: usize,
    j: usize,
    proj: Proj,
    mods: Seq<usize>,
    relax: Relaxation,
    r: MlpRegs,
    s: Seq<int>,
    depths: int,
    cin: int,
    embed: int,
    hidden: int,
    classes: int,
)
    requires
        net::is_mlp(ops, x, j, proj, mods, relax, r),
        dims_fit(e.dims, depths, cin, embed, hidden, classes),
        mods_fit(proj, mods, embed, hidden),
        !e.fc,
        j < depths,
        shape(ops, e, x as int) == Some(s),
        s.len() == 5,
        s[2] == embed,
        s[3] >= 1,
        s[4] >= 1,
    ensures
        shape(ops, e, r.out as int) == Some(s),
{
    let b = e.dims.blk@[j as int];
    spikes_keep_shape(ops, e, r.x1, x, 5, mods, relax);
    if proj is Identity {
        spikes_keep_shape(ops, e, r.x2, r.x1c, 6, mods, relax);
    } else {
        assert(b.conv(4) == b.fc1 && b.conv(5) == b.fc2);
        projection_shape(ops, e, r.x1c, r.x1, j, 4, proj, embed, hidden);
        let m = s.update(2, hidden);
        assert(shape(ops, e, r.x1c as int) == Some(m));
        spikes_keep_shape(ops, e, r.x2, r.x1c, 6, mods, relax);
        projection_shape(ops, e, r.x2c, r.x2, j, 5, proj, hidden, embed);
        assert(m.update(2, embed) =~= s);
    }
    assert(shape(ops, e, r.x2c as int) == Some(s));
    assert(shape(ops, e, r.out as int) == Some(s));
}

/// The blocks of a network keep the shape of the patch embedding.
proof fn blocks_shape(
    n: Network,
    e: Env,
    depths: int,
    proj: Proj,
    mods: Seq<usize>,
    relax: Relaxation,
    s: Seq<int>,
    cin: int,
    embed: int,
    hidden: int,
    classes: int,
    j: int,
)
    requires
        net::is_network(n, depths, proj, mods, relax),
        dims_fit(e.dims, depths, cin, embed, hidden, classes),
        mods_fit(proj, mods, embed, hidden),
        !e.fc,
        e.heads > 0,
        embed % e.heads == 0,
        0 <= j <= depths <= usize::MAX,
        shape(n.ops@, e, n.sps.out as int) == Some(s),
        s.len() == 5,
        s[2] == embed,
        s[3] >= 1,
        s[4] >= 1,
    ensures
        shape(n.ops@, e, net::block_input(n.sps, n.blocks@, j) as int) == Some(s),
    decreases j,
{
    if j > 0 {
        reveal(net::blocks_made);
        let i = j - 1;
        blocks_shape(n, e, depths, proj, mods, relax, s, cin, embed, hidden, classes, i);
        let b = n.blocks@[i];
        ssa_shape(
            n.ops@,
            e,
            net::block_input(n.sps, n.blocks@, i),
            i as usize,
            proj,
            mods,
            relax,
            b.ssa,
            s,
            depths,
            cin,
            embed,
            hidden,
            classes,
        );
        mlp_shape(
            n.ops@,
            e,
            b.ssa.out,
            i as usize,
            proj,
            mods,
            relax,
            b.mlp,
            s,
            depths,
            cin,
            embed,
            hidden,
            classes,
        );
    }
}

/// The head ends with one row of classes for each image.
proof fn head_ends_in_classes(
    ops: Seq<Op>,
    e: Env,
    x: usize,
    noisy: Option<usize>,
    fires: bool,
    mods: Seq<usize>,
    relax: Relaxation,
    r: HeadRegs,
    s: Seq<int>,
    proj: Proj,
    depths: int,
    cin: int,
    embed: int,
    hidden: int,
    classes: int,
)
    requires
        net::is_head(ops, x, noisy, fires, mods, relax, r),
        dims_fit(e.dims, depths, cin, embed, hidden, classes),
        mods_fit(proj, mods, embed, hidden),
        !e.fc,
        shape(ops, e, x as int) == Some(s),
        s.len() == 5,
        s[2] == embed,
    ensures
        shape(ops, e, r.head as int) == Some(seq![s[0], s[1], classes]),
        shape(ops, e, r.out as int) == Some(seq![s[1], classes]),
{
    let m = seq![s[0], s[1], s[2], 1];
    assert(shape(ops, e, r.mean as int) == Some(m));
    if fires {
        spikes_keep_shape(ops, e, r.feat, r.mean, 7, mods, relax);
    }
    assert(shape(ops, e, r.feat as int) == Some(m));
    assert(shape(ops, e, r.head as int) == head_shape(m, e.dims.head_w, e.dims.head_b));
    let l = seq![s[0], s[1], classes];
    assert(shape(ops, e, r.head as int)->0 =~= l);
    assert(shape(ops, e, r.out as int) == Some(seq![l[1], l[2]]));
}

/// The operations of a network fit together: for every number of blocks, with plain, noisy or
/// missing projections, images of any size come out as one row of classes each, and every block
/// keeps the shape of the patch embedding.
pub proof fn network_shapes(
    n: Network,
    e: Env,
    depths: int,
    proj: Proj,
    mods: Seq<usize>,
    relax: Relaxation,
    embed: int,
    hidden: int,
    classes: int,
    j: int,
)
    requires
        net::is_network(n, depths, proj, mods, relax),
        e.input.len() == 5,
        e.input[3] >= 1,
        e.input[4] >= 1,
        !e.fc,
        dims_fit(e.dims, depths, e.input[2], embed, hidden, classes),
        mods_fit(proj, mods, embed, hidden),
        e.heads > 0,
        embed % e.heads == 0,
        0 <= depths <= usize::MAX,
    ensures
        shape(n.ops@, e, n.head.out as int) == Some(seq![e.input[1], classes]),
        shape(n.ops@, e, n.head.head as int) == Some(seq![e.input[0], e.input[1], classes]),
        0 <= j < depths ==> shape(n.ops@, e, n.blocks@[j].mlp.out as int) == Some(
            seq![
                e.input[0],
                e.input[1],
                embed,
                pooled(pooled(e.input[3])),
                pooled(pooled(e.input[4])),
            ],
        ),
{
    let ops = n.ops@;
    assert(shape(ops, e, 0) == Some(e.input));
    sps_shape(ops, e, 0, n.sps, depths, embed, hidden, classes);
    let s = seq![
        e.input[0],
        e.input[1],
        embed,
        pooled(pooled(e.input[3])),
        pooled(pooled(e.input[4])),
    ];
    let cin = e.input[2];
    if 0 <= j < depths {
        blocks_shape(n, e, depths, proj, mods, relax, s, cin, embed, hidden, classes, j + 1);
    }
    blocks_shape(n, e, depths, proj, mods, relax, s, cin, embed, hidden, classes, depths);
    head_ends_in_classes(
        ops,
        e,
        net::block_input(n.sps, n.blocks@, depths),
        net::head_slot(proj, depths),
        true,
        mods,
        relax,
        n.head,
        s,
        proj,
        depths,
        cin,
        embed,
        hidden,
        classes,
    );
}

/// The operations of a linear probe fit together.
pub proof fn probe_shapes(n: Network, e: Env, depths: int, embed: int, hidden: int, classes: int)
    requires
        net::is_probe(n),
        e.input.len() == 5,
        e.input[3] >= 1,
        e.input[4] >= 1,
        !e.fc,
        dims_fit(e.dims, depths, e.input[2], embed, hidden, classes),
    ensures
        shape(n.ops@, e, n.head.out as int) == Some(seq![e.input[1], classes]),
{
    let ops = n.ops@;
    assert(shape(ops, e, 0) == Some(e.input));
    sps_shape(ops, e, 0, n.sps, depths, embed, hidden, classes);
    let s = shape(ops, e, n.sps.out as int)->0;
    head_ends_in_classes(
        ops,
        e,
        n.sps.out,
        Some(0),
        false,
        Seq::empty(),
        Relaxation { ssa: false, mlp: false },
        n.head,
        s,
        Proj::Identity,
        depths,
        e.input[2],
        embed,
        hidden,
        classes,
    );
}

/// Low-threshold spikes have the shape of what they are made from.
proof fn low_spikes_keep_shape(
    ops: Seq<Op>,
    e: Env,
    r: usize,
    x: usize,
    site: usize,
    mods: Seq<usize>,
    relaxed: bool,
)
    requires
        net::low_spiked(ops, r, x, site, mods, relaxed),
        shape(ops, e, x as int) is Some,
        width_fits(e, site as int, shape(ops, e, x as int)->0),
    ensures
        shape(ops, e, r as int) == shape(ops, e, x as int),
{
    let y = choose|y: usize| #[trigger] net::modulated(ops, y, x, site, mods) && y < r && net::at(
        ops,
        r,
        Op::Spike { x: y, own: None, level: Level::Low, relaxed },
    );
    assert(shape(ops, e, y as int) == shape(ops, e, x as int));
    assert(shape(ops, e, r as int) == shape(ops, e, y as int));
}

/// The operations of the fully connected network fit together: images of three channels, 32 by
/// 32, come out as one row of classes each.
pub proof fn fc_shapes(n: FcNetwork, e: Env, mods: Seq<usize>, relaxed: bool)
    requires
        net::is_fc(n, mods, relaxed),
        e.fc,
        e.input.len() == 5,
        e.input[2] == 3,
        e.input[3] == 32,
        e.input[4] == 32,
    ensures
        shape(n.ops@, e, n.out as int) == Some(seq![e.input[1], FC_OUT as int]),
{
    let ops = n.ops@;
    let t = e.input[0];
    let b = e.input[1];
    assert(shape(ops, e, 0) == Some(e.input));
    let f = seq![t, b, FC_IN as int];
    assert(shape(ops, e, n.flat as int)->0 =~= f);
    let h = seq![t, b, FC_HIDE as int];
    assert(shape(ops, e, n.l1 as int)->0 =~= h);
    low_spikes_keep_shape(ops, e, n.s1, n.l1, 0, mods, relaxed);
    assert(shape(ops, e, n.l2 as int)->0 =~= h);
    low_spikes_keep_shape(ops, e, n.s2, n.l2, 1, mods, relaxed);
    let o = seq![t, b, FC_OUT as int];
    assert(shape(ops, e, n.l3 as int)->0 =~= o);
    assert(shape(ops, e, n.out as int)->0 =~= seq![b, FC_OUT as int]);
}

} // verus!
