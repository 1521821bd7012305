//! The values that the parts of a network have, written out.
//!
//! Each law gives the value of a part's result as one expression in the value of its input, for
//! any meaning of the operations.

use crate::meaning;
use crate::meaning::Meaning;
use crate::net;
use crate::net::{FcNetwork, HeadRegs, Level, MlpRegs, Network, Op, Proj, SpsRegs, SsaRegs};
use crate::schedule::Relaxation;
use crate::weights::LayerSel;
use vstd::prelude::*;

verus! {

/// The value of the patch embedding. With `S` for spikes at threshold one and `P` for the pooling
/// of three by three, the features are `P(C3(P(S(C2(S(C1(S(C0(x)))))))))`, and the embedding is
/// the position term of their spikes plus the features.
pub proof fn embedding_value<V>(m: Meaning<V>, ops: Seq<Op>, vals: Seq<V>, x: usize, r: SpsRegs)
    requires
        meaning::computes(m, ops, vals),
        // what `forward_sps` says of its registers
        net::is_sps(ops, x, r),
    ensures
        ({
            let conv = |layer: LayerSel, v: V| (m.1)(Op::Conv { x: 0, layer }, v);
            let spike = |v: V|
                (m.1)(Op::Spike { x: 0, own: None, level: Level::Full, relaxed: false }, v);
            let pool = |v: V| (m.1)(Op::Pool { x: 0 }, v);
            let low = spike(
                conv(
                    LayerSel::PeProj(2),
                    spike(
                        conv(
                            LayerSel::PeProj(1),
                            spike(conv(LayerSel::PeProj(0), vals[x as int])),
                        ),
                    ),
                ),
            );
            let features = pool(conv(LayerSel::PeProj(3), pool(low)));
            vals[r.out as int] == (m.2)(
                Op::Sum { a: 0, b: 0 },
                conv(LayerSel::PeRpe, spike(features)),
                features,
            )
        }),
{
    let full = Level::Full;
    meaning::value_at(m, ops, vals, r.c0, Op::Conv { x, layer: LayerSel::PeProj(0) });
    meaning::value_at(
        m, ops, vals, r.s0, Op::Spike { x: r.c0, own: None, level: full, relaxed: false },
    );
    meaning::value_at(m, ops, vals, r.c1, Op::Conv { x: r.s0, layer: LayerSel::PeProj(1) });
    meaning::value_at(
        m, ops, vals, r.s1, Op::Spike { x: r.c1, own: None, level: full, relaxed: false },
    );
    meaning::value_at(m, ops, vals, r.c2, Op::Conv { x: r.s1, layer: LayerSel::PeProj(2) });
    meaning::value_at(
        m, ops, vals, r.s2, Op::Spike { x: r.c2, own: None, level: full, relaxed: false },
    );
    meaning::value_at(m, ops, vals, r.p2, Op::Pool { x: r.s2 });
    meaning::value_at(m, ops, vals, r.c3, Op::Conv { x: r.p2, layer: LayerSel::PeProj(3) });
    meaning::value_at(m, ops, vals, r.p3, Op::Pool { x: r.c3 });
    meaning::value_at(
        m, ops, vals, r.s3, Op::Spike { x: r.p3, own: None, level: full, relaxed: false },
    );
    meaning::value_at(m, ops, vals, r.rpe, Op::Conv { x: r.s3, layer: LayerSel::PeRpe });
    meaning::value_at(m, ops, vals, r.out, Op::Sum { a: r.rpe, b: r.p3 });
}

/// The value of the spikes of a site: the site's neurons read the input, times the modulation of
/// the site where there is one.
proof fn spike_value<V>(
    m: Meaning<V>,
    ops: Seq<Op>,
    vals: Seq<V>,
    r: usize,
    x: usize,
    site: usize,
    mods: Seq<usize>,
    relax: Relaxation,
)
    requires
        meaning::computes(m, ops, vals),
        net::spiked(ops, r, x, site, mods, relax),
    ensures
        vals[r as int] == (m.1)(
            Op::Spike {
                x: 0,
                own: Some(site),
                level: if site == 4 {
                    Level::Half
                } else {
                    Level::Full
                },
                relaxed: if site < 5 {
                    relax.ssa
                } else {
                    relax.mlp
                },
            },
            if mods.contains(site) {
                (m.1)(Op::Modulated { x: 0, site }, vals[x as int])
            } else {
                vals[x as int]
            },
        ),
{
    let level = net::level_at(site as int);
    let relaxed = net::relaxed_at(relax, site as int);
    let y = choose|y: usize| #[trigger] net::modulated(ops, y, x, site, mods) && y < r && net::at(
        ops,
        r,
        Op::Spike { x: y, own: Some(site), level, relaxed },
    );
    if mods.contains(site) {
        meaning::value_at(m, ops, vals, y, Op::Modulated { x, site });
    }
    meaning::value_at(m, ops, vals, r, Op::Spike { x: y, own: Some(site), level, relaxed });
}

/// The value of a projection: the layer's convolution, the same with the noise of the slot
/// `6 * j + which`, or the input itself.
proof fn projection_value<V>(
    m: Meaning<V>,
    ops: Seq<Op>,
    vals: Seq<V>,
    r: usize,
    x: usize,
    j: usize,
    which: usize,
    proj: Proj,
)
    requires
        meaning::computes(m, ops, vals),
        net::projected(ops, r, x, j, which, proj),
    ensures
        vals[r as int] == match proj {
            Proj::Plain => (m.1)(
                Op::Conv { x: 0, layer: LayerSel::Blk { j, which } },
                vals[x as int],
            ),
            Proj::Noisy => (m.1)(
                Op::Noisy { x: 0, j, which, slot: (6 * j + which) as usize },
                vals[x as int],
            ),
            Proj::Identity => vals[x as int],
        },
{
    match proj {
        Proj::Plain => {
            meaning::value_at(
                m, ops, vals, r, Op::Conv { x, layer: LayerSel::Blk { j, which } },
            );
        },
        Proj::Noisy => {
            let slot = (6 * j + which) as usize;
            meaning::value_at(m, ops, vals, r, Op::Noisy { x, j, which, slot });
        },
        Proj::Identity => {},
    }
}

/// The value of the attention half of a block. With `s` for the spikes of the input `x`, it is
/// `x + proj(unheads(heads(spike(Q(s))) * state))`, where the state is the spikes at half the
/// threshold of the sum over the tokens of `heads(spike(K(s))) * heads(spike(V(s)))`. Where
/// nothing stands for the projections, the three read `s` itself without further spikes.
pub proof fn attention_value<V>(
    m: Meaning<V>,
    ops: Seq<Op>,
    vals: Seq<V>,
    x: usize,
    j: usize,
    proj: Proj,
    mods: Seq<usize>,
    relax: Relaxation,
    r: SsaRegs,
)
    requires
        meaning::computes(m, ops, vals),
        // what `forward_ssa` says of its registers
        net::is_ssa(ops, x, j, proj, mods, relax, r),
    ensures
        ({
            let fires = |site: usize, level: Level, v: V|
                (m.1)(
                    Op::Spike { x: 0, own: Some(site), level, relaxed: relax.ssa },
                    if mods.contains(site) {
                        (m.1)(Op::Modulated { x: 0, site }, v)
                    } else {
                        v
                    },
                );
            let layer = |which: usize, v: V|
                match proj {
                    Proj::Plain => (m.1)(Op::Conv { x: 0, layer: LayerSel::Blk { j, which } }, v),
                    Proj::Noisy => (m.1)(
                        Op::Noisy { x: 0, j, which, slot: (6 * j + which) as usize },
                        v,
                    ),
                    Proj::Identity => v,
                };
            let heads = |site: usize, v: V|
                (m.1)(
                    Op::Heads { x: 0 },
                    if proj is Identity {
                        v
                    } else {
                        fires(site, Level::Full, v)
                    },
                );
            let times = |u: V, v: V| (m.2)(Op::Product { a: 0, b: 0 }, u, v);
            let s = fires(0, Level::Full, vals[x as int]);
            let query = heads(1, layer(0, s));
            let key = heads(2, layer(1, s));
            let value = heads(3, layer(2, s));
            let state = fires(4, Level::Half, (m.1)(Op::TokenSum { x: 0 }, times(key, value)));
            let masked = (m.2)(
                Op::Unheads { x: 0, like: 0 },
                times(query, state),
                vals[x as int],
            );
            vals[r.out as int] == (m.2)(
                Op::Sum { a: 0, b: 0 },
                layer(3, masked),
                vals[x as int],
            )
        }),
{
    spike_value(m, ops, vals, r.xs, x, 0, mods, relax);
    projection_value(m, ops, vals, r.q, r.xs, j, 0, proj);
    projection_value(m, ops, vals, r.k, r.xs, j, 1, proj);
    projection_value(m, ops, vals, r.v, r.xs, j, 2, proj);
    if !(proj is Identity) {
        spike_value(m, ops, vals, r.qs, r.q, 1, mods, relax);
        spike_value(m, ops, vals, r.ks, r.k, 2, mods, relax);
        spike_value(m, ops, vals, r.vs, r.v, 3, mods, relax);
    }
    meaning::value_at(m, ops, vals, r.qh, Op::Heads { x: r.qs });
    meaning::value_at(m, ops, vals, r.kh, Op::Heads { x: r.ks });
    meaning::value_at(m, ops, vals, r.vh, Op::Heads { x: r.vs });
    meaning::value_at(m, ops, vals, r.kv, Op::Product { a: r.kh, b: r.vh });
    meaning::value_at(m, ops, vals, r.kvt, Op::TokenSum { x: r.kv });
    spike_value(m, ops, vals, r.kvs, r.kvt, 4, mods, relax);
    meaning::value_at(m, ops, vals, r.attn, Op::Product { a: r.qh, b: r.kvs });
    meaning::value_at(m, ops, vals, r.xo, Op::Unheads { x: r.attn, like: x });
    projection_value(m, ops, vals, r.xp, r.xo, j, 3, proj);
    meaning::value_at(m, ops, vals, r.out, Op::Sum { a: r.xp, b: x });
}

/// The value of the perceptron half of a block, `x + fc2(spike(fc1(spike(x))))`.
pub proof fn perceptron_value<V>(
    m: Meaning<V>,
    ops: Seq<Op>,
    vals: Seq<V>,
    x: usize,
    j: usize,
    proj: Proj,
    mods: Seq<usize>,
    relax: Relaxation,
    r: MlpRegs,
)
    requires
        meaning::computes(m, ops, vals),
        // what `forward_mlp` says of its registers
        net::is_mlp(ops, x, j, proj, mods, relax, r),
    ensures
        ({
            let fires = |site: usize, v: V|
                (m.1)(
                    Op::Spike {
                        x: 0,
                        own: Some(site),
                        level: Level::Full,
                        relaxed: relax.mlp,
                    },
                    if mods.contains(site) {
                        (m.1)(Op::Modulated { x: 0, site }, v)
                    } else {
                        v
                    },
                );
            let layer = |which: usize, v: V|
                match proj {
                    Proj::Plain => (m.1)(Op::Conv { x: 0, layer: LayerSel::Blk { j, which } }, v),
                    Proj::Noisy => (m.1)(
                        Op::Noisy { x: 0, j, which, slot: (6 * j + which) as usize },
                        v,
                    ),
                    Proj::Identity => v,
                };
            vals[r.out as int] == (m.2)(
                Op::Sum { a: 0, b: 0 },
                layer(5, fires(6, layer(4, fires(5, vals[x as int])))),
                vals[x as int],
            )
        }),
{
    spike_value(m, ops, vals, r.x1, x, 5, mods, relax);
    projection_value(m, ops, vals, r.x1c, r.x1, j, 4, proj);
    spike_value(m, ops, vals, r.x2, r.x1c, 6, mods, relax);
    projection_value(m, ops, vals, r.x2c, r.x2, j, 5, proj);
    meaning::value_at(m, ops, vals, r.out, Op::Sum { a: r.x2c, b: x });
}

/// The value of a head: the mean over the image, its spikes where the head has them, classified,
/// and the mean of that over time.
pub proof fn readout_value<V>(
    m: Meaning<V>,
    ops: Seq<Op>,
    vals: Seq<V>,
    x: usize,
    noisy: Option<usize>,
    fires: bool,
    mods: Seq<usize>,
    relax: Relaxation,
    r: HeadRegs,
)
    requires
        meaning::computes(m, ops, vals),
        net::is_head(ops, x, noisy, fires, mods, relax, r),
    ensures
        ({
            let mean = (m.1)(Op::Mean { x: 0 }, vals[x as int]);
            let feat = if fires {
                (m.1)(
                    Op::Spike {
                        x: 0,
                        own: Some(7usize),
                        level: Level::Full,
                        relaxed: relax.mlp,
                    },
                    if mods.contains(7) {
                        (m.1)(Op::Modulated { x: 0, site: 7 }, mean)
                    } else {
                        mean
                    },
                )
            } else {
                mean
            };
            vals[r.out as int] == (m.1)(
                Op::TimeMean { x: 0 },
                match noisy {
                    Some(slot) => (m.1)(Op::NoisyHead { x: 0, slot }, feat),
                    None => (m.1)(Op::Head { x: 0 }, feat),
                },
            )
        }),
{
    meaning::value_at(m, ops, vals, r.mean, Op::Mean { x });
    if fires {
        spike_value(m, ops, vals, r.feat, r.mean, 7, mods, relax);
    }
    meaning::value_at(
        m,
        ops,
        vals,
        r.head,
        match noisy {
            Some(slot) => Op::NoisyHead { x: r.feat, slot },
            None => Op::Head { x: r.feat },
        },
    );
    meaning::value_at(m, ops, vals, r.out, Op::TimeMean { x: r.head });
}

/// The spikes of a site on a value.
pub open spec fn fired<V>(
    m: Meaning<V>,
    site: usize,
    level: Level,
    relaxed: bool,
    mods: Seq<usize>,
    v: V,
) -> V {
    (m.1)(
        Op::Spike { x: 0, own: Some(site), level, relaxed },
        if mods.contains(site) {
            (m.1)(Op::Modulated { x: 0, site }, v)
        } else {
            v
        },
    )
}

/// The patch embedding of a value.
pub open spec fn embedding<V>(m: Meaning<V>, v: V) -> V {
    let conv = |layer: LayerSel, v: V| (m.1)(Op::Conv { x: 0, layer }, v);
    let spike = |v: V| (m.1)(Op::Spike { x: 0, own: None, level: Level::Full, relaxed: false }, v);
    let pool = |v: V| (m.1)(Op::Pool { x: 0 }, v);
    let first = spike(conv(LayerSel::PeProj(0), v));
    let second = spike(conv(LayerSel::PeProj(1), first));
    let third = spike(conv(LayerSel::PeProj(2), second));
    let features = pool(conv(LayerSel::PeProj(3), pool(third)));
    (m.2)(Op::Sum { a: 0, b: 0 }, conv(LayerSel::PeRpe, spike(features)), features)
}

/// The attention half of block `j` on a value.
pub open spec fn attention<V>(
    m: Meaning<V>,
    j: usize,
    proj: Proj,
    mods: Seq<usize>,
    relax: Relaxation,
    v: V,
) -> V {
    let heads = |site: usize, u: V|
        (m.1)(
            Op::Heads { x: 0 },
            if proj is Identity {
                u
            } else {
                fired(m, site, Level::Full, relax.ssa, mods, u)
            },
        );
    let s = fired(m, 0, Level::Full, relax.ssa, mods, v);
    let products = (m.2)(
        Op::Product { a: 0, b: 0 },
        heads(2, meaning::proj_value(m, proj, j, 1, s)),
        heads(3, meaning::proj_value(m, proj, j, 2, s)),
    );
    let state = fired(
        m,
        4,
        Level::Half,
        relax.ssa,
        mods,
        (m.1)(Op::TokenSum { x: 0 }, products),
    );
    let query = heads(1, meaning::proj_value(m, proj, j, 0, s));
    let masked = (m.2)(
        Op::Unheads { x: 0, like: 0 },
        (m.2)(Op::Product { a: 0, b: 0 }, query, state),
        v,
    );
    (m.2)(Op::Sum { a: 0, b: 0 }, meaning::proj_value(m, proj, j, 3, masked), v)
}

/// The perceptron half of block `j` on a value.
pub open spec fn perceptron<V>(
    m: Meaning<V>,
    j: usize,
    proj: Proj,
    mods: Seq<usize>,
    relax: Relaxation,
    v: V,
) -> V {
    let s = fired(m, 5, Level::Full, relax.mlp, mods, v);
    let inner = meaning::proj_value(m, proj, j, 4, s);
    let t = fired(m, 6, Level::Full, relax.mlp, mods, inner);
    (m.2)(Op::Sum { a: 0, b: 0 }, meaning::proj_value(m, proj, j, 5, t), v)
}

/// The value of a block's result, from that of what is before it.
proof fn block_value<V>(
    m: Meaning<V>,
    n: Network,
    vals: Seq<V>,
    depths: int,
    proj: Proj,
    mods: Seq<usize>,
    relax: Relaxation,
    j: int,
)
    requires
        meaning::computes(m, n.ops@, vals),
        net::is_network(n, depths, proj, mods, relax),
        0 <= j < depths <= usize::MAX,
    ensures
        vals[n.blocks@[j].mlp.out as int] == perceptron(
            m,
            j as usize,
            proj,
            mods,
            relax,
            attention(
                m,
                j as usize,
                proj,
                mods,
                relax,
                vals[(if j == 0 {
                    n.sps.out
                } else {
                    n.blocks@[j - 1].mlp.out
                }) as int],
            ),
        ),
{
    reveal(net::blocks_made);
    let b = n.blocks@[j];
    let x = net::block_input(n.sps, n.blocks@, j);
    attention_value(m, n.ops@, vals, x, j as usize, proj, mods, relax, b.ssa);
    assert(vals[b.ssa.out as int] == attention(
        m,
        j as usize,
        proj,
        mods,
        relax,
        vals[x as int],
    ));
    perceptron_value(m, n.ops@, vals, b.ssa.out, j as usize, proj, mods, relax, b.mlp);
}

/// The value of a network: the blocks follow each other from the embedding of the images, each
/// the perceptron half on the attention half, and the last one is read out. The noise of the
/// classifier is in the slot behind those of the blocks, or in the first if there are none.
pub proof fn network_value<V>(
    m: Meaning<V>,
    n: Network,
    vals: Seq<V>,
    depths: int,
    proj: Proj,
    mods: Seq<usize>,
    relax: Relaxation,
)
    requires
        meaning::computes(m, n.ops@, vals),
        // what `network` says of its result
        net::is_network(n, depths, proj, mods, relax),
        0 <= depths <= usize::MAX,
    ensures
        ({
            let x = |j: int|
                vals[(if j == 0 {
                    n.sps.out
                } else {
                    n.blocks@[j - 1].mlp.out
                }) as int];
            &&& x(0) == embedding(m, (m.0)(Op::Input))
            &&& forall|j: int|
                #![trigger n.blocks@[j]]
                0 <= j < depths ==> vals[n.blocks@[j].mlp.out as int] == perceptron(
                    m,
                    j as usize,
                    proj,
                    mods,
                    relax,
                    attention(m, j as usize, proj, mods, relax, x(j)),
                )
            &&& vals[n.head.out as int] == (m.1)(
                Op::TimeMean { x: 0 },
                meaning::head_value(
                    m,
                    match proj {
                        Proj::Plain => None,
                        Proj::Noisy => Some((6 * depths) as usize),
                        Proj::Identity => Some(0usize),
                    },
                    fired(
                        m,
                        7,
                        Level::Full,
                        relax.mlp,
                        mods,
                        (m.1)(Op::Mean { x: 0 }, x(depths)),
                    ),
                ),
            )
        }),
{
    meaning::value_at(m, n.ops@, vals, 0, Op::Input);
    embedding_value(m, n.ops@, vals, 0, n.sps);
    assert forall|j: int|
        #![trigger n.blocks@[j]]
        0 <= j < depths implies vals[n.blocks@[j].mlp.out as int] == perceptron(
        m,
        j as usize,
        proj,
        mods,
        relax,
        attention(
            m,
            j as usize,
            proj,
            mods,
            relax,
            vals[(if j == 0 {
                n.sps.out
            } else {
                n.blocks@[j - 1].mlp.out
            }) as int],
        ),
    ) by {
        block_value(m, n, vals, depths, proj, mods, relax, j);
    }
    let last = net::block_input(n.sps, n.blocks@, depths);
    let slot = net::head_slot(proj, depths);
    readout_value(m, n.ops@, vals, last, slot, true, mods, relax, n.head);
}

/// The value of a linear probe: the mean over time of what the classifier gives on the mean of the
/// embedding, with the noise of the first slot and without spikes.
pub proof fn probe_value<V>(m: Meaning<V>, n: Network, vals: Seq<V>)
    requires
        meaning::computes(m, n.ops@, vals),
        // what `probe` says of its result
        net::is_probe(n),
    ensures
        vals[n.head.out as int] == (m.1)(
            Op::TimeMean { x: 0 },
            (m.1)(
                Op::NoisyHead { x: 0, slot: 0 },
                (m.1)(Op::Mean { x: 0 }, embedding(m, (m.0)(Op::Input))),
            ),
        ),
{
    meaning::value_at(m, n.ops@, vals, 0, Op::Input);
    embedding_value(m, n.ops@, vals, 0, n.sps);
    let hard = Relaxation { ssa: false, mlp: false };
    readout_value(m, n.ops@, vals, n.sps.out, Some(0), false, Seq::empty(), hard, n.head);
}

/// The value of the fully connected network: three layers on the flattened images, with spikes at
/// the low threshold behind the first two, and the mean over time.
pub proof fn fc_value<V>(m: Meaning<V>, n: FcNetwork, vals: Seq<V>, mods: Seq<usize>, relaxed: bool)
    requires
        meaning::computes(m, n.ops@, vals),
        // what `fc_network` says of its result
        net::is_fc(n, mods, relaxed),
    ensures
        ({
            let layer = |slot: usize, v: V| (m.1)(Op::Linear { x: 0, slot }, v);
            let fires = |site: usize, v: V|
                (m.1)(
                    Op::Spike { x: 0, own: None, level: Level::Low, relaxed },
                    if mods.contains(site) {
                        (m.1)(Op::Modulated { x: 0, site }, v)
                    } else {
                        v
                    },
                );
            let flat = (m.1)(Op::Flatten { x: 0 }, (m.0)(Op::Input));
            vals[n.out as int] == (m.1)(
                Op::TimeMean { x: 0 },
                layer(2, fires(1, layer(1, fires(0, layer(0, flat))))),
            )
        }),
{
    let ops = n.ops@;
    meaning::value_at(m, ops, vals, 0, Op::Input);
    meaning::value_at(m, ops, vals, n.flat, Op::Flatten { x: 0 });
    meaning::value_at(m, ops, vals, n.l1, Op::Linear { x: n.flat, slot: 0 });
    low_spike_value(m, ops, vals, n.s1, n.l1, 0, mods, relaxed);
    meaning::value_at(m, ops, vals, n.l2, Op::Linear { x: n.s1, slot: 1 });
    low_spike_value(m, ops, vals, n.s2, n.l2, 1, mods, relaxed);
    meaning::value_at(m, ops, vals, n.l3, Op::Linear { x: n.s2, slot: 2 });
    meaning::value_at(m, ops, vals, n.out, Op::TimeMean { x: n.l3 });
}

/// The value of spikes at the low threshold.
proof fn low_spike_value<V>(
    m: Meaning<V>,
    ops: Seq<Op>,
    vals: Seq<V>,
    r: usize,
    x: usize,
    site: usize,
    mods: Seq<usize>,
    relaxed: bool,
)
    requires
        meaning::computes(m, ops, vals),
        net::low_spiked(ops, r, x, site, mods, relaxed),
    ensures
        vals[r as int] == (m.1)(
            Op::Spike { x: 0, own: None, level: Level::Low, relaxed },
            if mods.contains(site) {
                (m.1)(Op::Modulated { x: 0, site }, vals[x as int])
            } else {
                vals[x as int]
            },
        ),
{
    let y = choose|y: usize| #[trigger] net::modulated(ops, y, x, site, mods) && y < r && net::at(
        ops,
        r,
        Op::Spike { x: y, own: None, level: Level::Low, relaxed },
    );
    if mods.contains(site) {
        meaning::value_at(m, ops, vals, y, Op::Modulated { x, site });
    }
    meaning::value_at(
        m, ops, vals, r, Op::Spike { x: y, own: None, level: Level::Low, relaxed },
    );
}

/// The meaning that marks what an operation gives, and all that is computed from it.
pub open spec fn marking(f: Option<Op>) -> Meaning<bool> {
    (
        |op: Op| false,
        |op: Op, v: bool| v || Some(op) == f,
        |op: Op, u: bool, v: bool| u || v,
    )
}

/// What a block gives is marked if what it reads is, or if the operation is one of its own.
proof fn block_marks(
    n: Network,
    vals: Seq<bool>,
    depths: int,
    proj: Proj,
    mods: Seq<usize>,
    relax: Relaxation,
    f: Op,
    from: int,
    to: int,
)
    requires
        meaning::computes(marking(Some(f)), n.ops@, vals),
        net::is_network(n, depths, proj, mods, relax),
        0 <= from <= to <= depths <= usize::MAX,
        vals[net::block_input(n.sps, n.blocks@, from) as int],
    ensures
        vals[net::block_input(n.sps, n.blocks@, to) as int],
    decreases to - from,
{
    if from < to {
        block_value(marking(Some(f)), n, vals, depths, proj, mods, relax, from);
        block_marks(n, vals, depths, proj, mods, relax, f, from + 1, to);
    }
}

/// Nothing is marked up to a block if no operation is.
proof fn block_plain(
    n: Network,
    vals: Seq<bool>,
    depths: int,
    proj: Proj,
    mods: Seq<usize>,
    relax: Relaxation,
    to: int,
)
    requires
        meaning::computes(marking(None), n.ops@, vals),
        net::is_network(n, depths, proj, mods, relax),
        0 <= to <= depths <= usize::MAX,
    ensures
        !vals[net::block_input(n.sps, n.blocks@, to) as int],
    decreases to,
{
    if to == 0 {
        meaning::value_at(marking(None), n.ops@, vals, 0, Op::Input);
        embedding_value(marking(None), n.ops@, vals, 0, n.sps);
    } else {
        block_plain(n, vals, depths, proj, mods, relax, to - 1);
        block_value(marking(None), n, vals, depths, proj, mods, relax, to - 1);
    }
}

/// Every layer reaches the result. Of two meanings that differ only in one layer of a network
/// (the four convolutions and the position term of the embedding, the six projections of each
/// block, the classifier) there are two that give different results: mark what the layer gives,
/// and the result is marked, while nothing is marked without.
pub proof fn layers_reach_the_result(
    n: Network,
    depths: int,
    proj: Proj,
    mods: Seq<usize>,
    relax: Relaxation,
    sel: LayerSel,
    marked: Seq<bool>,
    plain: Seq<bool>,
)
    requires
        net::is_network(n, depths, proj, mods, relax),
        !(proj is Identity),
        0 <= depths <= usize::MAX,
        sel matches LayerSel::PeProj(i) ==> i < 4,
        sel matches LayerSel::Blk { j, which } ==> j < depths && which < 6,
        meaning::computes(
            marking(
                Some(
                    match sel {
                        LayerSel::Head => match proj {
                            Proj::Plain => Op::Head { x: 0 },
                            _ => Op::NoisyHead { x: 0, slot: (6 * depths) as usize },
                        },
                        LayerSel::Blk { j, which } => match proj {
                            Proj::Plain => Op::Conv { x: 0, layer: sel },
                            _ => Op::Noisy { x: 0, j, which, slot: (6 * j + which) as usize },
                        },
                        _ => Op::Conv { x: 0, layer: sel },
                    },
                ),
            ),
            n.ops@,
            marked,
        ),
        meaning::computes(marking(None), n.ops@, plain),
    ensures
        marked[n.head.out as int],
        !plain[n.head.out as int],
{
    let slot = net::head_slot(proj, depths);
    let last = net::block_input(n.sps, n.blocks@, depths);
    block_plain(n, plain, depths, proj, mods, relax, depths);
    readout_value(marking(None), n.ops@, plain, last, slot, true, mods, relax, n.head);
    let f = match sel {
        LayerSel::Head => match proj {
            Proj::Plain => Op::Head { x: 0 },
            _ => Op::NoisyHead { x: 0, slot: (6 * depths) as usize },
        },
        LayerSel::Blk { j, which } => match proj {
            Proj::Plain => Op::Conv { x: 0, layer: sel },
            _ => Op::Noisy { x: 0, j, which, slot: (6 * j + which) as usize },
        },
        _ => Op::Conv { x: 0, layer: sel },
    };
    let m = marking(Some(f));
    match sel {
        LayerSel::Head => {},
        LayerSel::Blk { j, which } => {
            block_value(m, n, marked, depths, proj, mods, relax, j as int);
            assert(j as int as usize == j);
            block_marks(n, marked, depths, proj, mods, relax, f, j + 1, depths);
        },
        _ => {
            embedding_value(m, n.ops@, marked, 0, n.sps);
            block_marks(n, marked, depths, proj, mods, relax, f, 0, depths);
        },
    }
    readout_value(m, n.ops@, marked, last, slot, true, mods, relax, n.head);
}

/// Every site reaches the result: the spikes of the eight sites, at half the threshold on the
/// state of attention and at the whole elsewhere, and the modulation of those that have one.
pub proof fn sites_reach_the_result(
    n: Network,
    depths: int,
    proj: Proj,
    mods: Seq<usize>,
    relax: Relaxation,
    site: usize,
    modulation: bool,
    marked: Seq<bool>,
)
    requires
        net::is_network(n, depths, proj, mods, relax),
        !(proj is Identity),
        1 <= depths <= usize::MAX,
        site < 8,
        modulation ==> mods.contains(site),
        meaning::computes(
            marking(
                Some(
                    if modulation {
                        Op::Modulated { x: 0, site }
                    } else {
                        Op::Spike {
                            x: 0,
                            own: Some(site),
                            level: if site == 4 {
                                Level::Half
                            } else {
                                Level::Full
                            },
                            relaxed: if site < 5 {
                                relax.ssa
                            } else {
                                relax.mlp
                            },
                        }
                    },
                ),
            ),
            n.ops@,
            marked,
        ),
    ensures
        marked[n.head.out as int],
{
    let slot = net::head_slot(proj, depths);
    let last = net::block_input(n.sps, n.blocks@, depths);
    let f = if modulation {
        Op::Modulated { x: 0, site }
    } else {
        Op::Spike {
            x: 0,
            own: Some(site),
            level: if site == 4 {
                Level::Half
            } else {
                Level::Full
            },
            relaxed: if site < 5 {
                relax.ssa
            } else {
                relax.mlp
            },
        }
    };
    let m = marking(Some(f));
    if site < 7 {
        block_value(m, n, marked, depths, proj, mods, relax, 0);
        block_marks(n, marked, depths, proj, mods, relax, f, 1, depths);
    }
    readout_value(m, n.ops@, marked, last, slot, true, mods, relax, n.head);
}

} // verus!
