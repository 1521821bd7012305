//! What networks compute, for any meaning of their operations.
//!
//! A meaning gives the images, and a value for each operation on the values of one or two
//! registers. Two networks are compared by what they compute under the same meaning, or one
//! network under two.

use crate::net;
use crate::net::{BlockRegs, HeadRegs, LayerTaps, MlpRegs, Network, Op, Proj, SpsRegs, SsaRegs};
use crate::schedule::Relaxation;
use crate::weights::LayerSel;
use vstd::prelude::*;

verus! {

/// A meaning of operations: of the images, of operations on one value, and of those on two.
pub type Meaning<V> = (spec_fn(Op) -> V, spec_fn(Op, V) -> V, spec_fn(Op, V, V) -> V);

/// An operation without the registers that it reads.
pub open spec fn form(op: Op) -> Op {
    match op {
        Op::Input => Op::Input,
        Op::Conv { layer, .. } => Op::Conv { x: 0, layer },
        Op::Noisy { j, which, slot, .. } => Op::Noisy { x: 0, j, which, slot },
        Op::Spike { own, level, relaxed, .. } => Op::Spike { x: 0, own, level, relaxed },
        Op::Modulated { site, .. } => Op::Modulated { x: 0, site },
        Op::Pool { .. } => Op::Pool { x: 0 },
        Op::Sum { .. } => Op::Sum { a: 0, b: 0 },
        Op::Product { .. } => Op::Product { a: 0, b: 0 },
        Op::Heads { .. } => Op::Heads { x: 0 },
        Op::TokenSum { .. } => Op::TokenSum { x: 0 },
        Op::Unheads { .. } => Op::Unheads { x: 0, like: 0 },
        Op::Mean { .. } => Op::Mean { x: 0 },
        Op::Head { .. } => Op::Head { x: 0 },
        Op::NoisyHead { slot, .. } => Op::NoisyHead { x: 0, slot },
        Op::Flatten { .. } => Op::Flatten { x: 0 },
        Op::Linear { slot, .. } => Op::Linear { x: 0, slot },
        Op::TimeMean { .. } => Op::TimeMean { x: 0 },
    }
}

/// What an operation gives, with these values in the registers.
pub open spec fn outcome<V>(m: Meaning<V>, op: Op, vals: Seq<V>) -> V {
    match op {
        Op::Input => (m.0)(op),
        Op::Sum { a, b } => (m.2)(form(op), vals[a as int], vals[b as int]),
        Op::Product { a, b } => (m.2)(form(op), vals[a as int], vals[b as int]),
        Op::Unheads { x, like } => (m.2)(form(op), vals[x as int], vals[like as int]),
        Op::Conv { x, .. } => (m.1)(form(op), vals[x as int]),
        Op::Noisy { x, .. } => (m.1)(form(op), vals[x as int]),
        Op::Spike { x, .. } => (m.1)(form(op), vals[x as int]),
        Op::Modulated { x, .. } => (m.1)(form(op), vals[x as int]),
        Op::Pool { x } => (m.1)(form(op), vals[x as int]),
        Op::Heads { x } => (m.1)(form(op), vals[x as int]),
        Op::TokenSum { x } => (m.1)(form(op), vals[x as int]),
        Op::Mean { x } => (m.1)(form(op), vals[x as int]),
        Op::Head { x } => (m.1)(form(op), vals[x as int]),
        Op::NoisyHead { x, .. } => (m.1)(form(op), vals[x as int]),
        Op::Flatten { x } => (m.1)(form(op), vals[x as int]),
        Op::Linear { x, .. } => (m.1)(form(op), vals[x as int]),
        Op::TimeMean { x } => (m.1)(form(op), vals[x as int]),
    }
}

/// Whether these are the values of all registers.
#[verifier::opaque]
pub open spec fn computes<V>(m: Meaning<V>, ops: Seq<Op>, vals: Seq<V>) -> bool {
    vals.len() == ops.len() && forall|r: int|
        0 <= r < ops.len() ==> #[trigger] vals[r] == outcome(m, ops[r], vals)
}

/// Whether an operation is a layer of a block, or the classifier.
pub open spec fn may_be_noisy(op: Op) -> bool {
    match op {
        Op::Conv { layer, .. } => layer is Blk,
        Op::Noisy { .. } => true,
        Op::Head { .. } => true,
        Op::NoisyHead { .. } => true,
        _ => false,
    }
}

/// What stands for a projection gives.
pub open spec fn proj_value<V>(m: Meaning<V>, proj: Proj, j: usize, which: usize, v: V) -> V {
    match proj {
        Proj::Plain => (m.1)(Op::Conv { x: 0, layer: LayerSel::Blk { j, which } }, v),
        Proj::Noisy => (m.1)(
            Op::Noisy { x: 0, j, which, slot: (6 * j + which) as usize },
            v,
        ),
        Proj::Identity => v,
    }
}

/// What the classifier gives.
pub open spec fn head_value<V>(m: Meaning<V>, noisy: Option<usize>, v: V) -> V {
    match noisy {
        Some(slot) => (m.1)(Op::NoisyHead { x: 0, slot }, v),
        None => (m.1)(Op::Head { x: 0 }, v),
    }
}

/// Whether one meaning of a network is another meaning of another: they differ at most in what
/// stands for the projections and the classifier, and these give the same.
pub open spec fn alike<V>(m: Meaning<V>, p: Proj, w: Meaning<V>, q: Proj, depths: int) -> bool {
    &&& (p is Identity) == (q is Identity)
    &&& (m.0)(Op::Input) == (w.0)(Op::Input)
    &&& forall|op: Op, v: V| !may_be_noisy(op) ==> #[trigger] (m.1)(op, v) == (w.1)(op, v)
    &&& forall|op: Op, u: V, v: V| #[trigger] (m.2)(op, u, v) == (w.2)(op, u, v)
    &&& forall|j: usize, which: usize, v: V|
        j < depths ==> #[trigger] proj_value(m, p, j, which, v) == proj_value(w, q, j, which, v)
    &&& forall|v: V|
        #[trigger] head_value(m, net::head_slot(p, depths), v) == head_value(
            w,
            net::head_slot(q, depths),
            v,
        )
}

/// The value of a register.
pub proof fn value_at<V>(m: Meaning<V>, ops: Seq<Op>, vals: Seq<V>, r: usize, op: Op)
    requires
        computes(m, ops, vals),
        net::at(ops, r, op),
    ensures
        vals[r as int] == outcome(m, op, vals),
{
    reveal(computes);
}

/// Spikes of equal values are equal.
proof fn spikes_agree<V>(
    m: Meaning<V>,
    p: Proj,
    w: Meaning<V>,
    q: Proj,
    depths: int,
    a: Seq<Op>,
    av: Seq<V>,
    ar: usize,
    ax: usize,
    b: Seq<Op>,
    bv: Seq<V>,
    br: usize,
    bx: usize,
    site: usize,
    mods: Seq<usize>,
    relax: Relaxation,
)
    requires
        alike(m, p, w, q, depths),
        computes(m, a, av),
        computes(w, b, bv),
        net::spiked(a, ar, ax, site, mods, relax),
        net::spiked(b, br, bx, site, mods, relax),
        av[ax as int] == bv[bx as int],
    ensures
        av[ar as int] == bv[br as int],
{
    let level = net::level_at(site as int);
    let relaxed = net::relaxed_at(relax, site as int);
    let ay = choose|y: usize| #[trigger] net::modulated(a, y, ax, site, mods) && y < ar && net::at(
        a,
        ar,
        Op::Spike { x: y, own: Some(site), level, relaxed },
    );
    let by = choose|y: usize| #[trigger] net::modulated(b, y, bx, site, mods) && y < br && net::at(
        b,
        br,
        Op::Spike { x: y, own: Some(site), level, relaxed },
    );
    if mods.contains(site) {
        value_at(m, a, av, ay, Op::Modulated { x: ax, site });
        value_at(w, b, bv, by, Op::Modulated { x: bx, site });
        let op = Op::Modulated { x: 0, site };
        assert((m.1)(op, av[ax as int]) == (w.1)(op, av[ax as int]));
    }
    assert(av[ay as int] == bv[by as int]);
    value_at(m, a, av, ar, Op::Spike { x: ay, own: Some(site), level, relaxed });
    value_at(w, b, bv, br, Op::Spike { x: by, own: Some(site), level, relaxed });
    let op = Op::Spike { x: 0, own: Some(site), level, relaxed };
    assert((m.1)(op, av[ay as int]) == (w.1)(op, av[ay as int]));
}

/// Projections of equal values are equal.
proof fn projections_agree<V>(
    m: Meaning<V>,
    p: Proj,
    w: Meaning<V>,
    q: Proj,
    depths: int,
    a: Seq<Op>,
    av: Seq<V>,
    ar: usize,
    ax: usize,
    b: Seq<Op>,
    bv: Seq<V>,
    br: usize,
    bx: usize,
    j: usize,
    which: usize,
)
    requires
        alike(m, p, w, q, depths),
        computes(m, a, av),
        computes(w, b, bv),
        net::projected(a, ar, ax, j, which, p),
        net::projected(b, br, bx, j, which, q),
        av[ax as int] == bv[bx as int],
        j < depths,
    ensures
        av[ar as int] == bv[br as int],
{
    projection_value(m, p, a, av, ar, ax, j, which);
    projection_value(w, q, b, bv, br, bx, j, which);
    let v = av[ax as int];
    assert(proj_value(m, p, j, which, v) == proj_value(w, q, j, which, v));
}

/// The value of a projection.
proof fn projection_value<V>(
    m: Meaning<V>,
    p: Proj,
    a: Seq<Op>,
    av: Seq<V>,
    ar: usize,
    ax: usize,
    j: usize,
    which: usize,
)
    requires
        computes(m, a, av),
        net::projected(a, ar, ax, j, which, p),
    ensures
        av[ar as int] == proj_value(m, p, j, which, av[ax as int]),
{
    match p {
        Proj::Plain => {
            value_at(m, a, av, ar, Op::Conv { x: ax, layer: LayerSel::Blk { j, which } });
        },
        Proj::Noisy => {
            value_at(m, a, av, ar, Op::Noisy { x: ax, j, which, slot: (6 * j + which) as usize });
        },
        Proj::Identity => {},
    }
}

/// An operation on one value that is no layer of a block gives the same.
proof fn unary_agrees<V>(
    m: Meaning<V>,
    p: Proj,
    w: Meaning<V>,
    q: Proj,
    depths: int,
    a: Seq<Op>,
    av: Seq<V>,
    ar: usize,
    aop: Op,
    ax: usize,
    b: Seq<Op>,
    bv: Seq<V>,
    br: usize,
    bop: Op,
    bx: usize,
)
    requires
        alike(m, p, w, q, depths),
        computes(m, a, av),
        computes(w, b, bv),
        net::at(a, ar, aop),
        net::at(b, br, bop),
        form(aop) == form(bop),
        !may_be_noisy(form(aop)),
        outcome(m, aop, av) == (m.1)(form(aop), av[ax as int]),
        outcome(w, bop, bv) == (w.1)(form(bop), bv[bx as int]),
        av[ax as int] == bv[bx as int],
    ensures
        av[ar as int] == bv[br as int],
{
    value_at(m, a, av, ar, aop);
    value_at(w, b, bv, br, bop);
    assert((m.1)(form(aop), av[ax as int]) == (w.1)(form(aop), av[ax as int]));
}

/// An operation on two values gives the same.
proof fn binary_agrees<V>(
    m: Meaning<V>,
    p: Proj,
    w: Meaning<V>,
    q: Proj,
    depths: int,
    a: Seq<Op>,
    av: Seq<V>,
    ar: usize,
    aop: Op,
    ax: usize,
    ay: usize,
    b: Seq<Op>,
    bv: Seq<V>,
    br: usize,
    bop: Op,
    bx: usize,
    by: usize,
)
    requires
        alike(m, p, w, q, depths),
        computes(m, a, av),
        computes(w, b, bv),
        net::at(a, ar, aop),
        net::at(b, br, bop),
        form(aop) == form(bop),
        outcome(m, aop, av) == (m.2)(form(aop), av[ax as int], av[ay as int]),
        outcome(w, bop, bv) == (w.2)(form(bop), bv[bx as int], bv[by as int]),
        av[ax as int] == bv[bx as int],
        av[ay as int] == bv[by as int],
    ensures
        av[ar as int] == bv[br as int],
{
    value_at(m, a, av, ar, aop);
    value_at(w, b, bv, br, bop);
    assert((m.2)(form(aop), av[ax as int], av[ay as int]) == (w.2)(
        form(aop),
        av[ax as int],
        av[ay as int],
    ));
}

/// The patch embeddings of equal images are equal.
proof fn sps_agrees<V>(
    m: Meaning<V>,
    p: Proj,
    w: Meaning<V>,
    q: Proj,
    depths: int,
    a: Seq<Op>,
    av: Seq<V>,
    ra: SpsRegs,
    b: Seq<Op>,
    bv: Seq<V>,
    rb: SpsRegs,
)
    requires
        alike(m, p, w, q, depths),
        computes(m, a, av),
        computes(w, b, bv),
        net::at(a, 0, Op::Input),
        net::at(b, 0, Op::Input),
        net::is_sps(a, 0, ra),
        net::is_sps(b, 0, rb),
    ensures
        av[ra.out as int] == bv[rb.out as int],
{
    value_at(m, a, av, 0, Op::Input);
    value_at(w, b, bv, 0, Op::Input);
    let conv = |x: usize, l: LayerSel| Op::Conv { x, layer: l };
    let fire = |x: usize|
        Op::Spike { x, own: None::<usize>, level: net::Level::Full, relaxed: false };
    let l0 = LayerSel::PeProj(0);
    let l1 = LayerSel::PeProj(1);
    let l2 = LayerSel::PeProj(2);
    let l3 = LayerSel::PeProj(3);
    let lr = LayerSel::PeRpe;
    unary_agrees(m, p, w, q, depths, a, av, ra.c0, conv(0, l0), 0, b, bv, rb.c0, conv(0, l0), 0);
    unary_agrees(
        m, p, w, q, depths,
        a, av, ra.s0, fire(ra.c0), ra.c0,
        b, bv, rb.s0, fire(rb.c0), rb.c0,
    );
    unary_agrees(
        m, p, w, q, depths,
        a, av, ra.c1, conv(ra.s0, l1), ra.s0,
        b, bv, rb.c1, conv(rb.s0, l1), rb.s0,
    );
    unary_agrees(
        m, p, w, q, depths,
        a, av, ra.s1, fire(ra.c1), ra.c1,
        b, bv, rb.s1, fire(rb.c1), rb.c1,
    );
    unary_agrees(
        m, p, w, q, depths,
        a, av, ra.c2, conv(ra.s1, l2), ra.s1,
        b, bv, rb.c2, conv(rb.s1, l2), rb.s1,
    );
    unary_agrees(
        m, p, w, q, depths,
        a, av, ra.s2, fire(ra.c2), ra.c2,
        b, bv, rb.s2, fire(rb.c2), rb.c2,
    );
    unary_agrees(
        m, p, w, q, depths,
        a, av, ra.p2, Op::Pool { x: ra.s2 }, ra.s2,
        b, bv, rb.p2, Op::Pool { x: rb.s2 }, rb.s2,
    );
    unary_agrees(
        m, p, w, q, depths,
        a, av, ra.c3, conv(ra.p2, l3), ra.p2,
        b, bv, rb.c3, conv(rb.p2, l3), rb.p2,
    );
    unary_agrees(
        m, p, w, q, depths,
        a, av, ra.p3, Op::Pool { x: ra.c3 }, ra.c3,
        b, bv, rb.p3, Op::Pool { x: rb.c3 }, rb.c3,
    );
    unary_agrees(
        m, p, w, q, depths,
        a, av, ra.s3, fire(ra.p3), ra.p3,
        b, bv, rb.s3, fire(rb.p3), rb.p3,
    );
    unary_agrees(
        m, p, w, q, depths,
        a, av, ra.rpe, conv(ra.s3, lr), ra.s3,
        b, bv, rb.rpe, conv(rb.s3, lr), rb.s3,
    );
    binary_agrees(
        m, p, w, q, depths,
        a, av, ra.out, Op::Sum { a: ra.rpe, b: ra.p3 }, ra.rpe, ra.p3,
        b, bv, rb.out, Op::Sum { a: rb.rpe, b: rb.p3 }, rb.rpe, rb.p3,
    );
}

/// The attention halves of a block give equal values on equal values.
proof fn ssa_agrees<V>(
    m: Meaning<V>,
    p: Proj,
    w: Meaning<V>,
    q: Proj,
    depths: int,
    a: Seq<Op>,
    av: Seq<V>,
    ax: usize,
    ra: SsaRegs,
    b: Seq<Op>,
    bv: Seq<V>,
    bx: usize,
    rb: SsaRegs,
    j: usize,
    mods: Seq<usize>,
    relax: Relaxation,
)
    requires
        alike(m, p, w, q, depths),
        computes(m, a, av),
        computes(w, b, bv),
        net::is_ssa(a, ax, j, p, mods, relax, ra),
        net::is_ssa(b, bx, j, q, mods, relax, rb),
        av[ax as int] == bv[bx as int],
        j < depths,
    ensures
        av[ra.out as int] == bv[rb.out as int],
{
    spikes_agree(m, p, w, q, depths, a, av, ra.xs, ax, b, bv, rb.xs, bx, 0, mods, relax);
    projections_agree(m, p, w, q, depths, a, av, ra.q, ra.xs, b, bv, rb.q, rb.xs, j, 0);
    projections_agree(m, p, w, q, depths, a, av, ra.k, ra.xs, b, bv, rb.k, rb.xs, j, 1);
    projections_agree(m, p, w, q, depths, a, av, ra.v, ra.xs, b, bv, rb.v, rb.xs, j, 2);
    if !(p is Identity) {
        spikes_agree(m, p, w, q, depths, a, av, ra.qs, ra.q, b, bv, rb.qs, rb.q, 1, mods, relax);
        spikes_agree(m, p, w, q, depths, a, av, ra.ks, ra.k, b, bv, rb.ks, rb.k, 2, mods, relax);
        spikes_agree(m, p, w, q, depths, a, av, ra.vs, ra.v, b, bv, rb.vs, rb.v, 3, mods, relax);
    }
    unary_agrees(
        m, p, w, q, depths,
        a, av, ra.qh, Op::Heads { x: ra.qs }, ra.qs,
        b, bv, rb.qh, Op::Heads { x: rb.qs }, rb.qs,
    );
    unary_agrees(
        m, p, w, q, depths,
        a, av, ra.kh, Op::Heads { x: ra.ks }, ra.ks,
        b, bv, rb.kh, Op::Heads { x: rb.ks }, rb.ks,
    );
    unary_agrees(
        m, p, w, q, depths,
        a, av, ra.vh, Op::Heads { x: ra.vs }, ra.vs,
        b, bv, rb.vh, Op::Heads { x: rb.vs }, rb.vs,
    );
    binary_agrees(
        m, p, w, q, depths,
        a, av, ra.kv, Op::Product { a: ra.kh, b: ra.vh }, ra.kh, ra.vh,
        b, bv, rb.kv, Op::Product { a: rb.kh, b: rb.vh }, rb.kh, rb.vh,
    );
    unary_agrees(
        m, p, w, q, depths,
        a, av, ra.kvt, Op::TokenSum { x: ra.kv }, ra.kv,
        b, bv, rb.kvt, Op::TokenSum { x: rb.kv }, rb.kv,
    );
    spikes_agree(m, p, w, q, depths, a, av, ra.kvs, ra.kvt, b, bv, rb.kvs, rb.kvt, 4, mods, relax);
    binary_agrees(
        m, p, w, q, depths,
        a, av, ra.attn, Op::Product { a: ra.qh, b: ra.kvs }, ra.qh, ra.kvs,
        b, bv, rb.attn, Op::Product { a: rb.qh, b: rb.kvs }, rb.qh, rb.kvs,
    );
    binary_agrees(
        m, p, w, q, depths,
        a, av, ra.xo, Op::Unheads { x: ra.attn, like: ax }, ra.attn, ax,
        b, bv, rb.xo, Op::Unheads { x: rb.attn, like: bx }, rb.attn, bx,
    );
    projections_agree(m, p, w, q, depths, a, av, ra.xp, ra.xo, b, bv, rb.xp, rb.xo, j, 3);
    binary_agrees(
        m, p, w, q, depths,
        a, av, ra.out, Op::Sum { a: ra.xp, b: ax }, ra.xp, ax,
        b, bv, rb.out, Op::Sum { a: rb.xp, b: bx }, rb.xp, bx,
    );
}

/// The perceptron halves of a block give equal values on equal values.
proof fn mlp_agrees<V>(
    m: Meaning<V>,
    p: Proj,
    w: Meaning<V>,
    q: Proj,
    depths: int,
    a: Seq<Op>,
    av: Seq<V>,
    ax: usize,
    ra: MlpRegs,
    b: Seq<Op>,
    bv: Seq<V>,
    bx: usize,
    rb: MlpRegs,
    j: usize,
    mods: Seq<usize>,
    relax: Relaxation,
)
    requires
        alike(m, p, w, q, depths),
        computes(m, a, av),
        computes(w, b, bv),
        net::is_mlp(a, ax, j, p, mods, relax, ra),
        net::is_mlp(b, bx, j, q, mods, relax, rb),
        av[ax as int] == bv[bx as int],
        j < depths,
    ensures
        av[ra.out as int] == bv[rb.out as int],
{
    spikes_agree(m, p, w, q, depths, a, av, ra.x1, ax, b, bv, rb.x1, bx, 5, mods, relax);
    projections_agree(m, p, w, q, depths, a, av, ra.x1c, ra.x1, b, bv, rb.x1c, rb.x1, j, 4);
    spikes_agree(m, p, w, q, depths, a, av, ra.x2, ra.x1c, b, bv, rb.x2, rb.x1c, 6, mods, relax);
    projections_agree(m, p, w, q, depths, a, av, ra.x2c, ra.x2, b, bv, rb.x2c, rb.x2, j, 5);
    binary_agrees(
        m, p, w, q, depths,
        a, av, ra.out, Op::Sum { a: ra.x2c, b: ax }, ra.x2c, ax,
        b, bv, rb.out, Op::Sum { a: rb.x2c, b: bx }, rb.x2c, bx,
    );
}

/// What block `j` reads is equal.
proof fn blocks_agree<V>(
    m: Meaning<V>,
    p: Proj,
    w: Meaning<V>,
    q: Proj,
    depths: int,
    a: Network,
    av: Seq<V>,
    b: Network,
    bv: Seq<V>,
    mods: Seq<usize>,
    relax: Relaxation,
    j: int,
)
    requires
        alike(m, p, w, q, depths),
        computes(m, a.ops@, av),
        computes(w, b.ops@, bv),
        net::is_network(a, depths, p, mods, relax),
        net::is_network(b, depths, q, mods, relax),
        0 <= j <= depths <= usize::MAX,
    ensures
        av[net::block_input(a.sps, a.blocks@, j) as int] == bv[net::block_input(
            b.sps,
            b.blocks@,
            j,
        ) as int],
    decreases j,
{
    if j == 0 {
        sps_agrees(m, p, w, q, depths, a.ops@, av, a.sps, b.ops@, bv, b.sps);
    } else {
        blocks_agree(m, p, w, q, depths, a, av, b, bv, mods, relax, j - 1);
        reveal(net::blocks_made);
        let ba: BlockRegs = a.blocks@[j - 1];
        let bb: BlockRegs = b.blocks@[j - 1];
        let ax = net::block_input(a.sps, a.blocks@, j - 1);
        let bx = net::block_input(b.sps, b.blocks@, j - 1);
        let k = (j - 1) as usize;
        ssa_agrees(
            m, p, w, q, depths,
            a.ops@, av, ax, ba.ssa,
            b.ops@, bv, bx, bb.ssa, k, mods, relax,
        );
        mlp_agrees(
            m, p, w, q, depths,
            a.ops@, av, ba.ssa.out, ba.mlp,
            b.ops@, bv, bb.ssa.out, bb.mlp,
            k, mods, relax,
        );
    }
}

/// The heads give equal values on equal values, before and after the mean over time.
proof fn head_agrees<V>(
    m: Meaning<V>,
    p: Proj,
    w: Meaning<V>,
    q: Proj,
    depths: int,
    a: Seq<Op>,
    av: Seq<V>,
    ax: usize,
    ra: HeadRegs,
    b: Seq<Op>,
    bv: Seq<V>,
    bx: usize,
    rb: HeadRegs,
    mods: Seq<usize>,
    relax: Relaxation,
)
    requires
        alike(m, p, w, q, depths),
        computes(m, a, av),
        computes(w, b, bv),
        net::is_head(a, ax, net::head_slot(p, depths), true, mods, relax, ra),
        net::is_head(b, bx, net::head_slot(q, depths), true, mods, relax, rb),
        av[ax as int] == bv[bx as int],
    ensures
        av[ra.head as int] == bv[rb.head as int],
        av[ra.out as int] == bv[rb.out as int],
        av[ra.out as int] == (m.1)(Op::TimeMean { x: 0 }, av[ra.head as int]),
{
    unary_agrees(
        m, p, w, q, depths,
        a, av, ra.mean, Op::Mean { x: ax }, ax,
        b, bv, rb.mean, Op::Mean { x: bx }, bx,
    );
    spikes_agree(
        m, p, w, q, depths,
        a, av, ra.feat, ra.mean,
        b, bv, rb.feat, rb.mean, 7, mods, relax,
    );
    let sp = net::head_slot(p, depths);
    let sq = net::head_slot(q, depths);
    value_at(m, a, av, ra.head, match sp {
        Some(slot) => Op::NoisyHead { x: ra.feat, slot },
        None => Op::Head { x: ra.feat },
    });
    value_at(w, b, bv, rb.head, match sq {
        Some(slot) => Op::NoisyHead { x: rb.feat, slot },
        None => Op::Head { x: rb.feat },
    });
    let v = av[ra.feat as int];
    assert(head_value(m, sp, v) == head_value(w, sq, v));
    value_at(m, a, av, ra.out, Op::TimeMean { x: ra.head });
    unary_agrees(
        m, p, w, q, depths,
        a, av, ra.out, Op::TimeMean { x: ra.head }, ra.head,
        b, bv, rb.out, Op::TimeMean { x: rb.head }, rb.head,
    );
}

/// Two networks with the same blocks, sites and neurons compute the same, under meanings by which
/// their projections and their classifiers give the same.
pub proof fn networks_agree<V>(
    m: Meaning<V>,
    p: Proj,
    w: Meaning<V>,
    q: Proj,
    depths: int,
    mods: Seq<usize>,
    relax: Relaxation,
    a: Network,
    av: Seq<V>,
    b: Network,
    bv: Seq<V>,
)
    requires
        alike(m, p, w, q, depths),
        0 <= depths <= usize::MAX,
        net::is_network(a, depths, p, mods, relax),
        net::is_network(b, depths, q, mods, relax),
        computes(m, a.ops@, av),
        computes(w, b.ops@, bv),
    ensures
        av[a.head.head as int] == bv[b.head.head as int],
        av[a.head.out as int] == bv[b.head.out as int],
        av[a.head.out as int] == (m.1)(Op::TimeMean { x: 0 }, av[a.head.head as int]),
{
    blocks_agree(m, p, w, q, depths, a, av, b, bv, mods, relax, depths);
    head_agrees(
        m, p, w, q, depths,
        a.ops@, av, net::block_input(a.sps, a.blocks@, depths), a.head,
        b.ops@, bv, net::block_input(b.sps, b.blocks@, depths), b.head,
        mods, relax,
    );
}

/// Whether a noisy layer means the plain one: the noise is zero.
pub open spec fn is_noiseless<V>(m: Meaning<V>) -> bool {
    &&& forall|j: usize, which: usize, slot: usize, v: V|
        #[trigger] (m.1)(Op::Noisy { x: 0, j, which, slot }, v) == (m.1)(
            Op::Conv { x: 0, layer: LayerSel::Blk { j, which } },
            v,
        )
    &&& forall|slot: usize, v: V|
        #[trigger] (m.1)(Op::NoisyHead { x: 0, slot }, v) == (m.1)(Op::Head { x: 0 }, v)
}

/// Without noise and with hard spikes, the network that candidates are rated by computes what the
/// plain forward pass does.
pub proof fn noiseless_is_plain<V>(
    m: Meaning<V>,
    depths: int,
    mods: Seq<usize>,
    noisy: Network,
    noisy_vals: Seq<V>,
    plain: Network,
    plain_vals: Seq<V>,
)
    requires
        is_noiseless(m),
        0 <= depths <= usize::MAX,
        // what `network` says of `noisy`, and `forward_full` of `plain`
        net::is_network(noisy, depths, Proj::Noisy, mods, net::all_hard()),
        net::is_network(plain, depths, Proj::Plain, mods, net::all_hard()),
        computes(m, noisy.ops@, noisy_vals),
        computes(m, plain.ops@, plain_vals),
    ensures
        noisy_vals[noisy.head.out as int] == plain_vals[plain.head.out as int],
{
    networks_agree(
        m,
        Proj::Noisy,
        m,
        Proj::Plain,
        depths,
        mods,
        net::all_hard(),
        noisy,
        noisy_vals,
        plain,
        plain_vals,
    );
}

/// Whether an operation uses the weights of a block.
pub open spec fn uses_block(op: Op) -> bool {
    match op {
        Op::Conv { layer, .. } => layer is Blk,
        Op::Noisy { .. } => true,
        _ => false,
    }
}

/// No weight of a block reaches the result of a network without projections: two meanings that
/// differ only there give the same.
pub proof fn identity_ignores_blocks<V>(
    m: Meaning<V>,
    w: Meaning<V>,
    depths: int,
    mods: Seq<usize>,
    relax: Relaxation,
    a: Network,
    av: Seq<V>,
    b: Network,
    bv: Seq<V>,
)
    requires
        (m.0)(Op::Input) == (w.0)(Op::Input),
        forall|op: Op, v: V| !uses_block(op) ==> #[trigger] (m.1)(op, v) == (w.1)(op, v),
        forall|op: Op, u: V, v: V| #[trigger] (m.2)(op, u, v) == (w.2)(op, u, v),
        0 <= depths <= usize::MAX,
        net::is_network(a, depths, Proj::Identity, mods, relax),
        net::is_network(b, depths, Proj::Identity, mods, relax),
        computes(m, a.ops@, av),
        computes(w, b.ops@, bv),
    ensures
        av[a.head.out as int] == bv[b.head.out as int],
{
    assert forall|v: V|
        #[trigger] head_value(m, net::head_slot(Proj::Identity, depths), v) == head_value(
            w,
            net::head_slot(Proj::Identity, depths),
            v,
        ) by {
        let op = Op::NoisyHead { x: 0, slot: 0 };
        assert(!uses_block(op));
        assert((m.1)(op, v) == (w.1)(op, v));
    }
    assert forall|op: Op, v: V| !may_be_noisy(op) implies #[trigger] (m.1)(op, v) == (w.1)(
        op,
        v,
    ) by {
        assert(!uses_block(op));
    }
    networks_agree(m, Proj::Identity, w, Proj::Identity, depths, mods, relax, a, av, b, bv);
}

/// The pass with the outputs of all layers computes what the plain forward pass does, and the mean
/// over time of what it has for the classifier is that result.
pub proof fn taps_end_in_the_result<V>(
    m: Meaning<V>,
    depths: int,
    taps: LayerTaps,
    tap_vals: Seq<V>,
    full: Network,
    full_vals: Seq<V>,
)
    requires
        0 <= depths <= usize::MAX,
        // what `forward_taps` says of `taps`, and `forward_full` of `full`
        net::is_network(taps.net, depths, Proj::Plain, Seq::empty(), net::all_hard()),
        net::is_network(full, depths, Proj::Plain, Seq::empty(), net::all_hard()),
        computes(m, taps.net.ops@, tap_vals),
        computes(m, full.ops@, full_vals),
    ensures
        tap_vals[taps.net.head.out as int] == full_vals[full.head.out as int],
        full_vals[full.head.out as int] == (m.1)(
            Op::TimeMean { x: 0 },
            tap_vals[net::layer_register(taps.net, LayerSel::Head) as int],
        ),
{
    networks_agree(
        m,
        Proj::Plain,
        m,
        Proj::Plain,
        depths,
        Seq::empty(),
        net::all_hard(),
        taps.net,
        tap_vals,
        full,
        full_vals,
    );
}

} // verus!
