//! Forward passes as programs over registers.
//!
//! A program is a list of tensor operations; the result of operation `i` is register `i`, and
//! operands are earlier registers. The patch embedding, the attention and perceptron halves of
//! each block and the head are laid down here, with plain or with noisy projections; whoever
//! holds tensors carries the operations out. Tensors have the layout `[T, B, C, H, W]`.

use crate::factored;
use crate::factored::{Blocks, FLoc};
use crate::params::KV_SITE;
use crate::schedule::Relaxation;
use crate::slots::ShapeTree;
use crate::weights;
use crate::weights::{layer_list, LayerSel};
use vstd::prelude::*;

verus! {

/// A firing threshold that a spike starts from.
#[derive(Clone, Copy, Debug, PartialEq, Eq, Structural)]
pub enum Level {
    /// One.
    Full,
    /// One half.
    Half,
    /// Three tenths.
    Low,
}

/// An operation.
#[derive(Clone, Copy, Debug, PartialEq, Eq, Structural)]
pub enum Op {
    /// The images.
    Input,
    /// Convolution with the weights of a layer, padded so that odd kernels keep the size.
    Conv { x: usize, layer: LayerSel },
    /// Convolution with a one by one kernel and the noise of a slot.
    Noisy { x: usize, j: usize, which: usize, slot: usize },
    /// Spikes of leaky neurons over time. The site `own` may have a threshold of its own.
    Spike { x: usize, own: Option<usize>, level: Level, relaxed: bool },
    /// Product with the modulation of a site.
    Modulated { x: usize, site: usize },
    /// Largest of three by three, every second row and column.
    Pool { x: usize },
    Sum { a: usize, b: usize },
    Product { a: usize, b: usize },
    /// `[T, B, C, H, W]` to `[T, B, heads, H * W, C / heads]`.
    Heads { x: usize },
    /// Sum over the tokens, which leaves one.
    TokenSum { x: usize },
    /// Back from heads to the layout of another register.
    Unheads { x: usize, like: usize },
    /// Mean over the image, `[T, B, C, 1]`.
    Mean { x: usize },
    /// The classifier, `[T, B, classes]`.
    Head { x: usize },
    /// The classifier with the noise of a slot.
    NoisyHead { x: usize, slot: usize },
    /// Each image as one row, `[T, B, C * H * W]`.
    Flatten { x: usize },
    /// A fully connected layer with the noise of a slot, which stands in for its bias too.
    Linear { x: usize, slot: usize },
    /// Mean over time.
    TimeMean { x: usize },
}

/// What stands for the projections of a block.
#[derive(Clone, Copy, Debug, PartialEq, Eq, Structural)]
pub enum Proj {
    Plain,
    Noisy,
    /// Nothing: a projection is its input.
    Identity,
}

/// Registers of the patch embedding.
#[derive(Clone, Copy, Debug, PartialEq, Eq, Structural)]
pub struct SpsRegs {
    pub c0: usize,
    pub s0: usize,
    pub c1: usize,
    pub s1: usize,
    pub c2: usize,
    pub s2: usize,
    pub p2: usize,
    pub c3: usize,
    /// The features.
    pub p3: usize,
    pub s3: usize,
    pub rpe: usize,
    pub out: usize,
}

/// Registers of the attention half of a block.
#[derive(Clone, Copy, Debug, PartialEq, Eq, Structural)]
pub struct SsaRegs {
    /// Spikes of the input.
    pub xs: usize,
    pub q: usize,
    pub k: usize,
    pub v: usize,
    /// Spikes of the three projections.
    pub qs: usize,
    pub ks: usize,
    pub vs: usize,
    pub qh: usize,
    pub kh: usize,
    pub vh: usize,
    pub kv: usize,
    /// Sum of key and value products over the tokens, and its spikes.
    pub kvt: usize,
    pub kvs: usize,
    pub attn: usize,
    /// Attention in the layout of the input, and its projection.
    pub xo: usize,
    pub xp: usize,
    pub out: usize,
}

/// Registers of the perceptron half of a block.
#[derive(Clone, Copy, Debug, PartialEq, Eq, Structural)]
pub struct MlpRegs {
    pub x1: usize,
    pub x1c: usize,
    pub x2: usize,
    pub x2c: usize,
    pub out: usize,
}

/// Registers of a block.
#[derive(Clone, Copy, Debug, PartialEq, Eq, Structural)]
pub struct BlockRegs {
    pub ssa: SsaRegs,
    pub mlp: MlpRegs,
}

/// Registers of the head.
#[derive(Clone, Copy, Debug, PartialEq, Eq, Structural)]
pub struct HeadRegs {
    pub mean: usize,
    /// What the classifier reads.
    pub feat: usize,
    /// Classifier output at each time.
    pub head: usize,
    pub out: usize,
}

/// A forward pass.
pub struct Network {
    pub ops: Vec<Op>,
    pub sps: SpsRegs,
    pub blocks: Vec<BlockRegs>,
    pub head: HeadRegs,
}

/// Whether the neurons of a site are relaxed.
pub open spec fn relaxed_at(relax: Relaxation, site: int) -> bool {
    if site <= 4 {
        relax.ssa
    } else {
        relax.mlp
    }
}

/// The threshold that the neurons of a site start from.
pub open spec fn level_at(site: int) -> Level {
    if site == KV_SITE {
        Level::Half
    } else {
        Level::Full
    }
}

/// Whether register `r` holds what operation `op` gives.
pub open spec fn at(ops: Seq<Op>, r: usize, op: Op) -> bool {
    r < ops.len() && ops[r as int] == op
}

/// Whether register `r` holds the convolution of register `x` with a layer.
pub open spec fn conv_at(ops: Seq<Op>, r: usize, x: usize, layer: LayerSel) -> bool {
    x < r && at(ops, r, Op::Conv { x, layer })
}

/// Whether register `r` holds hard spikes of register `x` at threshold one.
pub open spec fn fires_at(ops: Seq<Op>, r: usize, x: usize) -> bool {
    x < r && at(ops, r, Op::Spike { x, own: None, level: Level::Full, relaxed: false })
}

/// Whether register `r` holds the spikes of a site with input register `x`, modulated if the
/// site is.
pub open spec fn spiked(
    ops: Seq<Op>,
    r: usize,
    x: usize,
    site: usize,
    mods: Seq<usize>,
    relax: Relaxation,
) -> bool {
    exists|y: usize| #[trigger] modulated(ops, y, x, site, mods) && y < r && at(
        ops,
        r,
        Op::Spike {
            x: y,
            own: Some(site),
            level: level_at(site as int),
            relaxed: relaxed_at(relax, site as int),
        },
    )
}

/// Whether register `y` holds register `x`, modulated if the site is.
pub open spec fn modulated(
    ops: Seq<Op>,
    y: usize,
    x: usize,
    site: usize,
    mods: Seq<usize>,
) -> bool {
    if mods.contains(site) {
        x < y && at(ops, y, Op::Modulated { x, site })
    } else {
        y == x && x < ops.len()
    }
}

/// Whether register `r` holds projection `which` of block `j` of register `x`.
pub open spec fn projected(
    ops: Seq<Op>,
    r: usize,
    x: usize,
    j: usize,
    which: usize,
    proj: Proj,
) -> bool {
    match proj {
        Proj::Plain => conv_at(ops, r, x, LayerSel::Blk { j, which }),
        Proj::Noisy => x < r && at(
            ops,
            r,
            Op::Noisy { x, j, which, slot: (6 * j + which) as usize },
        ),
        Proj::Identity => r == x && x < ops.len(),
    }
}

/// The patch embedding of register `x`: four convolutions with spikes, the third pooled after
/// and the fourth before its spikes, and a position term that is added to the features.
pub open spec fn is_sps(ops: Seq<Op>, x: usize, r: SpsRegs) -> bool {
    &&& conv_at(ops, r.c0, x, LayerSel::PeProj(0))
    &&& fires_at(ops, r.s0, r.c0)
    &&& conv_at(ops, r.c1, r.s0, LayerSel::PeProj(1))
    &&& fires_at(ops, r.s1, r.c1)
    &&& conv_at(ops, r.c2, r.s1, LayerSel::PeProj(2))
    &&& fires_at(ops, r.s2, r.c2)
    &&& r.s2 < r.p2 && at(ops, r.p2, Op::Pool { x: r.s2 })
    &&& conv_at(ops, r.c3, r.p2, LayerSel::PeProj(3))
    &&& r.c3 < r.p3 && at(ops, r.p3, Op::Pool { x: r.c3 })
    &&& fires_at(ops, r.s3, r.p3)
    &&& conv_at(ops, r.rpe, r.s3, LayerSel::PeRpe)
    &&& r.rpe < r.out && r.p3 < r.out && at(ops, r.out, Op::Sum { a: r.rpe, b: r.p3 })
}

/// The attention half of block `j` on register `x`: queries, keys and values of the input's
/// spikes; keys and values multiplied and summed over the tokens; the spikes of that masked by
/// the queries, projected, and added to the input.
pub open spec fn is_ssa(
    ops: Seq<Op>,
    x: usize,
    j: usize,
    proj: Proj,
    mods: Seq<usize>,
    relax: Relaxation,
    r: SsaRegs,
) -> bool {
    &&& spiked(ops, r.xs, x, 0, mods, relax)
    &&& projected(ops, r.q, r.xs, j, 0, proj)
    &&& projected(ops, r.k, r.xs, j, 1, proj)
    &&& projected(ops, r.v, r.xs, j, 2, proj)
    &&& if proj is Identity {
        r.qs == r.q && r.ks == r.k && r.vs == r.v
    } else {
        &&& spiked(ops, r.qs, r.q, 1, mods, relax)
        &&& spiked(ops, r.ks, r.k, 2, mods, relax)
        &&& spiked(ops, r.vs, r.v, 3, mods, relax)
    }
    &&& r.qs < r.qh && at(ops, r.qh, Op::Heads { x: r.qs })
    &&& r.ks < r.kh && at(ops, r.kh, Op::Heads { x: r.ks })
    &&& r.vs < r.vh && at(ops, r.vh, Op::Heads { x: r.vs })
    &&& r.kh < r.kv && r.vh < r.kv && at(ops, r.kv, Op::Product { a: r.kh, b: r.vh })
    &&& r.kv < r.kvt && at(ops, r.kvt, Op::TokenSum { x: r.kv })
    &&& spiked(ops, r.kvs, r.kvt, 4, mods, relax)
    &&& r.qh < r.attn && r.kvs < r.attn && at(ops, r.attn, Op::Product { a: r.qh, b: r.kvs })
    &&& r.attn < r.xo && x < r.xo && at(ops, r.xo, Op::Unheads { x: r.attn, like: x })
    &&& projected(ops, r.xp, r.xo, j, 3, proj)
    &&& r.xp < r.out && x < r.out && at(ops, r.out, Op::Sum { a: r.xp, b: x })
}

/// The perceptron half of block `j` on register `x`: two layers of spikes and projections, added
/// to the input.
pub open spec fn is_mlp(
    ops: Seq<Op>,
    x: usize,
    j: usize,
    proj: Proj,
    mods: Seq<usize>,
    relax: Relaxation,
    r: MlpRegs,
) -> bool {
    &&& spiked(ops, r.x1, x, 5, mods, relax)
    &&& projected(ops, r.x1c, r.x1, j, 4, proj)
    &&& spiked(ops, r.x2, r.x1c, 6, mods, relax)
    &&& projected(ops, r.x2c, r.x2, j, 5, proj)
    &&& r.x2c < r.out && x < r.out && at(ops, r.out, Op::Sum { a: r.x2c, b: x })
}

/// The head on register `x`: mean over the image, spikes, classifier, mean over time.
pub open spec fn is_head(
    ops: Seq<Op>,
    x: usize,
    noisy: Option<usize>,
    fires: bool,
    mods: Seq<usize>,
    relax: Relaxation,
    r: HeadRegs,
) -> bool {
    &&& x < r.mean && at(ops, r.mean, Op::Mean { x })
    &&& if fires {
        spiked(ops, r.feat, r.mean, 7, mods, relax)
    } else {
        r.feat == r.mean
    }
    &&& r.feat < r.head && at(
        ops,
        r.head,
        match noisy {
            Some(slot) => Op::NoisyHead { x: r.feat, slot },
            None => Op::Head { x: r.feat },
        },
    )
    &&& r.head < r.out && at(ops, r.out, Op::TimeMean { x: r.head })
}

/// The register that block `j` reads: the output of what is before it.
pub open spec fn block_input(sps: SpsRegs, blocks: Seq<BlockRegs>, j: int) -> usize {
    if j == 0 {
        sps.out
    } else {
        blocks[j - 1].mlp.out
    }
}

/// The slot of the classifier's noise, if projections are noisy or missing.
pub open spec fn head_slot(proj: Proj, depths: int) -> Option<usize> {
    match proj {
        Proj::Plain => None,
        Proj::Noisy => Some((6 * depths) as usize),
        Proj::Identity => Some(0),
    }
}

/// Whether these are the blocks of a network, each on the output of what is before it.
#[verifier::opaque]
pub open spec fn blocks_made(
    ops: Seq<Op>,
    sps: SpsRegs,
    blocks: Seq<BlockRegs>,
    proj: Proj,
    mods: Seq<usize>,
    relax: Relaxation,
) -> bool {
    forall|j: int|
        #![trigger blocks[j]]
        0 <= j < blocks.len() ==> is_block(
            ops,
            block_input(sps, blocks, j),
            j as usize,
            proj,
            mods,
            relax,
            blocks[j],
        )
}

/// Block `j` on register `x`: its two halves.
pub open spec fn is_block(
    ops: Seq<Op>,
    x: usize,
    j: usize,
    proj: Proj,
    mods: Seq<usize>,
    relax: Relaxation,
    b: BlockRegs,
) -> bool {
    is_ssa(ops, x, j, proj, mods, relax, b.ssa) && is_mlp(
        ops,
        b.ssa.out,
        j,
        proj,
        mods,
        relax,
        b.mlp,
    )
}

/// A network with attention blocks.
pub open spec fn is_network(
    n: Network,
    depths: int,
    proj: Proj,
    mods: Seq<usize>,
    relax: Relaxation,
) -> bool {
    &&& at(n.ops@, 0, Op::Input)
    &&& is_sps(n.ops@, 0, n.sps)
    &&& n.blocks@.len() == depths
    &&& blocks_made(n.ops@, n.sps, n.blocks@, proj, mods, relax)
    &&& is_head(
        n.ops@,
        block_input(n.sps, n.blocks@, depths),
        head_slot(proj, depths),
        true,
        mods,
        relax,
        n.head,
    )
}

/// One list starts with another.
pub open spec fn extends(a: Seq<Op>, b: Seq<Op>) -> bool {
    a.len() <= b.len() && forall|i: int| 0 <= i < a.len() ==> #[trigger] b[i] == a[i]
}

/// Appends an operation and returns its register.
fn emit(ops: &mut Vec<Op>, op: Op) -> (r: usize)
    ensures
        r == old(ops)@.len(),
        final(ops)@ == old(ops)@.push(op),
        extends(old(ops)@, final(ops)@),
        at(final(ops)@, r, op),
{
    let r: usize = ops.len();
    ops.push(op);
    r
}

/// Whether a site is in a list.
fn has_site(mods: &[usize], site: usize) -> (b: bool)
    ensures
        b == mods@.contains(site),
{
    let mut i: usize = 0;
    while i < mods.len()
        invariant
            i <= mods@.len(),
            forall|k: int| 0 <= k < i ==> mods@[k] != site,
        decreases mods@.len() - i,
    {
        if mods[i] == site {
            return true;
        }
        i += 1;
    }
    false
}

/// Appends the spikes of a site.
fn emit_spikes(
    ops: &mut Vec<Op>,
    x: usize,
    site: usize,
    mods: &[usize],
    relax: Relaxation,
) -> (r: usize)
    requires
        x < old(ops)@.len(),
    ensures
        extends(old(ops)@, final(ops)@),
        old(ops)@.len() <= r < final(ops)@.len(),
        spiked(final(ops)@, r, x, site, mods@, relax),
{
    let y: usize = if has_site(mods, site) {
        emit(ops, Op::Modulated { x, site })
    } else {
        x
    };
    assert(modulated(ops@, y, x, site, mods@));
    let relaxed = if site <= 4 {
        relax.ssa
    } else {
        relax.mlp
    };
    let level = if site == KV_SITE {
        Level::Half
    } else {
        Level::Full
    };
    let r: usize = emit(ops, Op::Spike { x: y, own: Some(site), level, relaxed });
    assert(modulated(ops@, y, x, site, mods@));
    r
}

/// Appends a projection.
fn emit_proj(ops: &mut Vec<Op>, x: usize, j: usize, which: usize, proj: Proj) -> (r: usize)
    requires
        x < old(ops)@.len(),
        which < 6,
        6 * j + 6 <= usize::MAX,
    ensures
        extends(old(ops)@, final(ops)@),
        x <= r < final(ops)@.len(),
        projected(final(ops)@, r, x, j, which, proj),
{
    match proj {
        Proj::Plain => emit(ops, Op::Conv { x, layer: LayerSel::Blk { j, which } }),
        Proj::Noisy => emit(ops, Op::Noisy { x, j, which, slot: 6 * j + which }),
        Proj::Identity => x,
    }
}

/// Spikes stay where they are when operations are appended.
proof fn spiked_stays(
    a: Seq<Op>,
    b: Seq<Op>,
    r: usize,
    x: usize,
    site: usize,
    mods: Seq<usize>,
    relax: Relaxation,
)
    requires
        extends(a, b),
        spiked(a, r, x, site, mods, relax),
    ensures
        spiked(b, r, x, site, mods, relax),
{
    let y = choose|y: usize| #[trigger] modulated(a, y, x, site, mods) && y < r && at(
        a,
        r,
        Op::Spike {
            x: y,
            own: Some(site),
            level: level_at(site as int),
            relaxed: relaxed_at(relax, site as int),
        },
    );
    assert(modulated(b, y, x, site, mods));
}

/// Appends the patch embedding.
pub fn forward_sps(ops: &mut Vec<Op>, x: usize) -> (r: SpsRegs)
    requires
        x < old(ops)@.len(),
    ensures
        extends(old(ops)@, final(ops)@),
        is_sps(final(ops)@, x, r),
        r.out < final(ops)@.len(),
{
    let c0: usize = emit(ops, Op::Conv { x, layer: LayerSel::PeProj(0) });
    let s0: usize = emit_fires(ops, c0);
    let c1: usize = emit(ops, Op::Conv { x: s0, layer: LayerSel::PeProj(1) });
    let s1: usize = emit_fires(ops, c1);
    let c2: usize = emit(ops, Op::Conv { x: s1, layer: LayerSel::PeProj(2) });
    let s2: usize = emit_fires(ops, c2);
    let p2: usize = emit(ops, Op::Pool { x: s2 });
    let c3: usize = emit(ops, Op::Conv { x: p2, layer: LayerSel::PeProj(3) });
    let p3: usize = emit(ops, Op::Pool { x: c3 });
    let s3: usize = emit_fires(ops, p3);
    let rpe: usize = emit(ops, Op::Conv { x: s3, layer: LayerSel::PeRpe });
    let out: usize = emit(ops, Op::Sum { a: rpe, b: p3 });
    SpsRegs { c0, s0, c1, s1, c2, s2, p2, c3, p3, s3, rpe, out }
}

/// Appends hard spikes at threshold one.
fn emit_fires(ops: &mut Vec<Op>, x: usize) -> (r: usize)
    requires
        x < old(ops)@.len(),
    ensures
        r == old(ops)@.len(),
        extends(old(ops)@, final(ops)@),
        r < final(ops)@.len(),
        final(ops)@.len() == r + 1,
        fires_at(final(ops)@, r, x),
{
    emit(ops, Op::Spike { x, own: None, level: Level::Full, relaxed: false })
}

/// Appends the attention half of a block.
pub fn forward_ssa(
    ops: &mut Vec<Op>,
    x: usize,
    j: usize,
    proj: Proj,
    mods: &[usize],
    relax: Relaxation,
) -> (r: SsaRegs)
    requires
        x < old(ops)@.len(),
        6 * j + 6 <= usize::MAX,
    ensures
        extends(old(ops)@, final(ops)@),
        is_ssa(final(ops)@, x, j, proj, mods@, relax, r),
        r.out < final(ops)@.len(),
{
    let xs: usize = emit_spikes(ops, x, 0, mods, relax);
    let ghost o1 = ops@;
    let q: usize = emit_proj(ops, xs, j, 0, proj);
    let k: usize = emit_proj(ops, xs, j, 1, proj);
    let v: usize = emit_proj(ops, xs, j, 2, proj);
    let ghost o2 = ops@;
    let identity = match proj {
        Proj::Identity => true,
        _ => false,
    };
    let qs: usize = if identity {
        q
    } else {
        emit_spikes(ops, q, 1, mods, relax)
    };
    let ghost o3 = ops@;
    let ks: usize = if identity {
        k
    } else {
        emit_spikes(ops, k, 2, mods, relax)
    };
    let ghost o4 = ops@;
    let vs: usize = if identity {
        v
    } else {
        emit_spikes(ops, v, 3, mods, relax)
    };
    let ghost o5 = ops@;
    let qh: usize = emit(ops, Op::Heads { x: qs });
    let kh: usize = emit(ops, Op::Heads { x: ks });
    let vh: usize = emit(ops, Op::Heads { x: vs });
    let kv: usize = emit(ops, Op::Product { a: kh, b: vh });
    let kvt: usize = emit(ops, Op::TokenSum { x: kv });
    let kvs: usize = emit_spikes(ops, kvt, 4, mods, relax);
    let ghost o6 = ops@;
    let attn: usize = emit(ops, Op::Product { a: qh, b: kvs });
    let xo: usize = emit(ops, Op::Unheads { x: attn, like: x });
    let xp: usize = emit_proj(ops, xo, j, 3, proj);
    let out: usize = emit(ops, Op::Sum { a: xp, b: x });
    proof {
        spiked_stays(o1, ops@, xs, x, 0, mods@, relax);
        if !identity {
            spiked_stays(o3, ops@, qs, q, 1, mods@, relax);
            spiked_stays(o4, ops@, ks, k, 2, mods@, relax);
            spiked_stays(o5, ops@, vs, v, 3, mods@, relax);
        }
        spiked_stays(o6, ops@, kvs, kvt, 4, mods@, relax);
    }
    SsaRegs { xs, q, k, v, qs, ks, vs, qh, kh, vh, kv, kvt, kvs, attn, xo, xp, out }
}

/// Appends the perceptron half of a block.
pub fn forward_mlp(
    ops: &mut Vec<Op>,
    x: usize,
    j: usize,
    proj: Proj,
    mods: &[usize],
    relax: Relaxation,
) -> (r: MlpRegs)
    requires
        x < old(ops)@.len(),
        6 * j + 6 <= usize::MAX,
    ensures
        extends(old(ops)@, final(ops)@),
        is_mlp(final(ops)@, x, j, proj, mods@, relax, r),
        r.out < final(ops)@.len(),
{
    let x1: usize = emit_spikes(ops, x, 5, mods, relax);
    let ghost o1 = ops@;
    let x1c: usize = emit_proj(ops, x1, j, 4, proj);
    let x2: usize = emit_spikes(ops, x1c, 6, mods, relax);
    let ghost o2 = ops@;
    let x2c: usize = emit_proj(ops, x2, j, 5, proj);
    let out: usize = emit(ops, Op::Sum { a: x2c, b: x });
    proof {
        spiked_stays(o1, ops@, x1, x, 5, mods@, relax);
        spiked_stays(o2, ops@, x2, x1c, 6, mods@, relax);
    }
    MlpRegs { x1, x1c, x2, x2c, out }
}

/// Appends a head.
fn emit_head(
    ops: &mut Vec<Op>,
    x: usize,
    noisy: Option<usize>,
    fires: bool,
    mods: &[usize],
    relax: Relaxation,
) -> (r: HeadRegs)
    requires
        x < old(ops)@.len(),
    ensures
        extends(old(ops)@, final(ops)@),
        is_head(final(ops)@, x, noisy, fires, mods@, relax, r),
        r.out + 1 == final(ops)@.len(),
{
    let mean: usize = emit(ops, Op::Mean { x });
    let feat: usize = if fires {
        emit_spikes(ops, mean, 7, mods, relax)
    } else {
        mean
    };
    let ghost o1 = ops@;
    let op = match noisy {
        Some(slot) => Op::NoisyHead { x: feat, slot },
        None => Op::Head { x: feat },
    };
    let head: usize = emit(ops, op);
    let out: usize = emit(ops, Op::TimeMean { x: head });
    proof {
        if fires {
            spiked_stays(o1, ops@, feat, mean, 7, mods@, relax);
        }
    }
    HeadRegs { mean, feat, head, out }
}

/// The attention half of a block stays where it is when operations are appended.
proof fn ssa_stays(
    a: Seq<Op>,
    b: Seq<Op>,
    x: usize,
    j: usize,
    proj: Proj,
    mods: Seq<usize>,
    relax: Relaxation,
    r: SsaRegs,
)
    requires
        extends(a, b),
        is_ssa(a, x, j, proj, mods, relax, r),
    ensures
        is_ssa(b, x, j, proj, mods, relax, r),
{
    spiked_stays(a, b, r.xs, x, 0, mods, relax);
    if !(proj is Identity) {
        spiked_stays(a, b, r.qs, r.q, 1, mods, relax);
        spiked_stays(a, b, r.ks, r.k, 2, mods, relax);
        spiked_stays(a, b, r.vs, r.v, 3, mods, relax);
    }
    spiked_stays(a, b, r.kvs, r.kvt, 4, mods, relax);
}

/// The perceptron half of a block stays where it is when operations are appended.
proof fn mlp_stays(
    a: Seq<Op>,
    b: Seq<Op>,
    x: usize,
    j: usize,
    proj: Proj,
    mods: Seq<usize>,
    relax: Relaxation,
    r: MlpRegs,
)
    requires
        extends(a, b),
        is_mlp(a, x, j, proj, mods, relax, r),
    ensures
        is_mlp(b, x, j, proj, mods, relax, r),
{
    spiked_stays(a, b, r.x1, x, 5, mods, relax);
    spiked_stays(a, b, r.x2, r.x1c, 6, mods, relax);
}

/// Blocks stay where they are when operations are appended.
proof fn blocks_stay(
    a: Seq<Op>,
    b: Seq<Op>,
    sps: SpsRegs,
    blocks: Seq<BlockRegs>,
    proj: Proj,
    mods: Seq<usize>,
    relax: Relaxation,
)
    requires
        extends(a, b),
        blocks_made(a, sps, blocks, proj, mods, relax),
    ensures
        blocks_made(b, sps, blocks, proj, mods, relax),
{
    reveal(blocks_made);
    assert forall|j: int|
        #![trigger blocks[j]]
        0 <= j < blocks.len() implies is_block(
        b,
        block_input(sps, blocks, j),
        j as usize,
        proj,
        mods,
        relax,
        blocks[j],
    ) by {
        let x = block_input(sps, blocks, j);
        ssa_stays(a, b, x, j as usize, proj, mods, relax, blocks[j].ssa);
        mlp_stays(a, b, blocks[j].ssa.out, j as usize, proj, mods, relax, blocks[j].mlp);
    }
}

/// One more block.
proof fn blocks_grow(
    ops: Seq<Op>,
    sps: SpsRegs,
    blocks: Seq<BlockRegs>,
    proj: Proj,
    mods: Seq<usize>,
    relax: Relaxation,
    r: BlockRegs,
)
    requires
        blocks_made(ops, sps, blocks, proj, mods, relax),
        is_block(
            ops,
            block_input(sps, blocks, blocks.len() as int),
            blocks.len() as usize,
            proj,
            mods,
            relax,
            r,
        ),
    ensures
        blocks_made(ops, sps, blocks.push(r), proj, mods, relax),
{
    reveal(blocks_made);
    let all = blocks.push(r);
    assert forall|j: int|
        #![trigger all[j]]
        0 <= j < all.len() implies is_block(
        ops,
        block_input(sps, all, j),
        j as usize,
        proj,
        mods,
        relax,
        all[j],
    ) by {
        assert(block_input(sps, all, j) == block_input(sps, blocks, j));
        if j < blocks.len() {
            assert(all[j] == blocks[j]);
        }
    }
}

/// Appends a block.
fn emit_block(
    ops: &mut Vec<Op>,
    x: usize,
    j: usize,
    proj: Proj,
    mods: &[usize],
    relax: Relaxation,
) -> (r: BlockRegs)
    requires
        x < old(ops)@.len(),
        6 * j + 6 <= usize::MAX,
    ensures
        extends(old(ops)@, final(ops)@),
        is_block(final(ops)@, x, j, proj, mods@, relax, r),
        r.mlp.out < final(ops)@.len(),
{
    let ssa: SsaRegs = forward_ssa(ops, x, j, proj, mods, relax);
    let ghost mid = ops@;
    let mlp: MlpRegs = forward_mlp(ops, ssa.out, j, proj, mods, relax);
    proof {
        ssa_stays(mid, ops@, x, j, proj, mods@, relax, ssa);
    }
    BlockRegs { ssa, mlp }
}

/// A network with attention blocks.
///
/// With plain projections and no modulation this is the network that is trained by gradients;
/// with noisy projections candidates are rated by it.
pub fn network(depths: usize, proj: Proj, mods: &[usize], relax: Relaxation) -> (n: Network)
    requires
        6 * depths + 6 <= usize::MAX,
    ensures
        is_network(n, depths as int, proj, mods@, relax),
        n.head.out + 1 == n.ops@.len(),
{
    let mut ops: Vec<Op> = Vec::new();
    let input: usize = emit(&mut ops, Op::Input);
    let sps: SpsRegs = forward_sps(&mut ops, input);
    let mut blocks: Vec<BlockRegs> = Vec::new();
    let mut x: usize = sps.out;
    let mut j: usize = 0;
    assert(blocks_made(ops@, sps, blocks@, proj, mods@, relax)) by {
        reveal(blocks_made);
    }
    while j < depths
        invariant
            6 * depths + 6 <= usize::MAX,
            j <= depths,
            blocks@.len() == j,
            x < ops@.len(),
            x == block_input(sps, blocks@, j as int),
            at(ops@, 0, Op::Input),
            is_sps(ops@, 0, sps),
            blocks_made(ops@, sps, blocks@, proj, mods@, relax),
        decreases depths - j,
    {
        let ghost before = ops@;
        let ghost done = blocks@;
        let r: BlockRegs = emit_block(&mut ops, x, j, proj, mods, relax);
        blocks.push(r);
        proof {
            blocks_stay(before, ops@, sps, done, proj, mods@, relax);
            blocks_grow(ops@, sps, done, proj, mods@, relax, r);
        }
        x = r.mlp.out;
        j += 1;
    }
    let noisy: Option<usize> = match proj {
        Proj::Plain => None,
        Proj::Noisy => Some(6 * depths),
        Proj::Identity => Some(0),
    };
    let ghost before = ops@;
    let head: HeadRegs = emit_head(&mut ops, x, noisy, true, mods, relax);
    proof {
        blocks_stay(before, ops@, sps, blocks@, proj, mods@, relax);
    }
    Network { ops, sps, blocks, head }
}

/// A linear probe: the mean features of the patch embedding, classified without spikes.
pub open spec fn is_probe(n: Network) -> bool {
    &&& at(n.ops@, 0, Op::Input)
    &&& is_sps(n.ops@, 0, n.sps)
    &&& n.blocks@.len() == 0
    &&& is_head(
        n.ops@,
        n.sps.out,
        Some(0),
        false,
        Seq::empty(),
        (Relaxation { ssa: false, mlp: false }),
        n.head,
    )
}

/// A linear probe.
pub fn probe() -> (n: Network)
    ensures
        is_probe(n),
        n.head.out + 1 == n.ops@.len(),
{
    let mut ops: Vec<Op> = Vec::new();
    let input: usize = emit(&mut ops, Op::Input);
    let sps: SpsRegs = forward_sps(&mut ops, input);
    let none: Vec<usize> = Vec::new();
    let hard = Relaxation { ssa: false, mlp: false };
    let head: HeadRegs = emit_head(&mut ops, sps.out, Some(0), false, none.as_slice(), hard);
    assert(none@ =~= Seq::empty());
    Network { ops, sps, blocks: Vec::new(), head }
}

/// The output of a layer: what its convolution, or the classifier, gives.
pub open spec fn layer_register(n: Network, sel: LayerSel) -> usize {
    match sel {
        LayerSel::PeProj(i) => if i == 0 {
            n.sps.c0
        } else if i == 1 {
            n.sps.c1
        } else if i == 2 {
            n.sps.c2
        } else {
            n.sps.c3
        },
        LayerSel::PeRpe => n.sps.rpe,
        LayerSel::Blk { j, which } => {
            let b = n.blocks@[j as int];
            if which == 0 {
                b.ssa.q
            } else if which == 1 {
                b.ssa.k
            } else if which == 2 {
                b.ssa.v
            } else if which == 3 {
                b.ssa.xp
            } else if which == 4 {
                b.mlp.x1c
            } else {
                b.mlp.x2c
            }
        },
        LayerSel::Head => n.head.head,
    }
}

/// The register that holds the output of a layer.
pub fn tap(n: &Network, sel: LayerSel) -> (r: usize)
    requires
        sel matches LayerSel::Blk { j, which } ==> j < n.blocks@.len(),
    ensures
        r == layer_register(*n, sel),
{
    match sel {
        LayerSel::PeProj(i) => {
            if i == 0 {
                n.sps.c0
            } else if i == 1 {
                n.sps.c1
            } else if i == 2 {
                n.sps.c2
            } else {
                n.sps.c3
            }
        }
        LayerSel::PeRpe => n.sps.rpe,
        LayerSel::Blk { j, which } => {
            let b: &BlockRegs = &n.blocks[j];
            if which == 0 {
                b.ssa.q
            } else if which == 1 {
                b.ssa.k
            } else if which == 2 {
                b.ssa.v
            } else if which == 3 {
                b.ssa.xp
            } else if which == 4 {
                b.mlp.x1c
            } else {
                b.mlp.x2c
            }
        }
        LayerSel::Head => n.head.head,
    }
}

/// Hard spikes everywhere.
pub open spec fn all_hard() -> Relaxation {
    Relaxation { ssa: false, mlp: false }
}

/// The whole forward pass with the weights as they are and hard spikes, modulated at the given
/// sites.
pub fn forward_full(depths: usize, mods: &[usize]) -> (n: Network)
    requires
        6 * depths + 6 <= usize::MAX,
    ensures
        is_network(n, depths as int, Proj::Plain, mods@, all_hard()),
        n.head.out + 1 == n.ops@.len(),
{
    network(depths, Proj::Plain, mods, Relaxation { ssa: false, mlp: false })
}

/// A forward pass with the registers of its layers, in forward order.
pub struct LayerTaps {
    pub net: Network,
    pub regs: Vec<(LayerSel, usize)>,
}

/// The forward pass with the output of every layer.
pub fn forward_taps(depths: usize) -> (r: LayerTaps)
    requires
        weights::num_layers(depths as int) <= usize::MAX,
    ensures
        is_network(r.net, depths as int, Proj::Plain, Seq::empty(), all_hard()),
        r.regs@.len() == weights::num_layers(depths as int),
        forall|l: int|
            0 <= l < r.regs@.len() ==> #[trigger] r.regs@[l] == (
                weights::layer_at(depths as int, l),
                layer_register(r.net, weights::layer_at(depths as int, l)),
            ),
{
    let none: Vec<usize> = Vec::new();
    assert(none@ =~= Seq::empty());
    let net = forward_full(depths, none.as_slice());
    let list = layer_list(depths);
    let mut regs: Vec<(LayerSel, usize)> = Vec::new();
    let mut l: usize = 0;
    while l < list.len()
        invariant
            l <= list@.len(),
            list@.len() == weights::num_layers(depths as int),
            forall|k: int|
                0 <= k < list@.len() ==> #[trigger] list@[k] == weights::layer_at(depths as int, k),
            net.blocks@.len() == depths,
            regs@.len() == l,
            forall|k: int|
                0 <= k < l ==> #[trigger] regs@[k] == (
                    weights::layer_at(depths as int, k),
                    layer_register(net, weights::layer_at(depths as int, k)),
                ),
        decreases list@.len() - l,
    {
        let sel: LayerSel = list[l];
        regs.push((sel, tap(&net, sel)));
        l += 1;
    }
    LayerTaps { net, regs }
}

/// The register of a layer holds what the layer's own weights give, in a plain network.
pub proof fn taps_are_layer_outputs(
    n: Network,
    depths: int,
    mods: Seq<usize>,
    relax: Relaxation,
    sel: LayerSel,
)
    requires
        is_network(n, depths, Proj::Plain, mods, relax),
        sel matches LayerSel::PeProj(i) ==> i < 4,
        sel matches LayerSel::Blk { j, which } ==> j < depths && which < 6,
    ensures
        layer_register(n, sel) < n.ops@.len(),
        sel is Head ==> n.ops@[layer_register(n, sel) as int] is Head,
        !(sel is Head) ==> n.ops@[layer_register(n, sel) as int] is Conv
            && n.ops@[layer_register(n, sel) as int]->layer == sel,
{
    reveal(blocks_made);
    match sel {
        LayerSel::Blk { j, which } => {
            let b = n.blocks@[j as int];
            assert(j as int as usize == j);
            assert(which == 0 || which == 1 || which == 2 || which == 3 || which == 4 || which == 5);
        },
        _ => {},
    }
}

/// Registers of the fully connected network.
pub struct FcNetwork {
    pub ops: Vec<Op>,
    pub flat: usize,
    /// Currents of the three layers.
    pub l1: usize,
    pub l2: usize,
    pub l3: usize,
    /// Spikes of the first two.
    pub s1: usize,
    pub s2: usize,
    pub out: usize,
}

/// Whether register `r` holds low-threshold spikes of register `x`, modulated if the site is.
pub open spec fn low_spiked(
    ops: Seq<Op>,
    r: usize,
    x: usize,
    site: usize,
    mods: Seq<usize>,
    relaxed: bool,
) -> bool {
    exists|y: usize| #[trigger] modulated(ops, y, x, site, mods) && y < r && at(
        ops,
        r,
        Op::Spike { x: y, own: None, level: Level::Low, relaxed },
    )
}

/// The fully connected network: three layers, the first two with spikes, and a mean over time.
pub open spec fn is_fc(n: FcNetwork, mods: Seq<usize>, relaxed: bool) -> bool {
    let ops = n.ops@;
    &&& at(ops, 0, Op::Input)
    &&& 0 < n.flat && at(ops, n.flat, Op::Flatten { x: 0 })
    &&& n.flat < n.l1 && at(ops, n.l1, Op::Linear { x: n.flat, slot: 0 })
    &&& low_spiked(ops, n.s1, n.l1, 0, mods, relaxed)
    &&& n.s1 < n.l2 && at(ops, n.l2, Op::Linear { x: n.s1, slot: 1 })
    &&& low_spiked(ops, n.s2, n.l2, 1, mods, relaxed)
    &&& n.s2 < n.l3 && at(ops, n.l3, Op::Linear { x: n.s2, slot: 2 })
    &&& n.l3 < n.out && at(ops, n.out, Op::TimeMean { x: n.l3 })
}

/// Appends low-threshold spikes.
fn emit_low_spikes(
    ops: &mut Vec<Op>,
    x: usize,
    site: usize,
    mods: &[usize],
    relaxed: bool,
) -> (r: usize)
    requires
        x < old(ops)@.len(),
    ensures
        extends(old(ops)@, final(ops)@),
        old(ops)@.len() <= r < final(ops)@.len(),
        low_spiked(final(ops)@, r, x, site, mods@, relaxed),
{
    let y: usize = if has_site(mods, site) {
        emit(ops, Op::Modulated { x, site })
    } else {
        x
    };
    let r: usize = emit(ops, Op::Spike { x: y, own: None, level: Level::Low, relaxed });
    assert(modulated(ops@, y, x, site, mods@));
    r
}

/// Low-threshold spikes stay where they are when operations are appended.
proof fn low_spiked_stays(
    a: Seq<Op>,
    b: Seq<Op>,
    r: usize,
    x: usize,
    site: usize,
    mods: Seq<usize>,
    relaxed: bool,
)
    requires
        extends(a, b),
        low_spiked(a, r, x, site, mods, relaxed),
    ensures
        low_spiked(b, r, x, site, mods, relaxed),
{
    let y = choose|y: usize| #[trigger] modulated(a, y, x, site, mods) && y < r && at(
        a,
        r,
        Op::Spike { x: y, own: None, level: Level::Low, relaxed },
    );
    assert(modulated(b, y, x, site, mods));
}

/// The fully connected network.
pub fn fc_network(mods: &[usize], relaxed: bool) -> (n: FcNetwork)
    ensures
        is_fc(n, mods@, relaxed),
        n.out + 1 == n.ops@.len(),
{
    let mut ops: Vec<Op> = Vec::new();
    let input: usize = emit(&mut ops, Op::Input);
    let flat: usize = emit(&mut ops, Op::Flatten { x: input });
    let l1: usize = emit(&mut ops, Op::Linear { x: flat, slot: 0 });
    let s1: usize = emit_low_spikes(&mut ops, l1, 0, mods, relaxed);
    let ghost o1 = ops@;
    let l2: usize = emit(&mut ops, Op::Linear { x: s1, slot: 1 });
    let s2: usize = emit_low_spikes(&mut ops, l2, 1, mods, relaxed);
    let ghost o2 = ops@;
    let l3: usize = emit(&mut ops, Op::Linear { x: s2, slot: 2 });
    let out: usize = emit(&mut ops, Op::TimeMean { x: l3 });
    proof {
        low_spiked_stays(o1, ops@, s1, l1, 0, mods@, relaxed);
        low_spiked_stays(o2, ops@, s2, l2, 1, mods@, relaxed);
    }
    FcNetwork { ops, flat, l1, l2, l3, s1, s2, out }
}

/// Noise is taken from the slot of the projection it belongs to, and the head's from the head's.
pub proof fn noise_slots_match(dims: ShapeTree, depths: int, j: int, which: int, mods: Seq<usize>, vth: Seq<usize>)
    requires
        0 <= j < depths,
        0 <= which < 6,
        6 * depths + 6 <= usize::MAX,
    ensures
        ({
            let slot = (6 * j + which) as usize as int;
            let head = head_slot(Proj::Noisy, depths)->0 as int;
            let lora = factored::lora_list(dims, depths, Blocks::Conv);
            let dense = factored::dense_list(dims, depths, Blocks::Conv, mods, vth);
            &&& lora[slot].loc == FLoc::BlkW(j as usize, which as usize)
            &&& dense[slot].loc == FLoc::BlkB(j as usize, which as usize)
            &&& lora[head].loc == FLoc::HeadW
            &&& dense[head].loc == FLoc::HeadB
        }),
{
    let slot = 6 * j + which;
    let lora = factored::lora_list(dims, depths, Blocks::Conv);
    let dense = factored::dense_list(dims, depths, Blocks::Conv, mods, vth);
    assert(slot / 6 == j && slot % 6 == which);
    assert(lora[slot] == factored::lora_slot(dims, depths, Blocks::Conv, slot));
    assert(dense[slot] == factored::dense_slot(dims, depths, Blocks::Conv, mods, vth, slot));
    assert(lora[6 * depths] == factored::lora_slot(dims, depths, Blocks::Conv, 6 * depths));
    assert(dense[6 * depths] == factored::dense_slot(
        dims,
        depths,
        Blocks::Conv,
        mods,
        vth,
        6 * depths,
    ));
}

} // verus!
