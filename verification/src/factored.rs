//! Slots of the factored estimator: block convolutions, head, modulation and thresholds.
//!
//! Weights take low-rank noise and stand in the `lora` list; everything else takes dense
//! noise and stands in the `dense` list. The parameter list holds `lora`, then `dense`.

use crate::slots;
use crate::slots::{OrigShape, ShapeTree, KEY_MUL};
use crate::weights;
use crate::weights::F_WHICH;
use vstd::prelude::*;

verus! {

/// What stands between the patch embedding and the classifier.
#[derive(Clone, Copy, Debug, PartialEq, Eq, Structural)]
pub enum Blocks {
    /// Six convolutions in each block.
    Conv,
    /// Identity in place of every convolution.
    Identity,
    /// No blocks and no spikes: a linear probe on pooled features.
    Probe,
    /// A plain fully connected spiking network without patch embedding.
    Fc,
}

/// The tensor that a slot stands for.
#[derive(Clone, Copy, Debug, PartialEq, Eq, Structural)]
pub enum FLoc {
    /// Weight of convolution `.1` of block `.0`.
    BlkW(usize, usize),
    /// Bias of convolution `.1` of block `.0`.
    BlkB(usize, usize),
    HeadW,
    HeadB,
    /// Modulation at site `.0`: amplitude for `.1 == 0`, phase for `.1 == 1`.
    Qam(usize, u8),
    /// Firing threshold at a site.
    Vth(usize),
    /// Weight of a fully connected layer.
    FcW(usize),
    /// Bias of a fully connected layer.
    FcB(usize),
}

/// One slot of the factored estimator.
#[derive(Clone, Copy, Debug)]
pub struct FSlotSpec {
    pub loc: FLoc,
    /// Noise key.
    pub key: u64,
    pub shape: OrigShape,
}

/// Hidden width of the fully connected network.
pub const FC_HIDE: usize = 128;

/// Input width of the fully connected network: one flattened image.
pub const FC_IN: usize = 3072;

/// Classes of the fully connected network.
pub const FC_OUT: usize = 10;

/// Number of modulation sites.
pub const QAM_SITES: usize = 8;

/// Neurons at a modulation site: the hidden MLP layer at site 6, the embedding elsewhere.
pub open spec fn qam_site_n(site: int) -> int {
    if site == 6 {
        1024
    } else {
        256
    }
}

/// Neurons at a modulation site.
pub fn qam_site_neurons(site: usize) -> (n: usize)
    ensures
        n == qam_site_n(site as int),
{
    if site == 6 {
        1024
    } else {
        256
    }
}

/// Slot `i` of the `lora` list.
pub open spec fn lora_slot(dims: ShapeTree, depths: int, blocks: Blocks, i: int) -> FSlotSpec {
    match blocks {
        Blocks::Fc => FSlotSpec {
            loc: FLoc::FcW(i as usize),
            key: slots::slot_key(i),
            shape: OrigShape::W2(
                if i == 0 {
                    [FC_HIDE, FC_IN]
                } else if i == 1 {
                    [FC_HIDE, FC_HIDE]
                } else {
                    [FC_OUT, FC_HIDE]
                },
            ),
        },
        Blocks::Conv => if i < 6 * depths {
            FSlotSpec {
                loc: FLoc::BlkW((i / 6) as usize, (i % 6) as usize),
                key: slots::slot_key(2 * i),
                shape: OrigShape::W4(dims.blk@[i / 6].conv(i % 6).w),
            }
        } else {
            FSlotSpec {
                loc: FLoc::HeadW,
                key: slots::slot_key(2 * i),
                shape: OrigShape::W2(dims.head_w),
            }
        },
        _ => FSlotSpec {
            loc: FLoc::HeadW,
            key: slots::slot_key(0),
            shape: OrigShape::W2(dims.head_w),
        },
    }
}

/// Length of the `lora` list.
pub open spec fn lora_len(depths: int, blocks: Blocks) -> int {
    match blocks {
        Blocks::Fc => 3,
        Blocks::Conv => 6 * depths + 1,
        _ => 1,
    }
}

/// Number of true biases at the head of the `dense` list: one for each `lora` slot.
pub open spec fn bias_len(depths: int, blocks: Blocks) -> int {
    lora_len(depths, blocks)
}

/// Number of modulation slots.
pub open spec fn qam_len(blocks: Blocks, qam_sites: Seq<usize>) -> int {
    if blocks is Probe {
        0
    } else {
        2 * qam_sites.len() as int
    }
}

/// Number of threshold slots.
pub open spec fn vth_len(blocks: Blocks, vth_sites: Seq<usize>) -> int {
    if blocks is Conv {
        vth_sites.len() as int
    } else {
        0
    }
}

/// Length of the `dense` list.
pub open spec fn dense_len(
    depths: int,
    blocks: Blocks,
    qam_sites: Seq<usize>,
    vth_sites: Seq<usize>,
) -> int {
    bias_len(depths, blocks) + qam_len(blocks, qam_sites) + vth_len(blocks, vth_sites)
}

/// Number of neurons modulated at a site.
pub open spec fn qam_width(blocks: Blocks, site: int) -> int {
    if blocks is Fc {
        FC_HIDE as int
    } else {
        qam_site_n(site)
    }
}

/// Slot `i` among the true biases.
pub open spec fn bias_slot(dims: ShapeTree, depths: int, blocks: Blocks, i: int) -> FSlotSpec {
    match blocks {
        Blocks::Fc => FSlotSpec {
            loc: FLoc::FcB(i as usize),
            key: slots::slot_key(3 + i),
            shape: OrigShape::B1(
                if i == 2 {
                    FC_OUT
                } else {
                    FC_HIDE
                },
            ),
        },
        Blocks::Conv => if i < 6 * depths {
            FSlotSpec {
                loc: FLoc::BlkB((i / 6) as usize, (i % 6) as usize),
                key: slots::slot_key(2 * i + 1),
                shape: OrigShape::B1(dims.blk@[i / 6].conv(i % 6).b),
            }
        } else {
            FSlotSpec {
                loc: FLoc::HeadB,
                key: slots::slot_key(2 * i + 1),
                shape: OrigShape::B1(dims.head_b),
            }
        },
        _ => FSlotSpec {
            loc: FLoc::HeadB,
            key: slots::slot_key(1),
            shape: OrigShape::B1(dims.head_b),
        },
    }
}

/// Slot `i` of the `dense` list: biases, then modulation by site, then thresholds.
pub open spec fn dense_slot(
    dims: ShapeTree,
    depths: int,
    blocks: Blocks,
    qam_sites: Seq<usize>,
    vth_sites: Seq<usize>,
    i: int,
) -> FSlotSpec {
    let nb = bias_len(depths, blocks);
    let nq = qam_len(blocks, qam_sites);
    if i < nb {
        bias_slot(dims, depths, blocks, i)
    } else if i < nb + nq {
        let site = qam_sites[(i - nb) / 2];
        FSlotSpec {
            loc: FLoc::Qam(site, ((i - nb) % 2) as u8),
            key: slots::slot_key(nb + i),
            shape: OrigShape::B1(qam_width(blocks, site as int) as usize),
        }
    } else {
        FSlotSpec {
            loc: FLoc::Vth(vth_sites[i - nb - nq]),
            key: slots::slot_key(nb + i),
            shape: OrigShape::B1(1),
        }
    }
}

/// The whole `lora` list.
pub open spec fn lora_list(dims: ShapeTree, depths: int, blocks: Blocks) -> Seq<FSlotSpec> {
    Seq::new(lora_len(depths, blocks) as nat, |i: int| lora_slot(dims, depths, blocks, i))
}

/// The whole `dense` list.
pub open spec fn dense_list(
    dims: ShapeTree,
    depths: int,
    blocks: Blocks,
    qam_sites: Seq<usize>,
    vth_sites: Seq<usize>,
) -> Seq<FSlotSpec> {
    Seq::new(
        dense_len(depths, blocks, qam_sites, vth_sites) as nat,
        |i: int| dense_slot(dims, depths, blocks, qam_sites, vth_sites, i),
    )
}

/// Slot with number `i` in the key order.
fn new_slot(loc: FLoc, i: usize, shape: OrigShape) -> (s: FSlotSpec)
    requires
        i < usize::MAX,
    ensures
        s == (FSlotSpec { loc, key: slots::slot_key(i as int), shape }),
{
    FSlotSpec { loc, key: (i as u64 + 1).wrapping_mul(KEY_MUL), shape }
}

/// Appends the two modulation slots of each site.
fn push_qam(dense: &mut Vec<FSlotSpec>, blocks: Blocks, qam_sites: &[usize], nb: usize)
    requires
        old(dense)@.len() == nb,
        2 * nb + 2 * qam_sites@.len() < usize::MAX,
    ensures
        final(dense)@.len() == nb + 2 * qam_sites@.len(),
        forall|i: int| 0 <= i < nb ==> final(dense)@[i] == old(dense)@[i],
        forall|i: int|
            nb <= i < final(dense)@.len() ==> #[trigger] final(dense)@[i] == (FSlotSpec {
                loc: FLoc::Qam(qam_sites@[(i - nb) / 2], ((i - nb) % 2) as u8),
                key: slots::slot_key(nb + i),
                shape: OrigShape::B1(qam_width(blocks, qam_sites@[(i - nb) / 2] as int) as usize),
            }),
{
    let mut k: usize = 0;
    while k < qam_sites.len()
        invariant
            k <= qam_sites@.len(),
            2 * nb + 2 * qam_sites@.len() < usize::MAX,
            dense@.len() == nb + 2 * k,
            forall|i: int| 0 <= i < nb ==> dense@[i] == old(dense)@[i],
            forall|i: int|
                nb <= i < dense@.len() ==> #[trigger] dense@[i] == (FSlotSpec {
                    loc: FLoc::Qam(qam_sites@[(i - nb) / 2], ((i - nb) % 2) as u8),
                    key: slots::slot_key(nb + i),
                    shape: OrigShape::B1(
                        qam_width(blocks, qam_sites@[(i - nb) / 2] as int) as usize,
                    ),
                }),
        decreases qam_sites@.len() - k,
    {
        let site: usize = qam_sites[k];
        let n: usize = match blocks {
            Blocks::Fc => FC_HIDE,
            _ => qam_site_neurons(site),
        };
        dense.push(new_slot(FLoc::Qam(site, 0), 2 * nb + 2 * k, OrigShape::B1(n)));
        dense.push(new_slot(FLoc::Qam(site, 1), 2 * nb + 2 * k + 1, OrigShape::B1(n)));
        k += 1;
    }
}

/// The slots of a network: `lora` and `dense` lists.
///
/// `qam_sites` are the modulated sites and `vth_sites` those with a trainable threshold;
/// only convolution blocks have thresholds, and a probe has no modulation.
pub fn factored_slots(
    base: &ShapeTree,
    depths: usize,
    qam_sites: &[usize],
    vth_sites: &[usize],
    blocks: Blocks,
) -> (r: (Vec<FSlotSpec>, Vec<FSlotSpec>))
    requires
        blocks is Conv ==> depths <= base.blk@.len(),
        12 * depths + 16 + 2 * qam_sites@.len() + vth_sites@.len() <= usize::MAX,
        !(blocks is Fc) ==> forall|k: int|
            0 <= k < qam_sites@.len() ==> #[trigger] qam_sites@[k] < QAM_SITES,
    ensures
        r.0@ == lora_list(*base, depths as int, blocks),
        r.1@ == dense_list(*base, depths as int, blocks, qam_sites@, vth_sites@),
{
    let mut lora: Vec<FSlotSpec> = Vec::new();
    let mut dense: Vec<FSlotSpec> = Vec::new();
    match blocks {
        Blocks::Fc => {
            lora.push(new_slot(FLoc::FcW(0), 0, OrigShape::W2([FC_HIDE, FC_IN])));
            lora.push(new_slot(FLoc::FcW(1), 1, OrigShape::W2([FC_HIDE, FC_HIDE])));
            lora.push(new_slot(FLoc::FcW(2), 2, OrigShape::W2([FC_OUT, FC_HIDE])));
            dense.push(new_slot(FLoc::FcB(0), 3, OrigShape::B1(FC_HIDE)));
            dense.push(new_slot(FLoc::FcB(1), 4, OrigShape::B1(FC_HIDE)));
            dense.push(new_slot(FLoc::FcB(2), 5, OrigShape::B1(FC_OUT)));
            push_qam(&mut dense, blocks, qam_sites, 3);
        },
        Blocks::Identity | Blocks::Probe => {
            lora.push(new_slot(FLoc::HeadW, 0, OrigShape::W2(base.head_w)));
            dense.push(new_slot(FLoc::HeadB, 1, OrigShape::B1(base.head_b)));
            match blocks {
                Blocks::Identity => {
                    push_qam(&mut dense, blocks, qam_sites, 1);
                },
                _ => {},
            }
        },
        Blocks::Conv => {
            let n: usize = 6 * depths;
            let mut i: usize = 0;
            while i < n
                invariant
                    i <= n,
                    n == 6 * depths,
                    depths <= base.blk@.len(),
                    12 * depths + 16 <= usize::MAX,
                    lora@.len() == i,
                    dense@.len() == i,
                    forall|k: int|
                        0 <= k < i ==> #[trigger] lora@[k] == lora_slot(
                            *base,
                            depths as int,
                            Blocks::Conv,
                            k,
                        ),
                    forall|k: int|
                        0 <= k < i ==> #[trigger] dense@[k] == bias_slot(
                            *base,
                            depths as int,
                            Blocks::Conv,
                            k,
                        ),
                decreases n - i,
            {
                let j: usize = i / F_WHICH;
                let which: usize = i % F_WHICH;
                let w: [usize; 4] = *weights::floc_get4(base, j, which);
                let b: usize = *weights::floc_get1(base, j, which);
                lora.push(new_slot(FLoc::BlkW(j, which), 2 * i, OrigShape::W4(w)));
                dense.push(new_slot(FLoc::BlkB(j, which), 2 * i + 1, OrigShape::B1(b)));
                i += 1;
            }
            lora.push(new_slot(FLoc::HeadW, 2 * n, OrigShape::W2(base.head_w)));
            dense.push(new_slot(FLoc::HeadB, 2 * n + 1, OrigShape::B1(base.head_b)));
            push_qam(&mut dense, blocks, qam_sites, n + 1);
            let nb: usize = n + 1;
            let nq: usize = 2 * qam_sites.len();
            let mut k: usize = 0;
            while k < vth_sites.len()
                invariant
                    k <= vth_sites@.len(),
                    nb == 6 * depths + 1,
                    nq == 2 * qam_sites@.len(),
                    12 * depths + 16 + 2 * qam_sites@.len() + vth_sites@.len() <= usize::MAX,
                    dense@.len() == nb + nq + k,
                    forall|i: int|
                        0 <= i < dense@.len() ==> #[trigger] dense@[i] == dense_slot(
                            *base,
                            depths as int,
                            Blocks::Conv,
                            qam_sites@,
                            vth_sites@,
                            i,
                        ),
                decreases vth_sites@.len() - k,
            {
                dense.push(
                    new_slot(FLoc::Vth(vth_sites[k]), 2 * nb + nq + k, OrigShape::B1(1)),
                );
                k += 1;
            }
        },
    }
    assert(lora@ =~= lora_list(*base, depths as int, blocks));
    assert(dense@ =~= dense_list(*base, depths as int, blocks, qam_sites@, vth_sites@));
    (lora, dense)
}

/// The positions among the first `n` that hold `c`, in order.
pub open spec fn positions_of(counts: Seq<usize>, n: int, c: usize) -> Seq<usize>
    decreases n,
{
    if n <= 0 {
        Seq::empty()
    } else if counts[n - 1] == c {
        positions_of(counts, n - 1, c).push((n - 1) as usize)
    } else {
        positions_of(counts, n - 1, c)
    }
}

/// The different values among the first `n`, by first occurrence.
pub open spec fn first_seen(counts: Seq<usize>, n: int) -> Seq<usize>
    decreases n,
{
    if n <= 0 {
        Seq::empty()
    } else if first_seen(counts, n - 1).contains(counts[n - 1]) {
        first_seen(counts, n - 1)
    } else {
        first_seen(counts, n - 1).push(counts[n - 1])
    }
}

/// The groups of equal counts among the first `n` slots.
pub open spec fn is_grouping(counts: Seq<usize>, n: int, groups: Seq<(usize, Vec<usize>)>) -> bool {
    &&& groups.len() == first_seen(counts, n).len()
    &&& forall|g: int|
        0 <= g < groups.len() ==> {
            &&& (#[trigger] groups[g]).0 == first_seen(counts, n)[g]
            &&& groups[g].1@ == positions_of(counts, n, groups[g].0)
        }
}

/// A value that was never seen has no positions, and seen values differ from each other.
proof fn first_seen_facts(counts: Seq<usize>, n: int)
    requires
        0 <= n <= counts.len(),
    ensures
        forall|c: usize|
            !(#[trigger] first_seen(counts, n).contains(c)) ==> positions_of(counts, n, c)
                == Seq::<usize>::empty(),
        forall|a: int, b: int|
            0 <= a < b < first_seen(counts, n).len() ==> first_seen(counts, n)[a]
                != first_seen(counts, n)[b],
    decreases n,
{
    if n > 0 {
        first_seen_facts(counts, n - 1);
        let prev = first_seen(counts, n - 1);
        let c = counts[n - 1];
        if !prev.contains(c) {
            let now = prev.push(c);
            assert forall|x: usize| !(#[trigger] now.contains(x)) implies positions_of(counts, n, x)
                == Seq::<usize>::empty() by {
                assert(now[prev.len() as int] == c);
                if prev.contains(x) {
                    let k = choose|k: int| 0 <= k < prev.len() && prev[k] == x;
                    assert(now[k] == x);
                }
            }
        }
    }
}

/// Groups equal counts: each group with its slots in order, groups by first occurrence.
fn group_counts(counts: &Vec<usize>) -> (groups: Vec<(usize, Vec<usize>)>)
    ensures
        is_grouping(counts@, counts@.len() as int, groups@),
{
    let mut groups: Vec<(usize, Vec<usize>)> = Vec::new();
    let mut i: usize = 0;
    while i < counts.len()
        invariant
            i <= counts@.len(),
            is_grouping(counts@, i as int, groups@),
        decreases counts@.len() - i,
    {
        let c: usize = counts[i];
        let mut g: usize = 0;
        while g < groups.len() && groups[g].0 != c
            invariant
                g <= groups@.len(),
                forall|k: int| 0 <= k < g ==> (#[trigger] groups@[k]).0 != c,
            decreases groups@.len() - g,
        {
            g += 1;
        }
        let ghost before = groups@;
        let ghost seen = first_seen(counts@, i as int);
        proof {
            first_seen_facts(counts@, i as int);
        }
        if g < groups.len() {
            assert(seen[g as int] == c);
            let e = &mut groups[g];
            e.1.push(i);
            proof {
                assert forall|k: int| 0 <= k < groups@.len() implies (#[trigger] groups@[k]).0
                    == first_seen(counts@, i + 1)[k] && groups@[k].1@ == positions_of(
                    counts@,
                    i + 1,
                    groups@[k].0,
                ) by {
                    assert(before[k].0 == seen[k]);
                    if k != g {
                        assert(groups@[k] == before[k]);
                    }
                }
            }
        } else {
            proof {
                if seen.contains(c) {
                    let k = choose|k: int| 0 <= k < seen.len() && seen[k] == c;
                    assert(before[k].0 == c);
                }
            }
            let mut own: Vec<usize> = Vec::new();
            own.push(i);
            groups.push((c, own));
            proof {
                assert forall|k: int| 0 <= k < groups@.len() implies (#[trigger] groups@[k]).0
                    == first_seen(counts@, i + 1)[k] && groups@[k].1@ == positions_of(
                    counts@,
                    i + 1,
                    groups@[k].0,
                ) by {
                    if k < before.len() {
                        assert(before[k].0 == seen[k]);
                        assert(groups@[k] == before[k]);
                        assert(before[k].0 != c);
                    } else {
                        assert(own@ =~= Seq::<usize>::empty().push(i));
                    }
                }
            }
        }
        i += 1;
    }
    groups
}

/// Normals that one candidate draws for a `lora` slot: `rank` for each row and column.
pub open spec fn lora_count(slot: FSlotSpec, rank: int) -> int {
    (slot.shape.rows() + slot.shape.cols()) * rank
}

/// Groups `lora` slots by the number of normals that each draws, in slot order.
pub fn lora_groupby_count(lora_slots: &[FSlotSpec], rank: usize) -> (groups: Vec<
    (usize, Vec<usize>),
>)
    requires
        forall|i: int|
            0 <= i < lora_slots@.len() ==> {
                let s = #[trigger] lora_slots@[i];
                &&& s.shape.fits()
                &&& s.shape.rows() + s.shape.cols() <= usize::MAX
                &&& lora_count(s, rank as int) <= usize::MAX
            },
    ensures
        is_grouping(
            lora_slots@.map_values(|s: FSlotSpec| lora_count(s, rank as int) as usize),
            lora_slots@.len() as int,
            groups@,
        ),
{
    let ghost want = lora_slots@.map_values(|s: FSlotSpec| lora_count(s, rank as int) as usize);
    let mut counts: Vec<usize> = Vec::new();
    let mut i: usize = 0;
    while i < lora_slots.len()
        invariant
            i <= lora_slots@.len(),
            want == lora_slots@.map_values(
                |s: FSlotSpec| lora_count(s, rank as int) as usize,
            ),
            forall|i: int|
                0 <= i < lora_slots@.len() ==> {
                    let s = #[trigger] lora_slots@[i];
                    &&& s.shape.fits()
                    &&& s.shape.rows() + s.shape.cols() <= usize::MAX
                    &&& lora_count(s, rank as int) <= usize::MAX
                },
            counts@ == want.take(i as int),
        decreases lora_slots@.len() - i,
    {
        let f = lora_slots[i].shape.flat2d();
        let a: usize = f[0];
        let b: usize = f[1];
        assert(lora_count(lora_slots@[i as int], rank as int) <= usize::MAX);
        counts.push((a + b) * rank);
        assert(counts@ =~= want.take(i + 1));
        i += 1;
    }
    assert(counts@ =~= want);
    group_counts(&counts)
}

/// Groups `dense` slots by their number of elements, in slot order.
pub fn dense_groupby_count(dense_slots: &[FSlotSpec]) -> (groups: Vec<(usize, Vec<usize>)>)
    requires
        forall|i: int| 0 <= i < dense_slots@.len() ==> (#[trigger] dense_slots@[i]).shape.fits(),
    ensures
        is_grouping(
            dense_slots@.map_values(|s: FSlotSpec| s.shape.numel() as usize),
            dense_slots@.len() as int,
            groups@,
        ),
{
    let ghost want = dense_slots@.map_values(|s: FSlotSpec| s.shape.numel() as usize);
    let mut counts: Vec<usize> = Vec::new();
    let mut i: usize = 0;
    while i < dense_slots.len()
        invariant
            i <= dense_slots@.len(),
            want == dense_slots@.map_values(|s: FSlotSpec| s.shape.numel() as usize),
            forall|i: int|
                0 <= i < dense_slots@.len() ==> (#[trigger] dense_slots@[i]).shape.fits(),
            counts@ == want.take(i as int),
        decreases dense_slots@.len() - i,
    {
        assert(dense_slots@[i as int].shape.fits());
        counts.push(dense_slots[i].shape.count());
        assert(counts@ =~= want.take(i + 1));
        i += 1;
    }
    assert(counts@ =~= want);
    group_counts(&counts)
}

/// Number of `key` order of slot `i` of the parameter list.
spec fn key_number(depths: int, blocks: Blocks, i: int) -> int {
    let nl = lora_len(depths, blocks);
    let nb = bias_len(depths, blocks);
    if i < nl {
        if blocks is Conv {
            2 * i
        } else {
            i
        }
    } else if i < nl + nb {
        if blocks is Conv {
            2 * (i - nl) + 1
        } else {
            nl + (i - nl)
        }
    } else {
        nb + (i - nl)
    }
}

/// No two slots of the factored estimator share a noise key.
pub proof fn factored_keys_distinct(
    dims: ShapeTree,
    depths: int,
    blocks: Blocks,
    qam_sites: Seq<usize>,
    vth_sites: Seq<usize>,
    i: int,
    j: int,
)
    requires
        0 <= depths,
        12 * depths + 16 + 2 * qam_sites.len() + vth_sites.len() <= usize::MAX,
        0 <= i < j < lora_len(depths, blocks) + dense_len(depths, blocks, qam_sites, vth_sites),
    ensures
        ({
            let all = lora_list(dims, depths, blocks) + dense_list(
                dims,
                depths,
                blocks,
                qam_sites,
                vth_sites,
            );
            all[i].key != all[j].key
        }),
{
    let all = lora_list(dims, depths, blocks) + dense_list(
        dims,
        depths,
        blocks,
        qam_sites,
        vth_sites,
    );
    assert(all[i].key == slots::slot_key(key_number(depths, blocks, i)));
    assert(all[j].key == slots::slot_key(key_number(depths, blocks, j)));
    if all[i].key == all[j].key {
        slots::slot_keys_distinct(key_number(depths, blocks, i), key_number(depths, blocks, j));
    }
}

/// The slots of convolution blocks in full: of every projection a weight in the first list and a
/// bias at the same place of the second, then the classifier, then amplitude and phase of each
/// modulated site and the thresholds. A weight is followed by its bias in the order of keys.
pub proof fn conv_slots_in_full(
    dims: ShapeTree,
    depths: int,
    qam: Seq<usize>,
    vth: Seq<usize>,
    j: int,
    s: int,
    t: int,
)
    requires
        0 <= j < depths <= dims.blk@.len(),
        0 <= s < qam.len(),
        0 <= t < vth.len(),
        12 * depths + 16 + 2 * qam.len() + vth.len() <= usize::MAX,
    ensures
        ({
            let lora = lora_list(dims, depths, Blocks::Conv);
            let dense = dense_list(dims, depths, Blocks::Conv, qam, vth);
            let nb = 6 * depths + 1;
            let weight = |k: int, which: usize, w: [usize; 4]|
                lora[k] == (FSlotSpec {
                    loc: FLoc::BlkW(j as usize, which),
                    key: slots::slot_key(2 * k),
                    shape: OrigShape::W4(w),
                });
            let bias = |k: int, which: usize, n: usize|
                dense[k] == (FSlotSpec {
                    loc: FLoc::BlkB(j as usize, which),
                    key: slots::slot_key(2 * k + 1),
                    shape: OrigShape::B1(n),
                });
            let b = dims.blk@[j];
            &&& weight(6 * j, 0, b.q.w) && bias(6 * j, 0, b.q.b)
            &&& weight(6 * j + 1, 1, b.k.w) && bias(6 * j + 1, 1, b.k.b)
            &&& weight(6 * j + 2, 2, b.v.w) && bias(6 * j + 2, 2, b.v.b)
            &&& weight(6 * j + 3, 3, b.proj.w) && bias(6 * j + 3, 3, b.proj.b)
            &&& weight(6 * j + 4, 4, b.fc1.w) && bias(6 * j + 4, 4, b.fc1.b)
            &&& weight(6 * j + 5, 5, b.fc2.w) && bias(6 * j + 5, 5, b.fc2.b)
            &&& lora[nb - 1] == (FSlotSpec {
                loc: FLoc::HeadW,
                key: slots::slot_key(2 * nb - 2),
                shape: OrigShape::W2(dims.head_w),
            })
            &&& dense[nb - 1] == (FSlotSpec {
                loc: FLoc::HeadB,
                key: slots::slot_key(2 * nb - 1),
                shape: OrigShape::B1(dims.head_b),
            })
            &&& dense[nb + 2 * s] == (FSlotSpec {
                loc: FLoc::Qam(qam[s], 0),
                key: slots::slot_key(2 * nb + 2 * s),
                shape: OrigShape::B1(
                    if qam[s] == 6 {
                        1024
                    } else {
                        256
                    },
                ),
            })
            &&& dense[nb + 2 * s + 1] == (FSlotSpec {
                loc: FLoc::Qam(qam[s], 1),
                key: slots::slot_key(2 * nb + 2 * s + 1),
                shape: dense[nb + 2 * s].shape,
            })
            &&& dense[nb + 2 * qam.len() + t] == (FSlotSpec {
                loc: FLoc::Vth(vth[t]),
                key: slots::slot_key(2 * nb + 2 * qam.len() + t),
                shape: OrigShape::B1(1),
            })
            &&& lora.len() == nb
            &&& dense.len() == nb + 2 * qam.len() + vth.len()
        }),
{
    conv_slot_place(dims, depths, qam, vth, j, 0);
    conv_slot_place(dims, depths, qam, vth, j, 1);
    conv_slot_place(dims, depths, qam, vth, j, 2);
    conv_slot_place(dims, depths, qam, vth, j, 3);
    conv_slot_place(dims, depths, qam, vth, j, 4);
    conv_slot_place(dims, depths, qam, vth, j, 5);
    conv_tail_place(dims, depths, qam, vth, s, t);
}

/// The slots behind those of the projections.
proof fn conv_tail_place(
    dims: ShapeTree,
    depths: int,
    qam: Seq<usize>,
    vth: Seq<usize>,
    s: int,
    t: int,
)
    requires
        0 <= depths,
        0 <= s < qam.len(),
        0 <= t < vth.len(),
    ensures
        ({
            let lora = lora_list(dims, depths, Blocks::Conv);
            let dense = dense_list(dims, depths, Blocks::Conv, qam, vth);
            let nb = 6 * depths + 1;
            &&& lora[nb - 1] == (FSlotSpec {
                loc: FLoc::HeadW,
                key: slots::slot_key(2 * nb - 2),
                shape: OrigShape::W2(dims.head_w),
            })
            &&& dense[nb - 1] == (FSlotSpec {
                loc: FLoc::HeadB,
                key: slots::slot_key(2 * nb - 1),
                shape: OrigShape::B1(dims.head_b),
            })
            &&& dense[nb + 2 * s] == (FSlotSpec {
                loc: FLoc::Qam(qam[s], 0),
                key: slots::slot_key(2 * nb + 2 * s),
                shape: OrigShape::B1(qam_site_n(qam[s] as int) as usize),
            })
            &&& dense[nb + 2 * s + 1] == (FSlotSpec {
                loc: FLoc::Qam(qam[s], 1),
                key: slots::slot_key(2 * nb + 2 * s + 1),
                shape: OrigShape::B1(qam_site_n(qam[s] as int) as usize),
            })
            &&& dense[nb + 2 * qam.len() + t] == (FSlotSpec {
                loc: FLoc::Vth(vth[t]),
                key: slots::slot_key(2 * nb + 2 * qam.len() + t),
                shape: OrigShape::B1(1),
            })
            &&& lora.len() == nb
            &&& dense.len() == nb + 2 * qam.len() + vth.len()
        }),
{
    let nb = 6 * depths + 1;
    assert((2 * s) / 2 == s && (2 * s) % 2 == 0);
    assert((2 * s + 1) / 2 == s && (2 * s + 1) % 2 == 1);
    let dense = dense_list(dims, depths, Blocks::Conv, qam, vth);
    assert(dense[nb + 2 * s] == dense_slot(dims, depths, Blocks::Conv, qam, vth, nb + 2 * s));
    assert(dense[nb + 2 * s + 1] == dense_slot(
        dims,
        depths,
        Blocks::Conv,
        qam,
        vth,
        nb + 2 * s + 1,
    ));
}

/// The slots of a projection.
proof fn conv_slot_place(
    dims: ShapeTree,
    depths: int,
    qam: Seq<usize>,
    vth: Seq<usize>,
    j: int,
    which: int,
)
    requires
        0 <= j < depths,
        0 <= which < 6,
    ensures
        lora_list(dims, depths, Blocks::Conv)[6 * j + which] == (FSlotSpec {
            loc: FLoc::BlkW(j as usize, which as usize),
            key: slots::slot_key(2 * (6 * j + which)),
            shape: OrigShape::W4(dims.blk@[j].conv(which).w),
        }),
        dense_list(dims, depths, Blocks::Conv, qam, vth)[6 * j + which] == (FSlotSpec {
            loc: FLoc::BlkB(j as usize, which as usize),
            key: slots::slot_key(2 * (6 * j + which) + 1),
            shape: OrigShape::B1(dims.blk@[j].conv(which).b),
        }),
{
    assert((6 * j + which) / 6 == j && (6 * j + which) % 6 == which);
}

/// The slots without convolution blocks in full. A network of identities and a linear probe have
/// the classifier alone, and only the former may be modulated. The fully connected network has
/// three layers, from the flattened image over two hidden ones to the classes, and modulates as
/// many neurons as a hidden layer has.
pub proof fn other_slots_in_full(
    dims: ShapeTree,
    depths: int,
    qam: Seq<usize>,
    vth: Seq<usize>,
    s: int,
)
    requires
        0 <= depths,
        0 <= s < qam.len(),
        2 * qam.len() <= usize::MAX,
    ensures
        ({
            let one = |blocks: Blocks|
                {
                    let lora = lora_list(dims, depths, blocks);
                    let dense = dense_list(dims, depths, blocks, qam, vth);
                    &&& lora.len() == 1
                    &&& lora[0].loc == FLoc::HeadW
                    &&& lora[0].shape == OrigShape::W2(dims.head_w)
                    &&& lora[0].key == slots::slot_key(0)
                    &&& dense[0].loc == FLoc::HeadB
                    &&& dense[0].shape == OrigShape::B1(dims.head_b)
                    &&& dense[0].key == slots::slot_key(1)
                };
            let identity = dense_list(dims, depths, Blocks::Identity, qam, vth);
            &&& one(Blocks::Identity)
            &&& one(Blocks::Probe)
            &&& dense_list(dims, depths, Blocks::Probe, qam, vth).len() == 1
            &&& identity.len() == 1 + 2 * qam.len()
            &&& identity[1 + 2 * s].loc == FLoc::Qam(qam[s], 0)
            &&& identity[2 + 2 * s].loc == FLoc::Qam(qam[s], 1)
            &&& identity[1 + 2 * s].key == slots::slot_key(2 + 2 * s)
            &&& identity[2 + 2 * s].key == slots::slot_key(3 + 2 * s)
            &&& identity[2 + 2 * s].shape == identity[1 + 2 * s].shape
            &&& identity[1 + 2 * s].shape == OrigShape::B1(
                if qam[s] == 6 {
                    1024
                } else {
                    256
                },
            )
        }),
        ({
            let lora = lora_list(dims, depths, Blocks::Fc);
            let dense = dense_list(dims, depths, Blocks::Fc, qam, vth);
            &&& lora.len() == 3
            &&& dense.len() == 3 + 2 * qam.len()
            &&& lora[0].shape == OrigShape::W2([128, 3072])
            &&& lora[1].shape == OrigShape::W2([128, 128])
            &&& lora[2].shape == OrigShape::W2([10, 128])
            &&& dense[0].shape == OrigShape::B1(128)
            &&& dense[1].shape == OrigShape::B1(128)
            &&& dense[2].shape == OrigShape::B1(10)
            &&& forall|k: int|
                0 <= k < 3 ==> (#[trigger] lora[k]).loc == FLoc::FcW(k as usize) && lora[k].key
                    == slots::slot_key(k)
            &&& forall|k: int|
                0 <= k < 3 ==> (#[trigger] dense[k]).loc == FLoc::FcB(k as usize) && dense[k].key
                    == slots::slot_key(3 + k)
            &&& dense[3 + 2 * s].loc == FLoc::Qam(qam[s], 0)
            &&& dense[4 + 2 * s].loc == FLoc::Qam(qam[s], 1)
            &&& dense[3 + 2 * s].shape == OrigShape::B1(128)
            &&& dense[4 + 2 * s].shape == OrigShape::B1(128)
            &&& dense[3 + 2 * s].key == slots::slot_key(6 + 2 * s)
            &&& dense[4 + 2 * s].key == slots::slot_key(7 + 2 * s)
        }),
{
    assert((2 * s) / 2 == s && (2 * s) % 2 == 0);
    assert((2 * s + 1) / 2 == s && (2 * s + 1) % 2 == 1);
    let identity = dense_list(dims, depths, Blocks::Identity, qam, vth);
    let fc = dense_list(dims, depths, Blocks::Fc, qam, vth);
    assert(identity[1 + 2 * s] == dense_slot(dims, depths, Blocks::Identity, qam, vth, 1 + 2 * s));
    assert(identity[2 + 2 * s] == dense_slot(dims, depths, Blocks::Identity, qam, vth, 2 + 2 * s));
    assert(fc[3 + 2 * s] == dense_slot(dims, depths, Blocks::Fc, qam, vth, 3 + 2 * s));
    assert(fc[4 + 2 * s] == dense_slot(dims, depths, Blocks::Fc, qam, vth, 4 + 2 * s));
}

/// Every slot is in the group of its count and in no other, each group has its slots in order, and
/// no two groups have the same count.
pub proof fn slots_are_grouped_by_count(
    counts: Seq<usize>,
    groups: Seq<(usize, Vec<usize>)>,
    i: int,
    g: int,
    h: int,
)
    requires
        // what `lora_groupby_count` and `dense_groupby_count` say of their results
        is_grouping(counts, counts.len() as int, groups),
        0 <= i < counts.len() <= usize::MAX,
        0 <= g < groups.len(),
        0 <= h < groups.len(),
    ensures
        groups[g].1@.contains(i as usize) <==> counts[i] == groups[g].0,
        exists|k: int| 0 <= k < groups.len() && (#[trigger] groups[k]).0 == counts[i],
        g != h ==> groups[g].0 != groups[h].0,
        forall|a: int, b: int|
            0 <= a < b < groups[g].1@.len() ==> groups[g].1@[a] < groups[g].1@[b],
{
    let n = counts.len() as int;
    first_seen_facts(counts, n);
    positions_in_order(counts, n, groups[g].0);
    seen_is_found(counts, n, i);
    let seen = first_seen(counts, n);
    let k = choose|k: int| 0 <= k < seen.len() && seen[k] == counts[i];
    assert(groups[k].0 == seen[k]);
    assert(groups[g].0 == seen[g] && groups[h].0 == seen[h]);
    if counts[i] == groups[g].0 {
        position_is_listed(counts, n, i);
    }
}

proof fn positions_in_order(counts: Seq<usize>, n: int, c: usize)
    requires
        0 <= n <= counts.len() <= usize::MAX,
    ensures
        forall|a: int, b: int|
            0 <= a < b < positions_of(counts, n, c).len() ==> positions_of(counts, n, c)[a]
                < positions_of(counts, n, c)[b],
        forall|a: int|
            0 <= a < positions_of(counts, n, c).len() ==> {
                let p = #[trigger] positions_of(counts, n, c)[a];
                p < n && counts[p as int] == c
            },
    decreases n,
{
    if n > 0 {
        positions_in_order(counts, n - 1, c);
        let before = positions_of(counts, n - 1, c);
        let now = positions_of(counts, n, c);
        if counts[n - 1] == c {
            assert(now == before.push((n - 1) as usize));
            assert forall|a: int| 0 <= a < now.len() implies {
                let p = #[trigger] now[a];
                p < n && counts[p as int] == c
            } by {
                if a < before.len() {
                    assert(now[a] == before[a]);
                }
            }
            assert forall|a: int, b: int| 0 <= a < b < now.len() implies now[a] < now[b] by {
                assert(now[a] == before[a]);
                if b < before.len() {
                    assert(now[b] == before[b]);
                }
            }
        }
    }
}

proof fn position_is_listed(counts: Seq<usize>, n: int, i: int)
    requires
        0 <= i < n <= counts.len() <= usize::MAX,
    ensures
        positions_of(counts, n, counts[i]).contains(i as usize),
    decreases n,
{
    let before = positions_of(counts, n - 1, counts[i]);
    if i == n - 1 {
        assert(before.push(i as usize)[before.len() as int] == i as usize);
    } else {
        position_is_listed(counts, n - 1, i);
        let k = choose|k: int| 0 <= k < before.len() && before[k] == i as usize;
        assert(positions_of(counts, n, counts[i])[k] == i as usize);
    }
}

proof fn seen_is_found(counts: Seq<usize>, n: int, i: int)
    requires
        0 <= i < n <= counts.len(),
    ensures
        first_seen(counts, n).contains(counts[i]),
    decreases n,
{
    let before = first_seen(counts, n - 1);
    if i == n - 1 {
        if !before.contains(counts[i]) {
            assert(before.push(counts[i])[before.len() as int] == counts[i]);
        }
    } else {
        seen_is_found(counts, n - 1, i);
        let k = choose|k: int| 0 <= k < before.len() && before[k] == counts[i];
        assert(first_seen(counts, n)[k] == counts[i]);
    }
}

/// Groups stand in the order in which their counts first occur.
pub proof fn groups_stand_by_first_occurrence(
    counts: Seq<usize>,
    groups: Seq<(usize, Vec<usize>)>,
    g: int,
    h: int,
)
    requires
        // what `lora_groupby_count` and `dense_groupby_count` say of their results
        is_grouping(counts, counts.len() as int, groups),
        0 <= g < h < groups.len(),
    ensures
        exists|i: int|
            0 <= i < counts.len() && (#[trigger] counts[i]) == groups[g].0 && forall|k: int|
                0 <= k <= i ==> counts[k] != groups[h].0,
{
    let n = counts.len() as int;
    let seen = first_seen(counts, n);
    assert(groups[g].0 == seen[g] && groups[h].0 == seen[h]);
    seen_in_order(counts, n, g, h);
}

proof fn seen_in_order(counts: Seq<usize>, n: int, g: int, h: int)
    requires
        0 <= n <= counts.len(),
        0 <= g < h < first_seen(counts, n).len(),
    ensures
        exists|i: int|
            0 <= i < n && (#[trigger] counts[i]) == first_seen(counts, n)[g] && forall|k: int|
                0 <= k <= i ==> counts[k] != first_seen(counts, n)[h],
    decreases n,
{
    let before = first_seen(counts, n - 1);
    let seen = first_seen(counts, n);
    if h < before.len() {
        assert(seen[g] == before[g] && seen[h] == before[h]);
        seen_in_order(counts, n - 1, g, h);
        let i = choose|i: int|
            0 <= i < n - 1 && (#[trigger] counts[i]) == before[g] && forall|k: int|
                0 <= k <= i ==> counts[k] != before[h];
        assert(counts[i] == seen[g]);
    } else {
        assert(seen[g] == before[g] && seen[h] == counts[n - 1]);
        seen_is_somewhere(counts, n - 1, g);
        let i = choose|i: int| 0 <= i < n - 1 && (#[trigger] counts[i]) == before[g];
        assert forall|k: int| 0 <= k <= i implies counts[k] != seen[h] by {
            seen_is_found(counts, n - 1, k);
        }
        assert(counts[i] == seen[g]);
    }
}

proof fn seen_is_somewhere(counts: Seq<usize>, n: int, g: int)
    requires
        0 <= n <= counts.len(),
        0 <= g < first_seen(counts, n).len(),
    ensures
        exists|i: int| 0 <= i < n && (#[trigger] counts[i]) == first_seen(counts, n)[g],
    decreases n,
{
    let before = first_seen(counts, n - 1);
    if g < before.len() {
        seen_is_somewhere(counts, n - 1, g);
        let i = choose|i: int| 0 <= i < n - 1 && (#[trigger] counts[i]) == before[g];
        assert(counts[i] == first_seen(counts, n)[g]);
    } else {
        assert(counts[n - 1] == first_seen(counts, n)[g]);
    }
}

} // verus!
