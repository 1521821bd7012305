use rust_sdt::calibrate::{calib_batches, calibrate_round, static_calibrate};
use rust_sdt::net::{
    fc_network, forward_full, forward_taps, network, probe, tap, Level, Op, Proj,
};
use rust_sdt::schedule::Relaxation;
use rust_sdt::weights::{build_weights, ConvLayer, LayerSel, SdtWeights};

fn hard() -> Relaxation {
    Relaxation { ssa: false, mlp: false }
}

#[test]
fn the_patch_embedding() {
    let n = network(0, Proj::Plain, &[], hard());
    let s = n.sps;
    assert_eq!(n.ops[0], Op::Input);
    assert_eq!(n.ops[s.c0], Op::Conv { x: 0, layer: LayerSel::PeProj(0) });
    assert_eq!(n.ops[s.p2], Op::Pool { x: s.s2 });
    assert_eq!(n.ops[s.c3], Op::Conv { x: s.p2, layer: LayerSel::PeProj(3) });
    assert_eq!(n.ops[s.p3], Op::Pool { x: s.c3 });
    assert_eq!(n.ops[s.out], Op::Sum { a: s.rpe, b: s.p3 });
    assert_eq!(n.ops[n.head.mean], Op::Mean { x: s.out });
    assert_eq!(n.ops[n.head.head], Op::Head { x: n.head.feat });
    assert_eq!(n.ops[n.head.out], Op::TimeMean { x: n.head.head });
}

#[test]
fn attention_of_a_plain_block() {
    let n = network(2, Proj::Plain, &[], hard());
    let a = n.blocks[1].ssa;
    let x = n.blocks[0].mlp.out;
    assert_eq!(
        n.ops[a.xs],
        Op::Spike { x, own: Some(0), level: Level::Full, relaxed: false }
    );
    assert_eq!(n.ops[a.k], Op::Conv { x: a.xs, layer: LayerSel::Blk { j: 1, which: 1 } });
    assert_eq!(n.ops[a.kv], Op::Product { a: a.kh, b: a.vh });
    assert_eq!(
        n.ops[a.kvs],
        Op::Spike { x: a.kvt, own: Some(4), level: Level::Half, relaxed: false }
    );
    assert_eq!(n.ops[a.attn], Op::Product { a: a.qh, b: a.kvs });
    assert_eq!(n.ops[a.xo], Op::Unheads { x: a.attn, like: x });
    assert_eq!(n.ops[a.out], Op::Sum { a: a.xp, b: x });
    let m = n.blocks[1].mlp;
    assert_eq!(n.ops[m.out], Op::Sum { a: m.x2c, b: a.out });
}

#[test]
fn noisy_blocks_take_noise_from_their_slots() {
    let n = network(2, Proj::Noisy, &[7], Relaxation { ssa: true, mlp: false });
    let a = n.blocks[1].ssa;
    assert_eq!(n.ops[a.v], Op::Noisy { x: a.xs, j: 1, which: 2, slot: 8 });
    assert_eq!(
        n.ops[a.vs],
        Op::Spike { x: a.v, own: Some(3), level: Level::Full, relaxed: true }
    );
    assert_eq!(
        n.ops[n.blocks[1].mlp.x1],
        Op::Spike { x: a.out, own: Some(5), level: Level::Full, relaxed: false }
    );
    assert_eq!(n.ops[n.head.head], Op::NoisyHead { x: n.head.feat, slot: 12 });
    match n.ops[n.head.feat] {
        Op::Spike { x, .. } => assert_eq!(n.ops[x], Op::Modulated { x: n.head.mean, site: 7 }),
        op => panic!("{:?}", op),
    }
}

#[test]
fn blocks_without_projections() {
    let n = network(1, Proj::Identity, &[], hard());
    let a = n.blocks[0].ssa;
    assert_eq!((a.q, a.k, a.v, a.qs), (a.xs, a.xs, a.xs, a.xs));
    assert_eq!(a.xp, a.xo);
    assert_eq!(n.blocks[0].mlp.x1c, n.blocks[0].mlp.x1);
    assert_eq!(n.ops[n.head.head], Op::NoisyHead { x: n.head.feat, slot: 0 });
}

#[test]
fn a_probe_has_no_spikes_behind_the_embedding() {
    let n = probe();
    assert!(n.blocks.is_empty());
    assert_eq!(n.head.feat, n.head.mean);
    assert_eq!(n.ops[n.head.head], Op::NoisyHead { x: n.head.mean, slot: 0 });
}

#[test]
fn the_fully_connected_network() {
    let n = fc_network(&[1], true);
    assert_eq!(n.ops[n.flat], Op::Flatten { x: 0 });
    assert_eq!(n.ops[n.l1], Op::Linear { x: n.flat, slot: 0 });
    assert_eq!(
        n.ops[n.s1],
        Op::Spike { x: n.l1, own: None, level: Level::Low, relaxed: true }
    );
    match n.ops[n.s2] {
        Op::Spike { x, .. } => assert_eq!(n.ops[x], Op::Modulated { x: n.l2, site: 1 }),
        op => panic!("{:?}", op),
    }
    assert_eq!(n.ops[n.out], Op::TimeMean { x: n.l3 });
}

#[test]
fn taps_are_layer_outputs() {
    let n = network(2, Proj::Plain, &[], hard());
    for sel in [
        LayerSel::PeProj(0),
        LayerSel::PeProj(3),
        LayerSel::PeRpe,
        LayerSel::Blk { j: 1, which: 4 },
    ] {
        match n.ops[tap(&n, sel)] {
            Op::Conv { layer, .. } => assert_eq!(layer, sel),
            op => panic!("{:?}", op),
        }
    }
    assert_eq!(tap(&n, LayerSel::Head), n.head.head);
}

#[test]
fn the_full_pass_is_a_plain_network() {
    let n = forward_full(2, &[7]);
    assert_eq!(n.ops, network(2, Proj::Plain, &[7], hard()).ops);
    assert_eq!(n.ops[n.head.head], Op::Head { x: n.head.feat });
}

#[test]
fn every_layer_is_tapped_once() {
    let t = forward_taps(2);
    assert_eq!(t.regs.len(), 18);
    assert_eq!(t.regs[0], (LayerSel::PeProj(0), t.net.sps.c0));
    assert_eq!(t.regs[12], (LayerSel::Blk { j: 1, which: 1 }, t.net.blocks[1].ssa.k));
    assert_eq!(t.regs[17], (LayerSel::Head, t.net.head.head));
}

fn tree(depths: usize) -> SdtWeights<u32, u32, u32> {
    build_weights(depths, |_: usize| 1u32, |_: usize| 1u32, |_: usize| 0u32, |_: usize| 0u32)
}

fn measured(w: &SdtWeights<u32, u32, u32>, sel: LayerSel) -> u32 {
    let first: u32 = w.pe_proj.iter().map(|c| c.w).sum();
    match sel {
        LayerSel::Head => 100 + first,
        _ => first,
    }
}

fn swapped(c: &ConvLayer<u32, u32>, s: &u32) -> ConvLayer<u32, u32> {
    ConvLayer { w: c.w + 1, b: *s }
}

fn head_swapped(m: &u32, _: &u32, s: &u32) -> (u32, u32) {
    (m + 1, *s)
}

#[test]
fn a_round_measures_behind_layers_that_are_done() {
    let mut w = tree(1);
    let s = calibrate_round(&mut w, 1, &measured, &swapped, &head_swapped);
    assert_eq!(s, vec![4, 5, 6, 7, 8, 8, 8, 8, 8, 8, 8, 108]);
    assert_eq!(w.pe_proj[2].b, 6);
    assert_eq!(w.blk[0].fc2.w, 2);
    assert_eq!((w.head_w, w.head_b), (2, 108));
}

#[test]
fn calibration_ends_with_a_good_round() {
    let mut w = tree(0);
    let good = |s: &Vec<u32>| s[0] >= 12;
    assert_eq!(static_calibrate(&mut w, 0, &measured, &swapped, &head_swapped, &good), 3);
    assert_eq!(w.pe_rpe.w, 4);
}

#[test]
fn calibration_gives_up_after_ten_rounds() {
    let mut w = tree(0);
    let good = |_: &Vec<u32>| false;
    assert_eq!(static_calibrate(&mut w, 0, &measured, &swapped, &head_swapped, &good), 10);
    assert_eq!(w.pe_proj[0].w, 11);
}

#[test]
fn calibration_uses_the_first_images() {
    assert_eq!(calib_batches(8000).len(), 16);
    assert_eq!(calib_batches(8000)[15], (480, 512));
    assert_eq!(calib_batches(40), vec![(0, 32), (32, 40)]);
}

fn mix(tag: u64, a: u64, b: u64) -> u64 {
    (a.wrapping_mul(31) ^ b.rotate_left(7) ^ tag.wrapping_mul(0x9E37_79B9_7F4A_7C15))
        .wrapping_mul(0xD6E8_FEB8_6659_FD93)
}

fn layer_tag(layer: LayerSel, blocks: u64) -> u64 {
    match layer {
        LayerSel::PeProj(i) => 100 + i as u64,
        LayerSel::PeRpe => 110,
        LayerSel::Blk { j, which } => blocks + 10 * j as u64 + which as u64,
        LayerSel::Head => 120,
    }
}

/// Runs a network on numbers. A noisy layer is the plain one; `blocks` are the weights of blocks.
fn run(ops: &[Op], blocks: u64) -> Vec<u64> {
    let mut v: Vec<u64> = Vec::new();
    for op in ops {
        let x = match *op {
            Op::Input => 7,
            Op::Conv { x, layer } => mix(layer_tag(layer, blocks), v[x], 0),
            Op::Noisy { x, j, which, .. } => {
                mix(layer_tag(LayerSel::Blk { j, which }, blocks), v[x], 0)
            }
            Op::Spike { x, own, level, relaxed } => {
                let tag = 200 + own.map_or(0, |s| s as u64 + 1) + 20 * relaxed as u64;
                mix(tag + 40 * matches!(level, Level::Half) as u64, v[x], 0)
            }
            Op::Modulated { x, site } => mix(300 + site as u64, v[x], 0),
            Op::Pool { x } => mix(1, v[x], 0),
            Op::Sum { a, b } => mix(2, v[a], v[b]),
            Op::Product { a, b } => mix(3, v[a], v[b]),
            Op::Heads { x } => mix(4, v[x], 0),
            Op::TokenSum { x } => mix(5, v[x], 0),
            Op::Unheads { x, like } => mix(6, v[x], v[like]),
            Op::Mean { x } => mix(8, v[x], 0),
            Op::Head { x } | Op::NoisyHead { x, .. } => mix(9, v[x], 0),
            Op::Flatten { x } => mix(10, v[x], 0),
            Op::Linear { x, slot } => mix(11 + slot as u64, v[x], 0),
            Op::TimeMean { x } => mix(14, v[x], 0),
        };
        v.push(x);
    }
    v
}

#[test]
fn without_noise_the_rated_network_is_the_plain_one() {
    for mods in [vec![], vec![7], vec![0, 4, 6]] {
        let noisy = network(2, Proj::Noisy, &mods, hard());
        let plain = forward_full(2, &mods);
        assert_eq!(
            run(&noisy.ops, 1000)[noisy.head.out],
            run(&plain.ops, 1000)[plain.head.out]
        );
        assert_ne!(
            run(&noisy.ops, 1000)[noisy.head.out],
            run(&plain.ops, 2000)[plain.head.out]
        );
    }
}

#[test]
fn blocks_without_projections_ignore_their_weights() {
    let n = network(2, Proj::Identity, &[0, 5], Relaxation { ssa: true, mlp: true });
    assert_eq!(run(&n.ops, 1000)[n.head.out], run(&n.ops, 2000)[n.head.out]);
}

#[test]
fn taps_compute_the_plain_result() {
    let taps = forward_taps(2);
    let full = forward_full(2, &[]);
    let tapped = run(&taps.net.ops, 1000);
    let result = run(&full.ops, 1000)[full.head.out];
    assert_eq!(tapped[taps.net.head.out], result);
    let (sel, head) = taps.regs[taps.regs.len() - 1];
    assert_eq!(sel, LayerSel::Head);
    assert_eq!(mix(14, tapped[head], 0), result);
}
