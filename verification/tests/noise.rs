use rust_sdt::factored::{FLoc, FSlotSpec};
use rust_sdt::draws::{gen_chunk_flat, gen_fc_base, normals};
use rust_sdt::noise::{
    build_delta_cache, candidate_negative, candidate_pair, fold_seed, group_seeds, noise_seed,
    worker_parts, DeterministicNoise, NormalStep,
};
use rust_sdt::noise32::{fmix32, uniforms, unit24, xorshift32};
use rust_sdt::slots::{OrigShape, KEY_MUL};

fn slot(key: u64, shape: OrigShape) -> FSlotSpec {
    FSlotSpec { loc: FLoc::HeadW, key, shape }
}

#[test]
fn the_stream_of_a_seed() {
    let mut n = DeterministicNoise::new(42);
    assert_eq!(n.next_u64(), 0xa_d5d3_6aeb);
    assert_eq!(n.next_unit(), 11537131);
}

#[test]
fn the_second_normal_is_kept() {
    let mut n = DeterministicNoise::new(42);
    assert_eq!(n.begin_normal(), NormalStep::Fresh { u1: 0, u2: 11537131 });
    n.keep(1.5f32.to_bits());
    assert_eq!(n.begin_normal(), NormalStep::Cached(1.5f32.to_bits()));
    assert!(matches!(n.begin_normal(), NormalStep::Fresh { .. }));
}

#[test]
fn seeds_of_slots() {
    assert_eq!(noise_seed(KEY_MUL, 0, 0), 0);
    assert_eq!(noise_seed(KEY_MUL.wrapping_mul(2), 3, 5), 0xc288_7381_e20e_93ac);
    assert_eq!(noise_seed(KEY_MUL, -1, 7), 0xfa48_5d79_6cce_c297);
}

#[test]
fn seeds_differ_in_every_argument() {
    let s = noise_seed(KEY_MUL, 1, 2);
    assert_ne!(s, noise_seed(KEY_MUL.wrapping_mul(2), 1, 2));
    assert_ne!(s, noise_seed(KEY_MUL, 2, 2));
    assert_ne!(s, noise_seed(KEY_MUL, 1, 3));
}

#[test]
fn pairs_share_a_stream_with_opposite_signs() {
    assert_eq!(candidate_pair(6), candidate_pair(7));
    assert_eq!(candidate_pair(6), 3);
    assert!(!candidate_negative(6));
    assert!(candidate_negative(7));
}

#[test]
fn seeds_are_folded_to_32_bits() {
    assert_eq!(fold_seed(0), 0);
    assert_eq!(fold_seed(0x1_0000_0001), 0);
    assert_eq!(fold_seed(0xFFFF_FFFF), -1);
}

#[test]
fn seeds_of_a_group_go_by_slot_then_candidate() {
    let slots = [
        slot(KEY_MUL, OrigShape::B1(4)),
        slot(KEY_MUL.wrapping_mul(2), OrigShape::B1(4)),
    ];
    let r = group_seeds(&slots, &[1, 0], &[4, 9], 3);
    let want: Vec<i32> = vec![
        fold_seed(noise_seed(slots[1].key, 3, 2)),
        fold_seed(noise_seed(slots[1].key, 3, 4)),
        fold_seed(noise_seed(slots[0].key, 3, 2)),
        fold_seed(noise_seed(slots[0].key, 3, 4)),
    ];
    assert_eq!(r, want);
}

#[test]
fn workers_share_the_candidates() {
    assert_eq!(worker_parts(10, 4), vec![(0, 3), (3, 6), (6, 9), (9, 10)]);
    let parts = worker_parts(5, 4);
    assert_eq!(parts, vec![(0, 2), (2, 4), (4, 5), (5, 5)]);
}

#[test]
fn normals_come_in_pairs() {
    let mut n = DeterministicNoise::new(42);
    let polar = |u1: u32, u2: u32| (u1 + 1, u2 + 2);
    assert_eq!(n.standard_normal(&polar), 1);
    assert_eq!(n.standard_normal(&polar), 11537133);
    let mut m = DeterministicNoise::new(42);
    let drawn: Vec<u32> = (0..5).map(|_| m.standard_normal(&polar)).collect();
    assert_eq!(normals(42, 5, &polar), drawn);
    assert_eq!(normals(43, 5, &polar), drawn);
    assert_eq!(normals(42, 3, &polar), vec![1, 11537133, 1052094]);
    assert_eq!(normals(42, 0, &polar), Vec::<u32>::new());
}

fn polar(u1: u32, u2: u32) -> (u32, u32) {
    (u1, u2)
}

/// Marks a number with its slot and sign.
fn marked(si: usize, negative: bool, x: u32) -> u32 {
    x + ((si as u32) << 25) + if negative { 1 << 31 } else { 0 }
}

#[test]
fn a_row_holds_shared_numbers_then_signed_ones() {
    let lora = [
        slot(KEY_MUL, OrigShape::W2([2, 2])),
        slot(KEY_MUL.wrapping_mul(2), OrigShape::W4([5, 3, 1, 1])),
    ];
    let dense = [slot(KEY_MUL.wrapping_mul(3), OrigShape::B1(4))];
    let r = gen_chunk_flat(&lora, &dense, 2, &[6, 7], 3, &polar, &marked, &marked);
    assert_eq!(r.lora.len(), 2);
    assert_eq!(r.lora[0].len(), 2 * 8);
    assert_eq!(r.lora[1].len(), 2 * 16);
    assert_eq!(r.dense.len(), 1);
    assert_eq!(r.dense[0].len(), 2 * 4);
    let raw = normals(noise_seed(lora[1].key, 3, 3), 16, &polar);
    for row in 0..2 {
        for k in 0..16 {
            let want = if k < 6 { raw[k] } else { marked(1, row == 1, raw[k]) };
            assert_eq!(r.lora[1][row * 16 + k], want);
        }
    }
    let raw = normals(noise_seed(dense[0].key, 3, 3), 4, &polar);
    for k in 0..4 {
        assert_eq!(r.dense[0][k], marked(0, false, raw[k]));
        assert_eq!(r.dense[0][4 + k], marked(0, true, raw[k]));
    }
}

#[test]
fn joined_parts_of_a_chunk() {
    let lora = [slot(KEY_MUL, OrigShape::W2([3, 2]))];
    let dense = [slot(KEY_MUL.wrapping_mul(2), OrigShape::B1(3))];
    let cand = [4, 5, 8, 9, 10];
    let draw =
        |c: &[usize]| gen_chunk_flat(&lora, &dense, 1, c, 1, &polar, &marked, &marked);
    let whole = draw(&cand);
    let parts: Vec<_> =
        worker_parts(5, 3).into_iter().map(|(lo, hi)| draw(&cand[lo..hi])).collect();
    let mut joined = draw(&[]);
    for p in &parts {
        joined = joined.join(p);
    }
    assert_eq!(joined.lora, whole.lora);
    assert_eq!(joined.dense, whole.dense);
}

#[test]
fn a_fully_connected_network_takes_one_stream() {
    let scale = |inputs: usize, x: u32| x + inputs as u32;
    let w = gen_fc_base(5, &polar, &scale);
    let raw = normals(5, 128 * 3072 + 128 * 128 + 10 * 128, &polar);
    assert_eq!(w.w1.len(), 128 * 3072);
    assert_eq!(w.w1[7], raw[7] + 3072);
    assert_eq!(w.w2.len(), 128 * 128);
    assert_eq!(w.w2[0], raw[128 * 3072] + 128);
    assert_eq!(w.w3.len(), 10 * 128);
    assert_eq!(w.w3[10 * 128 - 1], raw[raw.len() - 1] + 128);
    assert_eq!(w.b1, vec![0; 128]);
    assert_eq!(w.b2, vec![0; 128]);
    assert_eq!(w.b3, vec![0; 10]);
}

#[test]
fn cached_noise_of_all_candidates() {
    let keys = vec![KEY_MUL, KEY_MUL.wrapping_mul(2)];
    let make = |si: usize, seed: u64, negative: bool| (si, seed, negative);
    let r = build_delta_cache(&keys, 3, &make);
    assert_eq!(r.len(), 3);
    assert_eq!(r[0], vec![(0, noise_seed(keys[0], 0, 0), false), (1, noise_seed(keys[1], 0, 0), false)]);
    assert_eq!(r[1], vec![(0, noise_seed(keys[0], 0, 0), true), (1, noise_seed(keys[1], 0, 0), true)]);
    assert_eq!(r[2][1], (1, noise_seed(keys[1], 0, 1), false));
}

#[test]
fn avalanche_and_step_values() {
    assert_eq!(fmix32(0), 0);
    assert_eq!(fmix32(1), 0x86d2_fa73);
    assert_eq!(xorshift32(1), 0x42021);
}

#[test]
fn uniform_numbers_by_position() {
    assert_eq!(unit24(12345, 0), 7926575);
    assert_eq!(unit24(12345, 1), 10865467);
    assert_eq!(unit24(u32::MAX, 0), 1652220);
    assert_eq!(
        uniforms(&[12345, -1], 3),
        vec![7926575, 10865467, 2923525, 13397748, 1652220, unit24(u32::MAX, 1),
            unit24(u32::MAX, 2), unit24(u32::MAX, 3)]
    );
}

#[test]
fn elements_of_a_seed_differ() {
    let mut seen: Vec<u32> = (0..1000)
        .map(|e: u32| xorshift32(xorshift32(fmix32(77 ^ fmix32(e.wrapping_mul(0x9E37_79B9))))))
        .collect();
    seen.sort_unstable();
    seen.dedup();
    assert_eq!(seen.len(), 1000);
}
