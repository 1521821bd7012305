use rust_sdt::config::SdtConfig;
use rust_sdt::factored::{
    dense_groupby_count, factored_slots, lora_groupby_count, qam_site_neurons, Blocks, FLoc,
};
use rust_sdt::init::{draw_order, init_shapes};
use rust_sdt::names::{blk_key, calib_layer_list, slot_key_name, th_key_name};
use rust_sdt::npy::NpyTensor;
use rust_sdt::npz::{read_npz, write_npz, Npz};
use rust_sdt::params::{
    factored_params2d, factored_params2d_fc, write_back_factored, write_back_fc, FcBase, StartValue,
};
use rust_sdt::slots::{
    assemble, flatten_params, perturb_weights, slots_of, OrigShape, ShapeTree, KEY_MUL,
};
use rust_sdt::store::{load_weights, save_init_npz, LoadError};
use rust_sdt::weights::{
    build_weights, floc_get1, floc_get4, floc_set1, floc_set4, get_conv, layer_list, layer_sel,
    map_weights, pick_conv, LayerSel, SdtWeights,
};

type Tree = SdtWeights<String, String, String>;

fn tree(depths: usize) -> Tree {
    build_weights(
        depths,
        |i: usize| format!("w{}", i),
        |i: usize| format!("m{}", i),
        |i: usize| format!("b{}", i),
        |j: usize| format!("th{}", j),
    )
}

fn shapes(depths: usize) -> ShapeTree {
    let cfg = SdtConfig { depths, ..SdtConfig::default() };
    init_shapes(&cfg)
}

fn matrices(depths: usize) -> Vec<String> {
    (0..depths).map(|j| format!("th{}", j)).collect()
}

#[test]
fn layers_stand_in_forward_order() {
    let list = layer_list(1);
    assert_eq!(list.len(), 12);
    assert_eq!(list[0], LayerSel::PeProj(0));
    assert_eq!(list[4], LayerSel::PeRpe);
    assert_eq!(list[5], LayerSel::Blk { j: 0, which: 0 });
    assert_eq!(list[11], LayerSel::Head);
    assert_eq!(layer_sel(2, 12), LayerSel::Blk { j: 1, which: 1 });
}

#[test]
fn a_tree_is_built_in_linear_order() {
    let t = tree(2);
    assert_eq!(t.pe_proj[0].w, "w0");
    assert_eq!(t.pe_proj[0].b, "b1");
    assert_eq!(t.pe_rpe.w, "w8");
    assert_eq!(t.blk[0].q.w, "w10");
    assert_eq!(t.blk[1].fc2.b, "b33");
    assert_eq!(t.head_w, "m34");
    assert_eq!(t.head_b, "b35");
    assert_eq!(t.blk[1].th_w, "th1");
    assert_eq!(t.blk[1].layer, 1);
}

#[test]
fn convolutions_are_picked_and_set() {
    let mut t = tree(1);
    match pick_conv(&mut t, LayerSel::Blk { j: 0, which: 3 }) {
        Some(c) => c.w = "new".to_string(),
        None => panic!("a convolution was asked for"),
    }
    assert_eq!(t.blk[0].proj.w, "new");
    assert!(pick_conv(&mut t, LayerSel::Head).is_none());
    floc_set4(&mut t, 0, 4, "four".to_string());
    floc_set1(&mut t, 0, 4, "one".to_string());
    assert_eq!(floc_get4(&t, 0, 4), "four");
    assert_eq!(floc_get1(&t, 0, 4), "one");
    assert_eq!(get_conv(&t, LayerSel::PeRpe).w, "w8");
}

#[test]
fn mapping_keeps_places() {
    let t = map_weights(
        &tree(1),
        |w: &String| w.len(),
        |m: &String| format!("<{}>", m),
        |b: &String| b.clone(),
    );
    assert_eq!(t.blk[0].fc1.w, 3);
    assert_eq!(t.head_w, "<m22>");
    assert_eq!(t.blk[0].th_w, "<th0>");
    assert_eq!(t.blk[0].fc1.b, "b19");
}

#[test]
fn shapes_are_flattened() {
    assert_eq!(OrigShape::W4([2, 3, 4, 5]).flat2d(), [2, 60]);
    assert_eq!(OrigShape::W2([7, 9]).flat2d(), [7, 9]);
    assert_eq!(OrigShape::B1(6).flat2d(), [6, 1]);
    assert_eq!(OrigShape::W4([2, 3, 4, 5]).orig_dims(), vec![2, 3, 4, 5]);
    assert_eq!(OrigShape::W4([2, 3, 4, 5]).count(), 120);
}

#[test]
fn slots_of_a_network() {
    let s = slots_of(&shapes(2), matrices(2), 2);
    assert_eq!(s.shapes.len(), 36);
    assert_eq!(s.keys[0], KEY_MUL);
    assert_eq!(s.keys[1], KEY_MUL.wrapping_mul(2));
    assert!(s.lora[0]);
    assert!(!s.lora[1]);
    assert!(matches!(s.shapes[34], OrigShape::W2([10, 256])));
    let total: usize = s.shapes.iter().map(|x| x.count()).sum();
    assert_eq!(s.num_params, total);
}

#[test]
fn assembling_undoes_flattening() {
    let t = tree(2);
    let s = slots_of(&shapes(2), matrices(2), 2);
    let id = |_: &OrigShape, x: &String| x.clone();
    let flat = flatten_params(&s, &t, 2, &id, &id, &id);
    assert_eq!(flat.len(), 36);
    assert_eq!(flat[10], "w10");
    let back: Tree = assemble(
        &s,
        2,
        &flat,
        &|x: &String, _: [usize; 4]| x.clone(),
        &|x: &String, _: [usize; 2]| x.clone(),
        &|x: &String, _: usize| x.clone(),
        &|m: &String| m.clone(),
    );
    assert_eq!(back.blk[1].fc2.b, t.blk[1].fc2.b);
    assert_eq!(back.head_w, t.head_w);
    assert_eq!(back.blk[0].th_w, "th0");
}

#[test]
fn noise_is_added_slot_by_slot() {
    let t = tree(1);
    let s = slots_of(&shapes(1), matrices(1), 1);
    let delta: Vec<String> = (0..24).map(|i| format!("+d{}", i)).collect();
    let p: Tree = perturb_weights(
        &s,
        1,
        &t,
        &delta,
        &|w: &String, d: &String, _: [usize; 4]| format!("{}{}", w, d),
        &|m: &String, d: &String, _: [usize; 2]| format!("{}{}", m, d),
        &|b: &String, d: &String, _: usize| format!("{}{}", b, d),
        &|m: &String| m.clone(),
    );
    assert_eq!(p.pe_proj[3].b, "b7+d7");
    assert_eq!(p.blk[0].k.w, "w12+d12");
    assert_eq!(p.head_b, "b23+d23");
    assert_eq!(p.blk[0].th_w, "th0");
}

type Numbers = SdtWeights<i64, i64, i64>;

fn numbers() -> Numbers {
    build_weights(
        1,
        |i: usize| i as i64,
        |i: usize| 100 + i as i64,
        |i: usize| -(i as i64),
        |j: usize| 7 + j as i64,
    )
}

fn add_noise(base: &Numbers, delta: &[i64]) -> Numbers {
    let s = slots_of(&shapes(1), vec![7i64], 1);
    perturb_weights(
        &s,
        1,
        base,
        delta,
        &|w: &i64, d: &i64, _: [usize; 4]| w + d,
        &|m: &i64, d: &i64, _: [usize; 2]| m + d,
        &|b: &i64, d: &i64, _: usize| b + d,
        &|m: &i64| *m,
    )
}

fn flat_numbers(w: &Numbers) -> Vec<i64> {
    let s = slots_of(&shapes(1), vec![7i64], 1);
    flatten_params(
        &s,
        w,
        1,
        &|_: &OrigShape, x: &i64| *x,
        &|_: &OrigShape, x: &i64| *x,
        &|_: &OrigShape, x: &i64| *x,
    )
}

#[test]
fn perturbed_parameters_are_sums() {
    let base = numbers();
    let delta: Vec<i64> = (0..24).map(|i| i * i - 50).collect();
    let p = add_noise(&base, &delta);
    let want: Vec<i64> = flat_numbers(&base).iter().zip(&delta).map(|(a, d)| a + d).collect();
    assert_eq!(flat_numbers(&p), want);
    assert_eq!((p.blk[0].layer, p.blk[0].th_w), (0, 7));
}

#[test]
fn noise_of_nothing_and_opposite_noise() {
    let base = numbers();
    assert_eq!(flat_numbers(&add_noise(&base, &[0; 24])), flat_numbers(&base));
    let delta: Vec<i64> = (0..24).map(|i| 3 * i + 1).collect();
    let back: Vec<i64> = delta.iter().map(|d| -d).collect();
    let q = add_noise(&add_noise(&base, &delta), &back);
    assert_eq!(flat_numbers(&q), flat_numbers(&base));
}

#[test]
fn slots_of_the_factored_estimator() {
    let (lora, dense) = factored_slots(&shapes(2), 2, &[7], &[0, 4], Blocks::Conv);
    assert_eq!(lora.len(), 13);
    assert_eq!(dense.len(), 17);
    assert_eq!(lora[7].loc, FLoc::BlkW(1, 1));
    assert_eq!(lora[12].loc, FLoc::HeadW);
    assert_eq!(dense[12].loc, FLoc::HeadB);
    assert_eq!(dense[13].loc, FLoc::Qam(7, 0));
    assert_eq!(dense[14].loc, FLoc::Qam(7, 1));
    assert_eq!(dense[16].loc, FLoc::Vth(4));
    assert_eq!(lora[0].key, KEY_MUL);
    assert_eq!(dense[0].key, KEY_MUL.wrapping_mul(2));
}

#[test]
fn other_networks_have_fewer_slots() {
    let (lora, dense) = factored_slots(&shapes(2), 2, &[7, 0], &[], Blocks::Identity);
    assert_eq!((lora.len(), dense.len()), (1, 5));
    let (lora, dense) = factored_slots(&shapes(2), 2, &[], &[], Blocks::Probe);
    assert_eq!((lora.len(), dense.len()), (1, 1));
    let (lora, dense) = factored_slots(&shapes(2), 2, &[0, 1], &[], Blocks::Fc);
    assert_eq!((lora.len(), dense.len()), (3, 7));
    assert!(matches!(lora[0].shape, OrigShape::W2([128, 3072])));
    assert_eq!(dense[2].loc, FLoc::FcB(2));
    assert_eq!(qam_site_neurons(6), 1024);
    assert_eq!(qam_site_neurons(0), 256);
}

#[test]
fn keys_of_all_slots_differ() {
    let (lora, dense) = factored_slots(&shapes(2), 2, &[0, 1, 2], &[0, 1], Blocks::Conv);
    let mut keys: Vec<u64> = lora.iter().chain(dense.iter()).map(|s| s.key).collect();
    let n = keys.len();
    keys.sort_unstable();
    keys.dedup();
    assert_eq!(keys.len(), n);
}

#[test]
fn slots_of_one_size_are_grouped() {
    let (lora, dense) = factored_slots(&shapes(1), 1, &[], &[], Blocks::Conv);
    let g = lora_groupby_count(&lora, 2);
    assert_eq!(g[0], (1024, vec![0, 1, 2, 3]));
    assert_eq!(g[1], (2560, vec![4, 5]));
    assert_eq!(g[2], (532, vec![6]));
    let g = dense_groupby_count(&dense);
    assert_eq!(g, vec![(256, vec![0, 1, 2, 3, 5]), (1024, vec![4]), (10, vec![6])]);
}

#[test]
fn parameters_survive_a_write_back() {
    let mut t = tree(1);
    let (lora, dense) = factored_slots(&shapes(1), 1, &[7], &[4], Blocks::Conv);
    let id = |_: &OrigShape, x: &String| x.clone();
    let fill = |v: StartValue, n: usize| format!("{:?}:{}", v, n);
    let params = factored_params2d(&t, &lora, &dense, &id, &id, &id, &fill);
    assert_eq!(params[1], "w12");
    assert_eq!(params[6], "m22");
    assert_eq!(params[7], "b11");
    assert_eq!(params[14], "Amplitude:256");
    assert_eq!(params[15], "Phase:256");
    assert_eq!(params[16], "ThresholdHalf:1");
    let moved: Vec<String> = params.iter().map(|p| format!("{}!", p)).collect();
    write_back_factored(
        &mut t,
        &lora,
        &dense,
        &moved,
        &|x: &String, _: [usize; 4]| x.clone(),
        &|x: &String, _: [usize; 2]| x.clone(),
        &|x: &String, _: usize| x.clone(),
    );
    assert_eq!(t.blk[0].k.w, "w12!");
    assert_eq!(t.head_b, "b23!");
    assert_eq!(t.pe_proj[0].w, "w0");
    let again = factored_params2d(&t, &lora, &dense, &id, &id, &id, &fill);
    assert_eq!(again[0..14], moved[0..14]);
}

#[test]
fn parameters_of_the_fully_connected_network() {
    let mut base = FcBase {
        w1: "w1".to_string(),
        b1: "b1".to_string(),
        w2: "w2".to_string(),
        b2: "b2".to_string(),
        w3: "w3".to_string(),
        b3: "b3".to_string(),
    };
    let (lora, dense) = factored_slots(&shapes(1), 1, &[0], &[], Blocks::Fc);
    let id = |_: &OrigShape, x: &String| x.clone();
    let fill = |v: StartValue, n: usize| format!("{:?}:{}", v, n);
    let params = factored_params2d_fc(&base, &lora, &dense, &id, &id, &fill);
    assert_eq!(
        params,
        vec!["w1", "w2", "w3", "b1", "b2", "b3", "Amplitude:128", "Phase:128"]
    );
    let moved: Vec<String> = params.iter().map(|p| format!("{}!", p)).collect();
    write_back_fc(
        &mut base,
        &lora,
        &dense,
        &moved,
        &|x: &String, _: [usize; 2]| x.clone(),
        &|x: &String, _: usize| x.clone(),
    );
    assert_eq!(base.w3, "w3!");
    assert_eq!(base.b1, "b1!");
}

#[test]
fn names_of_layers() {
    assert_eq!(blk_key(1, 3), "blk1_proj");
    assert_eq!(slot_key_name(2, 0), "pe_proj0_w");
    assert_eq!(slot_key_name(2, 35), "head_b");
    assert_eq!(th_key_name(0), "blk0_th_w");
    let list = calib_layer_list(2);
    assert_eq!(list.len(), 18);
    assert_eq!(list[5].1, "blk0_q");
    assert_eq!(list[17].1, "head");
}

fn stored(cfg: &SdtConfig) -> Npz {
    let dims = init_shapes(cfg);
    let arrays = save_init_npz(
        &dims,
        &|d: &[usize; 4]| (d.to_vec(), vec![1u32; d.iter().product()]),
        &|d: &[usize; 2]| (d.to_vec(), vec![2u32; d.iter().product()]),
        &|n: &usize| (vec![*n], vec![3u32; *n]),
    );
    match read_npz(&write_npz(&arrays)) {
        Ok(z) => z,
        Err(e) => panic!("{:?}", e),
    }
}

fn small() -> SdtConfig {
    SdtConfig { embed_dims: 8, num_heads: 2, mlp_ratio: 2, depths: 2, ..SdtConfig::default() }
}

#[test]
fn saved_weights_load_back() {
    let z = stored(&small());
    let w: SdtWeights<&NpyTensor, &NpyTensor, &NpyTensor> = match load_weights(&z, &small()) {
        Ok(w) => w,
        Err(_) => panic!("the weights should load"),
    };
    assert_eq!(w.pe_proj[0].w.shape, vec![2, 3, 3, 3]);
    assert_eq!(w.blk[1].fc1.w.shape, vec![16, 8, 1, 1]);
    assert_eq!(w.head_w.shape, vec![10, 8]);
    assert_eq!(w.blk[0].th_w.shape, vec![2, 2]);
    assert_eq!(w.blk[1].layer, 1);
}

#[test]
fn missing_weights_are_named() {
    let mut z = stored(&small());
    z.entries.retain(|e| e.key != "blk1_k_b");
    match load_weights(&z, &small()) {
        Err(LoadError::Missing(k)) => assert_eq!(k, "blk1_k_b"),
        _ => panic!("a missing array should be named"),
    }
}

#[test]
fn misshapen_weights_are_named() {
    let mut z = stored(&small());
    for e in z.entries.iter_mut() {
        if e.key == "pe_rpe_w" {
            e.tensor.shape = vec![8, 72];
        }
    }
    match load_weights(&z, &small()) {
        Err(LoadError::Shape(k)) => assert_eq!(k, "pe_rpe_w"),
        _ => panic!("a misshapen array should be named"),
    }
}

#[test]
fn a_fresh_network_has_chained_channels() {
    let d = init_shapes(&SdtConfig::default());
    assert_eq!(d.pe_proj[0].w, [64, 3, 3, 3]);
    assert_eq!(d.pe_proj[1].w, [64, 64, 3, 3]);
    assert_eq!(d.pe_proj[2].w, [128, 64, 3, 3]);
    assert_eq!(d.pe_proj[3].w, [256, 128, 3, 3]);
    assert_eq!(d.pe_rpe.w, [256, 256, 3, 3]);
    assert_eq!(d.blk[0].fc1.w, [1024, 256, 1, 1]);
    assert_eq!(d.blk[1].th_w, [8, 8]);
    assert_eq!(d.head_w, [10, 256]);
}

#[test]
fn blocks_are_drawn_first() {
    let o = draw_order(1);
    assert_eq!(o[0], LayerSel::Blk { j: 0, which: 0 });
    assert_eq!(o[6], LayerSel::PeProj(0));
    assert_eq!(o[10], LayerSel::PeRpe);
    assert_eq!(o[11], LayerSel::Head);
    assert_eq!(o.len(), 12);
}
