use rust_sdt::es_plan::{
    cache_mb, candidate_images, check_cache_args, check_factored_args, chunks, factored_epoch, factored_sigma, frozen_slots, mixed_epoch,
    mixed_sigma, plan_cache, plan_factored, plan_mixed, qam_slots, vth_slots, FactoredEpoch,
    MixedEpoch, SigmaKind, SiteSlots,
};
use rust_sdt::epochs::{evaluate, run_epochs, train_epoch};
use rust_sdt::es_run::{
    cache_epoch, factored_run, frozen_step, mixed_run, rate_chunks, restore_front,
    zero_noise_anchors,
};
use rust_sdt::factored::Blocks;
use rust_sdt::loader::shuffled_indices;
use rust_sdt::options::{
    choose_sites, data_path, fallback_data_file, is_factored, parse_blocks, preset_known,
    threshold_sites, weights_path, EsArgs, MixedArgs, PlanError,
};
use rust_sdt::schedule::{
    adapt_due, beta_doublings, cosine_phase, epoch_seed, lr_phase, relaxation, validate_due,
    LrPhase, Relaxation,
};
use rust_sdt::train_plan::{
    batch_sync_enabled, default_train_args, eval_on_autodiff, eval_progress, parse_u32, plan_train,
    probe_batch, probe_number, probe_stage, probe_sync_every, switch_on, train_progress,
    InitialWeights, ProbeStage, TrainError,
};

fn es_args() -> EsArgs {
    EsArgs {
        epochs: 4,
        data_dir: "data".to_string(),
        seed: 42,
        weights: Some("w.npz".to_string()),
        time_steps: 4,
        no_calibrate: true,
        pop: 8,
        es_batch: 1,
        rank: 2,
        validate_every: 2,
        csv_out: "out.csv".to_string(),
        mode: "factored".to_string(),
        chunk: 4,
        relax: true,
        beta_anneal_every: 2,
        relax_scope: "all".to_string(),
        lr_warmup: 2,
        hard_at_16: false,
        qam: "learnable".to_string(),
        qam_sites: "head".to_string(),
        pair_shared: false,
        blocks: "conv".to_string(),
        freeze_lora: true,
        baseline_zero: false,
        sigma_adapt: true,
        sigma_adapt_every: 2,
    }
}

fn mixed_args() -> MixedArgs {
    MixedArgs {
        epochs: 3,
        data_dir: "data".to_string(),
        seed: 7,
        weights: Some("w.npz".to_string()),
        time_steps: 4,
        no_calibrate: true,
        batch_size: 4,
        es_pop: 10,
        es_chunk: 4,
        beta_anneal_every: 1,
        qam: "learnable".to_string(),
        qam_sites: "ssa".to_string(),
        validate_every: 5,
        csv_out: "out.csv".to_string(),
    }
}

#[test]
fn networks_have_names() {
    assert_eq!(parse_blocks("conv"), Some(Blocks::Conv));
    assert_eq!(parse_blocks("none"), Some(Blocks::Identity));
    assert_eq!(parse_blocks("probe"), Some(Blocks::Probe));
    assert_eq!(parse_blocks("fc"), Some(Blocks::Fc));
    assert_eq!(parse_blocks("convs"), None);
}

#[test]
fn sites_are_chosen_by_network() {
    assert_eq!(choose_sites(Some(Blocks::Conv), "learnable", "head"), Ok(vec![7]));
    assert_eq!(choose_sites(Some(Blocks::Identity), "learnable", "ssa"), Ok(vec![0, 1, 2, 3, 4]));
    assert_eq!(
        choose_sites(Some(Blocks::Conv), "learnable", "all"),
        Ok(vec![0, 1, 2, 3, 4, 5, 6, 7])
    );
    assert_eq!(choose_sites(Some(Blocks::Fc), "learnable", "head"), Ok(vec![0]));
    assert_eq!(choose_sites(Some(Blocks::Fc), "learnable", "all"), Ok(vec![0, 1]));
    assert_eq!(choose_sites(Some(Blocks::Conv), "off", "nonsense"), Ok(vec![]));
    assert_eq!(choose_sites(Some(Blocks::Probe), "nonsense", "nonsense"), Ok(vec![]));
    assert_eq!(
        choose_sites(Some(Blocks::Conv), "learnable", "tail"),
        Err(PlanError::UnknownSites)
    );
    assert_eq!(choose_sites(Some(Blocks::Conv), "on", "head"), Err(PlanError::UnknownQam));
    assert_eq!(threshold_sites(), vec![0, 1, 2, 3, 4, 5, 6, 7]);
}

#[test]
fn paths_and_modes() {
    assert_eq!(data_path("data/cifar10"), "data/cifar10/cifar10_data.npz");
    assert_eq!(data_path("data/\\//"), "data/cifar10_data.npz");
    assert_eq!(data_path(""), "/cifar10_data.npz");
    assert_eq!(fallback_data_file(), "artifacts/cifar10_data.npz");
    assert!(is_factored("factored"));
    assert!(!is_factored("cache"));
    assert_eq!(weights_path(&Some("x".to_string())), Some(&"x".to_string()));
    assert_eq!(weights_path(&Some(String::new())), None);
    assert_eq!(weights_path(&None), None);
    assert!(preset_known("cifar10_s"));
    assert!(!preset_known("cifar10"));
}

#[test]
fn schedules() {
    assert_eq!(epoch_seed(42, 3), 45);
    assert!(validate_due(0, 5, 10));
    assert!(!validate_due(1, 5, 10));
    assert!(validate_due(9, 5, 10));
    assert_eq!(beta_doublings(true, 25, 60), Some(2));
    assert_eq!(beta_doublings(true, 0, 60), None);
    assert_eq!(beta_doublings(false, 25, 60), None);
    assert_eq!(lr_phase(0, 3, 10), LrPhase::Constant);
    assert_eq!(lr_phase(4, 3, 10), LrPhase::Warmup(4, 4));
    assert_eq!(lr_phase(4, 4, 10), LrPhase::Cosine(0, 6));
    assert_eq!(cosine_phase(2, 8), LrPhase::Cosine(2, 8));
    assert!(adapt_due(true, 9, 10));
    assert!(!adapt_due(true, 8, 10));
    assert!(adapt_due(true, 8, 0));
    assert!(!adapt_due(false, 9, 10));
}

#[test]
fn relaxation_by_scope_and_limit() {
    assert_eq!(relaxation(true, true, true, "all"), Relaxation { ssa: true, mlp: true });
    assert_eq!(relaxation(true, false, true, "all"), Relaxation { ssa: false, mlp: false });
    assert_eq!(relaxation(true, false, false, "ssa"), Relaxation { ssa: true, mlp: false });
    assert_eq!(relaxation(false, true, false, "all"), Relaxation { ssa: false, mlp: false });
}

#[test]
fn a_cache_run_is_planned() {
    let mut a = es_args();
    a.es_batch = 3;
    let p = match plan_cache(&a, 100) {
        Ok(p) => p,
        Err(e) => panic!("{:?}", e),
    };
    assert_eq!((p.gen_imgs, p.gens_per_epoch, p.dropped), (24, 4, 4));
    let order: Vec<usize> = (0..100).map(|i| 99 - i).collect();
    assert_eq!(candidate_images(&p, &order, 1, 2), vec![69, 68, 67]);
    assert_eq!(cache_mb(800, 2_500_000), 7629);
}

#[test]
fn candidates_split_an_epoch() {
    let mut a = es_args();
    a.es_batch = 3;
    let p = match plan_cache(&a, 100) {
        Ok(p) => p,
        Err(e) => panic!("{:?}", e),
    };
    let order = shuffled_indices(100, 5);
    let mut seen = Vec::new();
    for g in 0..p.gens_per_epoch {
        for c in 0..p.pop {
            seen.extend(candidate_images(&p, &order, g, c));
        }
    }
    assert_eq!(seen, order[0..96].to_vec());
}

#[test]
fn cache_runs_that_cannot_start() {
    let mut a = es_args();
    a.pop = 7;
    assert_eq!(plan_cache(&a, 100), Err(PlanError::OddPop));
    let mut a = es_args();
    a.rank = 0;
    assert_eq!(plan_cache(&a, 100), Err(PlanError::ZeroRank));
    let mut a = es_args();
    a.weights = None;
    assert_eq!(plan_cache(&a, 100), Err(PlanError::NoWeights));
    let mut a = es_args();
    a.pop = 0;
    assert_eq!(plan_cache(&a, 100), Err(PlanError::EmptyGeneration));
    let a = es_args();
    assert_eq!(plan_cache(&a, 7), Err(PlanError::TooManyImages));
    let mut a = es_args();
    a.es_batch = usize::MAX;
    assert_eq!(plan_cache(&a, 100), Err(PlanError::TooManyImages));
}

fn factored_refusal(a: &EsArgs, n: usize) -> PlanError {
    match plan_factored(a, n) {
        Ok(_) => panic!("the run should be refused"),
        Err(e) => e,
    }
}

#[test]
fn factored_runs_that_cannot_start() {
    let mut a = es_args();
    a.es_batch = 2;
    assert_eq!(factored_refusal(&a, 100), PlanError::EsBatch);
    let mut a = es_args();
    a.pop = 9;
    assert_eq!(factored_refusal(&a, 100), PlanError::OddPop);
    assert_eq!(factored_refusal(&es_args(), 6), PlanError::PopTooLarge);
    let mut a = es_args();
    a.weights = Some(String::new());
    assert_eq!(factored_refusal(&a, 100), PlanError::NoWeights);
    let mut a = es_args();
    a.blocks = "fc".to_string();
    a.baseline_zero = true;
    assert_eq!(factored_refusal(&a, 100), PlanError::AnchorsUnsupported);
    let mut a = es_args();
    a.qam = "maybe".to_string();
    assert_eq!(factored_refusal(&a, 100), PlanError::UnknownQam);
    let mut a = es_args();
    a.qam_sites = "tail".to_string();
    assert_eq!(factored_refusal(&a, 100), PlanError::UnknownSites);
    let mut a = es_args();
    a.chunk = 0;
    assert_eq!(factored_refusal(&a, 100), PlanError::ZeroChunk);
    let mut a = es_args();
    a.blocks = "mlp".to_string();
    assert_eq!(factored_refusal(&a, 100), PlanError::UnknownBlocks);
}

#[test]
fn every_direction_of_an_epoch_is_rated() {
    let mut a = es_args();
    a.pop = 8000;
    a.chunk = 128;
    let p = match plan_factored(&a, 8000) {
        Ok(p) => p,
        Err(e) => panic!("{:?}", e),
    };
    let e = factored_epoch(&a, &p, 3, 5, 0, 8000);
    assert_eq!(e.chunks.len(), 63);
    assert_eq!(e.chunks[62].ids.len(), 64);
    let ids: Vec<usize> = e.chunks.iter().flat_map(|c| c.ids.clone()).collect();
    assert_eq!(ids, shuffled_indices(8000, 42));
    let mut m = mixed_args();
    m.es_pop = 8040;
    m.es_chunk = 128;
    assert!(plan_mixed(&m, 8000).is_ok());
    let e = mixed_epoch(&m, 0, 8000);
    let images: Vec<usize> = e.chunks.iter().flat_map(|c| c.images.clone()).collect();
    assert_eq!(images, (0..8000).collect::<Vec<usize>>());
}

#[test]
fn a_run_without_epochs_needs_no_chunks() {
    let mut a = es_args();
    a.epochs = 0;
    a.chunk = 0;
    a.blocks = "mlp".to_string();
    match plan_factored(&a, 100) {
        Ok(p) => assert_eq!(p.blocks, None),
        Err(e) => panic!("{:?}", e),
    }
    let mut m = mixed_args();
    m.epochs = 0;
    m.es_chunk = 0;
    assert!(plan_mixed(&m, 3).is_ok());
    let mut t = default_train_args("cifar10_s", 0, "data", 42);
    t.batch_size = 0;
    assert!(plan_train(&t).is_ok());
}

#[test]
fn options_are_checked_before_data() {
    let mut a = es_args();
    assert_eq!(check_factored_args(&a), None);
    a.pop = 9;
    assert_eq!(check_factored_args(&a), Some(PlanError::OddPop));
    a.es_batch = 2;
    assert_eq!(check_factored_args(&a), Some(PlanError::EsBatch));
    assert_eq!(check_cache_args(&a), Some(PlanError::OddPop));
    a.pop = 8;
    a.rank = 0;
    assert_eq!(check_cache_args(&a), Some(PlanError::ZeroRank));
    a.rank = 1;
    assert_eq!(check_cache_args(&a), None);
}

#[test]
fn an_epoch_of_the_factored_estimator() {
    let a = es_args();
    let p = match plan_factored(&a, 8) {
        Ok(p) => p,
        Err(e) => panic!("{:?}", e),
    };
    assert_eq!((p.blocks, p.sites.clone()), (Some(Blocks::Conv), vec![7]));
    let e = factored_epoch(&a, &p, 3, 5, 1, 8);
    assert_eq!(e.seed, 43);
    assert_eq!(e.doublings, Some(0));
    assert_eq!(e.lr, LrPhase::Warmup(2, 2));
    assert_eq!(e.frozen, 2);
    assert!(e.adapt);
    assert!(!e.validate);
    assert!(e.anchors.is_empty());
    let mut ids: Vec<usize> = e.chunks.iter().flat_map(|c| c.ids.clone()).collect();
    assert_eq!(ids, shuffled_indices(8, 43));
    ids.sort_unstable();
    assert_eq!(ids, vec![0, 1, 2, 3, 4, 5, 6, 7]);
    assert_eq!(
        e.sigma,
        vec![
            SigmaKind::Zero,
            SigmaKind::Zero,
            SigmaKind::Relative,
            SigmaKind::Relative,
            SigmaKind::Relative,
            SigmaKind::Relative,
            SigmaKind::Amplitude,
            SigmaKind::Phase
        ]
    );
}

#[test]
fn anchors_cover_all_images() {
    let mut a = es_args();
    a.baseline_zero = true;
    let p = match plan_factored(&a, 1000) {
        Ok(p) => p,
        Err(e) => panic!("{:?}", e),
    };
    let e = factored_epoch(&a, &p, 3, 5, 0, 1000);
    assert_eq!(e.anchors, vec![(0, 512), (512, 1000)]);
}

#[test]
fn pairs_share_images_on_request() {
    let c = chunks(&[9, 8, 7, 6], 4, 2, true);
    assert_eq!(c[0].ids, vec![0, 1]);
    assert_eq!(c[0].images, vec![9, 9]);
    assert_eq!(c[1].ids, vec![2, 3]);
    assert_eq!(c[1].images, vec![8, 8]);
    let c = chunks(&[9, 8, 7, 6, 5], 5, 2, false);
    assert_eq!(c.len(), 3);
    assert_eq!(c[1].ids, vec![7, 6]);
    assert_eq!(c[1].images, vec![7, 6]);
    assert_eq!(c[2].ids, vec![5]);
    assert_eq!(c[2].images, vec![5]);
}

#[test]
fn frozen_slots_are_convolution_weights() {
    assert_eq!(frozen_slots(Blocks::Conv, 13, true), 12);
    assert_eq!(frozen_slots(Blocks::Conv, 13, false), 0);
    assert_eq!(frozen_slots(Blocks::Identity, 1, true), 0);
    let k = factored_sigma(Blocks::Identity, 1, 1, 0, true);
    assert_eq!(k, vec![SigmaKind::Relative, SigmaKind::Relative]);
}

#[test]
fn places_of_site_slots() {
    assert_eq!(
        qam_slots(13, 13, &[7, 2]),
        vec![
            SiteSlots { site: 7, param: 26, dense: 13 },
            SiteSlots { site: 2, param: 28, dense: 15 }
        ]
    );
    assert_eq!(
        vth_slots(13, 13, 2, &[0, 1]),
        vec![
            SiteSlots { site: 0, param: 30, dense: 17 },
            SiteSlots { site: 1, param: 31, dense: 18 }
        ]
    );
}

#[test]
fn a_mixed_run() {
    let a = mixed_args();
    let p = match plan_mixed(&a, 10) {
        Ok(p) => p,
        Err(e) => panic!("{:?}", e),
    };
    assert_eq!(p.sites, vec![0, 1, 2, 3, 4]);
    assert_eq!(p.thresholds.len(), 8);
    let e = mixed_epoch(&a, 2, 10);
    assert_eq!(e.seed, 9);
    assert_eq!(e.doublings, Some(2));
    assert_eq!(e.lr, LrPhase::Cosine(2, 3));
    assert!(e.validate);
    assert_eq!(e.order, shuffled_indices(10, 9));
    assert_eq!(e.chunks.len(), 3);
    assert_eq!(e.chunks[1].images, vec![4, 5, 6, 7]);
    assert_eq!(e.chunks[2].ids, vec![8, 9]);
    let k = mixed_sigma(2, 2, 1, 2);
    assert_eq!(
        k,
        vec![
            SigmaKind::Zero,
            SigmaKind::Zero,
            SigmaKind::Zero,
            SigmaKind::Zero,
            SigmaKind::Amplitude,
            SigmaKind::Phase,
            SigmaKind::Threshold,
            SigmaKind::Threshold
        ]
    );
}

#[test]
fn mixed_runs_that_cannot_start() {
    let mut a = mixed_args();
    a.weights = None;
    assert!(matches!(plan_mixed(&a, 10), Err(PlanError::NoWeights)));
    let mut a = mixed_args();
    a.es_chunk = 0;
    assert!(matches!(plan_mixed(&a, 10), Err(PlanError::ZeroChunk)));
    assert!(plan_mixed(&mixed_args(), 9).is_ok());
    assert!(matches!(plan_mixed(&mixed_args(), 7), Err(PlanError::PopTooLarge)));
    let mut a = mixed_args();
    a.qam_sites = "x".to_string();
    assert!(matches!(plan_mixed(&a, 10), Err(PlanError::UnknownSites)));
}

#[test]
fn an_epoch_steps_once_for_each_generation() {
    let mut a = es_args();
    a.pop = 2;
    a.es_batch = 2;
    let p = match plan_cache(&a, 9) {
        Ok(p) => p,
        Err(e) => panic!("{:?}", e),
    };
    let order: Vec<usize> = (0..9).collect();
    let r = cache_epoch(
        &p,
        &order,
        "p".to_string(),
        &|s: &String| format!("<{}", s),
        &|_: &String, c: usize, imgs: &Vec<usize>, acc: String| {
            format!("{} {}:{}-{}", acc, c, imgs[0], imgs[1])
        },
        &|_: String, acc: String| format!("{}>", acc),
    );
    assert_eq!(r, "<<p 0:0-1 1:2-3> 0:4-5 1:6-7>");
}

#[test]
fn chunks_are_rated_in_order() {
    let c = chunks(&[3, 1, 2, 0], 4, 2, false);
    let r = rate_chunks(&c, 1usize, &|c: &rust_sdt::es_plan::Chunk, acc: usize| {
        acc * 10 + c.images[0]
    });
    assert_eq!(r, 132);
}

#[test]
fn frozen_parameters_are_put_back() {
    let mut p = vec![1, 2, 3, 4];
    restore_front(&mut p, vec![9, 8]);
    assert_eq!(p, vec![9, 8, 3, 4]);
}

#[test]
fn frozen_parameters_survive_a_step() {
    let step = |p: Vec<i32>| p.into_iter().map(|x| x * 10).collect::<Vec<i32>>();
    let keep = |m: &i32| *m;
    assert_eq!(frozen_step(vec![1, 2, 3, 4], 2, &keep, &step), vec![1, 2, 30, 40]);
    assert_eq!(frozen_step(vec![1, 2], 0, &keep, &step), vec![10, 20]);
    assert_eq!(frozen_step(vec![1, 2], 2, &keep, &step), vec![1, 2]);
}

#[test]
fn epochs_of_a_run() {
    let step = |mut p: Vec<(u32, Vec<usize>, bool)>, k: u32, order: &Vec<usize>, validate: bool| {
        p.push((k, order.clone(), validate));
        p
    };
    let r = run_epochs(42, 4, 2, 6, Vec::new(), &step);
    assert_eq!(r.len(), 4);
    for k in 0..4u32 {
        let (epoch, order, validate) = &r[k as usize];
        assert_eq!(*epoch, k);
        assert_eq!(*order, shuffled_indices(6, 42 + k as u64));
        assert_eq!(*validate, k != 1);
    }
    assert!(run_epochs(u64::MAX, 0, 1, 6, Vec::new(), &step).is_empty());
}

#[test]
fn batches_of_an_epoch() {
    let step = |p: String, v: &Vec<usize>| format!("{}{:?}", p, v);
    let (r, steps) = train_epoch(&[4, 0, 3, 1, 2], 2, String::new(), &step);
    assert_eq!(r, "[4, 0][3, 1][2]");
    assert_eq!(steps, 3);
    assert_eq!(train_epoch(&[], 2, "p".to_string(), &step), ("p".to_string(), 0));
}

#[test]
fn right_answers_are_counted() {
    let labels: Vec<i64> = vec![3, 1, 4, 1, 5];
    let predict = |v: &Vec<usize>| {
        (v.iter().map(|_| 1i64).collect::<Vec<i64>>(), v.iter().map(|i| labels[*i]).collect())
    };
    assert_eq!(evaluate(5, 2, &predict), 2);
    assert_eq!(evaluate(5, 100, &predict), 2);
    assert_eq!(evaluate(0, 2, &predict), 0);
}

#[test]
fn a_factored_run_makes_each_epoch() {
    let a = es_args();
    let p = match plan_factored(&a, 8) {
        Ok(p) => p,
        Err(e) => panic!("{:?}", e),
    };
    let step = |mut s: Vec<(u32, u64, bool, usize)>, e: &FactoredEpoch, k: u32| {
        s.push((k, e.seed, e.validate, e.frozen));
        s
    };
    assert_eq!(
        factored_run(&a, &p, 3, 5, 8, Vec::new(), &step),
        vec![(0, 42, true, 2), (1, 43, false, 2), (2, 44, true, 2), (3, 45, true, 2)]
    );
}

#[test]
fn a_mixed_run_makes_each_epoch() {
    let a = mixed_args();
    let step = |mut s: Vec<(u32, u64, bool)>, e: &MixedEpoch, k: u32| {
        s.push((k, e.seed, e.validate));
        s
    };
    assert_eq!(
        mixed_run(&a, 10, Vec::new(), &step),
        vec![(0, 7, true), (1, 8, false), (2, 9, true)]
    );
}

#[test]
fn anchors_stand_at_their_images() {
    let parts = rust_sdt::loader::batches(7, 3);
    let r = zero_noise_anchors(&parts, &|lo: usize, hi: usize| (lo..hi).collect::<Vec<usize>>());
    assert_eq!(r, vec![0, 1, 2, 3, 4, 5, 6]);
}

#[test]
fn training_starts_from_a_file_or_at_random() {
    let mut a = default_train_args("cifar10_s", 2, "data", 42);
    assert_eq!((a.batch_size, a.time_steps, a.no_calibrate), (32, 4, false));
    assert!(matches!(plan_train(&a), Ok(InitialWeights::Random(42))));
    a.weights = Some("w.npz".to_string());
    match plan_train(&a) {
        Ok(InitialWeights::File(f)) => assert_eq!(f, "w.npz"),
        _ => panic!("a file was named"),
    }
    a.batch_size = 0;
    assert!(matches!(plan_train(&a), Err(TrainError::ZeroBatch)));
    a.preset = "imagenet".to_string();
    assert!(matches!(plan_train(&a), Err(TrainError::UnknownPreset)));
}

#[test]
fn switches() {
    assert!(batch_sync_enabled(None));
    assert!(!batch_sync_enabled(Some("0")));
    assert!(!switch_on(None));
    assert!(switch_on(Some("1")));
    assert!(!switch_on(Some("true")));
    assert!(eval_on_autodiff(Some("autodiff")));
    assert!(!eval_on_autodiff(Some("inner")));
    assert!(!eval_on_autodiff(None));
}

#[test]
fn progress_is_reported_every_ten_batches() {
    assert_eq!(train_progress(320, 32), (10, true));
    assert_eq!(train_progress(352, 32), (11, false));
    assert_eq!(train_progress(20, 32), (0, true));
    assert!(eval_progress(20));
    assert!(!eval_progress(21));
}

#[test]
fn the_memory_probe() {
    assert_eq!(parse_u32("+17"), Some(17));
    assert_eq!(parse_u32("4294967296"), None);
    assert_eq!(probe_number(Some("x")), 0);
    assert_eq!(probe_number(None), 0);
    assert_eq!(probe_stage(0), ProbeStage::Kernel);
    assert_eq!(probe_stage(2), ProbeStage::Backward);
    assert_eq!(probe_stage(3), ProbeStage::Step);
    assert_eq!(probe_stage(4), ProbeStage::Epoch);
    assert_eq!(probe_stage(5), ProbeStage::Run);
    assert_eq!(probe_stage(6), ProbeStage::Step);
    assert_eq!(probe_sync_every(None), 20);
    assert_eq!(probe_sync_every(Some("3")), 3);
    assert_eq!(probe_batch(3, 4, 10), vec![0, 1, 2, 3]);
    assert_eq!(probe_batch(2, 4, 10), vec![2, 3, 4, 5]);
}
