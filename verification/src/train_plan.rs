//! Decisions of training by gradients and of the memory probe.

use crate::options;
use crate::options::{preset_known, weights_path};
use crate::text;
use vstd::prelude::*;

verus! {

/// Options of a training run. The learning rate is a real number and stands elsewhere.
#[derive(Clone, Debug)]
pub struct TrainArgs {
    pub preset: String,
    pub epochs: u32,
    pub data_dir: String,
    pub seed: u64,
    /// File of initial weights; drawn at random if none is named.
    pub weights: Option<String>,
    pub batch_size: usize,
    pub time_steps: usize,
    pub no_calibrate: bool,
}

/// Where the weights of a run come from.
#[derive(Clone, Debug)]
pub enum InitialWeights {
    File(String),
    /// Drawn at random with this seed.
    Random(u64),
}

/// Why a training run cannot start.
#[derive(Clone, Copy, Debug, PartialEq, Eq, Structural)]
pub enum TrainError {
    UnknownPreset,
    /// Batches without images.
    ZeroBatch,
}

/// A text as a value of its own.
fn copy_text(s: &str) -> (r: String)
    ensures
        r@ == s@,
{
    let c = text::chars_of(s);
    text::string_of(c.as_slice())
}

/// The options of a run of which only the most important are given.
pub fn default_train_args(preset: &str, epochs: u32, data_dir: &str, seed: u64) -> (r: TrainArgs)
    ensures
        r.preset@ == preset@,
        r.epochs == epochs,
        r.data_dir@ == data_dir@,
        r.seed == seed,
        r.weights is None,
        r.batch_size == 32,
        r.time_steps == 4,
        !r.no_calibrate,
{
    TrainArgs {
        preset: copy_text(preset),
        epochs,
        data_dir: copy_text(data_dir),
        seed,
        weights: None,
        batch_size: 32,
        time_steps: 4,
        no_calibrate: false,
    }
}

/// Why a training run cannot start. Batches are only needed by an epoch.
pub open spec fn train_error(args: TrainArgs) -> Option<TrainError> {
    if args.preset@ != "cifar10_s"@ {
        Some(TrainError::UnknownPreset)
    } else if args.batch_size == 0 && args.epochs > 0 {
        Some(TrainError::ZeroBatch)
    } else {
        None
    }
}

/// The file that the weights come from, if one is named.
pub open spec fn weights_file(args: TrainArgs) -> Option<Seq<char>> {
    match args.weights {
        Some(w) => if w@.len() > 0 {
            Some(w@)
        } else {
            None
        },
        None => None,
    }
}

/// Checks the options and says where the weights come from. Batches are only needed by an epoch.
pub fn plan_train(args: &TrainArgs) -> (r: Result<InitialWeights, TrainError>)
    ensures
        match r {
            Err(e) => train_error(*args) == Some(e),
            Ok(w) => {
                &&& train_error(*args) is None
                &&& match w {
                    InitialWeights::File(f) => weights_file(*args) == Some(f@),
                    InitialWeights::Random(s) => s == args.seed && weights_file(*args) is None,
                }
            },
        },
{
    if !preset_known(args.preset.as_str()) {
        return Err(TrainError::UnknownPreset);
    }
    if args.batch_size == 0 && args.epochs > 0 {
        return Err(TrainError::ZeroBatch);
    }
    match weights_path(&args.weights) {
        Some(w) => Ok(InitialWeights::File(copy_text(w.as_str()))),
        None => Ok(InitialWeights::Random(args.seed)),
    }
}

/// Whether the device is waited for after each batch, given the value of the switch in the
/// environment: it is, unless the switch is set to `0`.
pub fn batch_sync_enabled(var: Option<&str>) -> (r: bool)
    ensures
        r == text::on_unless(var, "0"@),
{
    match var {
        Some(v) => !text::same(v, "0"),
        None => true,
    }
}

/// Whether memory is given back after each batch, or another switch is on: only the text `1`
/// turns it on.
pub fn switch_on(var: Option<&str>) -> (r: bool)
    ensures
        r == text::on_only(var, "1"@),
{
    match var {
        Some(v) => text::same(v, "1"),
        None => false,
    }
}

/// Whether evaluation keeps a graph of gradients, given the value of the switch in the
/// environment: only if it asks for that.
pub fn eval_on_autodiff(var: Option<&str>) -> (r: bool)
    ensures
        r == text::on_only(var, "autodiff"@),
{
    match var {
        Some(v) => text::same(v, "autodiff"),
        None => false,
    }
}

/// Batches between two progress messages.
pub const PROGRESS_EVERY: usize = 10;

/// Whether a batch is reported.
pub open spec fn reported(batch: int) -> bool {
    batch % (PROGRESS_EVERY as int) == 0
}

/// The number of the batch that so many images end.
pub open spec fn batch_number(n_samples: int, batch_size: int) -> int {
    n_samples / batch_size
}

/// The number of the batch that was just trained on and whether to report it. Batches are
/// counted by the images seen, in whole batches.
pub fn train_progress(n_samples: usize, batch_size: usize) -> (r: (usize, bool))
    requires
        batch_size > 0,
    ensures
        r.0 == batch_number(n_samples as int, batch_size as int),
        r.1 == reported(r.0 as int),
{
    let k: usize = n_samples / batch_size;
    (k, k % PROGRESS_EVERY == 0)
}

/// Whether to report an evaluation batch, counted from 1.
pub fn eval_progress(batch: usize) -> (r: bool)
    ensures
        r == reported(batch as int),
{
    batch % PROGRESS_EVERY == 0
}

/// A number of 32 bits that a text stands for.
pub fn parse_u32(s: &str) -> (r: Option<u32>)
    ensures
        match r {
            Some(n) => text::number_of(s@, u32::MAX as int) == Some(n as int),
            None => text::number_of(s@, u32::MAX as int) is None,
        },
{
    let c = text::chars_of(s);
    match text::parse_usize(c.as_slice()) {
        Some(n) => {
            if n <= u32::MAX as usize {
                Some(n as u32)
            } else {
                None
            }
        }
        None => None,
    }
}

/// What the memory probe runs.
#[derive(Clone, Copy, Debug, PartialEq, Eq, Structural)]
pub enum ProbeStage {
    /// One convolution, again and again.
    Kernel,
    /// Forward passes of the network.
    Forward,
    /// Gradients as well.
    Backward,
    /// Steps of the optimizer as well.
    Step,
    /// An epoch of training.
    Epoch,
    /// A whole training run.
    Run,
}

/// The stage with a number.
pub open spec fn stage_of(n: int) -> ProbeStage {
    if n == 0 {
        ProbeStage::Kernel
    } else if n == 1 {
        ProbeStage::Forward
    } else if n == 2 {
        ProbeStage::Backward
    } else if n == 4 {
        ProbeStage::Epoch
    } else if n == 5 {
        ProbeStage::Run
    } else {
        ProbeStage::Step
    }
}

/// The number that a switch of the environment is set to, or another if it is set to none.
pub open spec fn number_or(var: Option<&str>, other: int) -> int {
    match var {
        Some(v) => match text::number_of(v@, u32::MAX as int) {
            Some(k) => k,
            None => other,
        },
        None => other,
    }
}

/// The number of the probe's stage, given the value of the switch in the environment: 0 if it is
/// not set to a number.
pub fn probe_number(var: Option<&str>) -> (n: u32)
    ensures
        n == number_or(var, 0),
{
    match var {
        Some(v) => match parse_u32(v) {
            Some(k) => k,
            None => 0,
        },
        None => 0,
    }
}

/// The stage with a number.
pub fn probe_stage(n: u32) -> (r: ProbeStage)
    ensures
        r == stage_of(n as int),
{
    if n == 0 {
        ProbeStage::Kernel
    } else if n == 1 {
        ProbeStage::Forward
    } else if n == 2 {
        ProbeStage::Backward
    } else if n == 4 {
        ProbeStage::Epoch
    } else if n == 5 {
        ProbeStage::Run
    } else {
        ProbeStage::Step
    }
}

/// Iterations between two waits for the device in the convolution stage.
pub const KERNEL_SYNC_EVERY: u32 = 50;

/// Iterations between two waits for the device in the other stages, given the value of the
/// switch in the environment: 20 if it is not set to a number.
pub fn probe_sync_every(var: Option<&str>) -> (n: u32)
    ensures
        n == number_or(var, 20),
{
    match var {
        Some(v) => match parse_u32(v) {
            Some(k) => k,
            None => 20,
        },
        None => 20,
    }
}

/// Where the window of iteration `i` starts.
pub open spec fn window(i: int, b: int, n_train: int) -> int {
    (i * b) % (n_train - b)
}

/// The images of iteration `i`: a window of `b` that wanders over the data.
pub fn probe_batch(i: u32, b: usize, n_train: usize) -> (r: Vec<usize>)
    requires
        b < n_train,
        i * b <= usize::MAX,
        i <= usize::MAX,
    ensures
        r@.len() == b,
        forall|k: int|
            0 <= k < b ==> #[trigger] r@[k] == window(i as int, b as int, n_train as int) + k
                && r@[k] < n_train,
{
    let m: usize = n_train - b;
    let at: usize = (i as usize) * b;
    let lo: usize = at % m;
    let mut r: Vec<usize> = Vec::new();
    let mut k: usize = 0;
    while k < b
        invariant
            k <= b,
            b < n_train,
            m == n_train - b,
            lo < m,
            r@.len() == k,
            forall|j: int| 0 <= j < k ==> #[trigger] r@[j] == lo + j && r@[j] < n_train,
        decreases b - k,
    {
        r.push(lo + k);
        k += 1;
    }
    r
}

/// The stages of the memory probe go up in what they run, and a number that none has means the
/// optimizer's steps.
pub proof fn stages_in_full(n: int)
    ensures
        stage_of(n) is Kernel <==> n == 0,
        stage_of(n) is Forward <==> n == 1,
        stage_of(n) is Backward <==> n == 2,
        stage_of(n) is Epoch <==> n == 4,
        stage_of(n) is Run <==> n == 5,
        stage_of(n) is Step <==> n == 3 || n < 0 || n > 5,
{
}

/// A run starts exactly with the one preset there is, and with batches that hold something if there
/// is an epoch. Its weights come from the file that is named, and are drawn if the name is empty or
/// there is none.
pub proof fn training_starts_if(args: TrainArgs, f: String)
    ensures
        train_error(args) is None <==> args.preset@ == "cifar10_s"@ && (args.batch_size > 0
            || args.epochs == 0),
        train_error(args) == Some(TrainError::UnknownPreset) <==> args.preset@ != "cifar10_s"@,
        args.weights == Some(f) && f@.len() > 0 ==> weights_file(args) == Some(f@),
        args.weights == Some(f) && f@.len() == 0 ==> weights_file(args) is None,
        args.weights is None ==> weights_file(args) is None,
{
}

/// Of ten batches in a row exactly one is reported, and batches of the same size are numbered one
/// after the other.
pub proof fn one_batch_in_ten_is_reported(batch: int, size: int, k: int)
    requires
        0 <= batch,
        0 < size,
        0 < k < 10,
    ensures
        reported(batch) ==> !reported(batch + k),
        reported(batch) <==> reported(batch + 10),
        reported(0),
        batch_number(batch * size, size) == batch,
{
    vstd::arithmetic::div_mod::lemma_div_by_multiple(batch, size);
}

/// A number in the environment counts, and anything else is as if nothing were set.
pub proof fn numbers_are_set_or_not(v: &str, other: int)
    ensures
        text::number_of(v@, u32::MAX as int) is Some ==> Some(number_or(Some(v), other))
            == text::number_of(v@, 0xFFFF_FFFF),
        text::number_of(v@, u32::MAX as int) is None ==> number_or(Some(v), other) == other,
        number_or(None, other) == other,
{
}

/// The window of the probe starts with the first images, stays within the data, and moves on by its
/// own width while there is room.
pub proof fn windows_move_on(i: int, b: int, n_train: int)
    requires
        0 <= i,
        0 < b,
        b < n_train,
    ensures
        window(0, b, n_train) == 0,
        0 <= window(i, b, n_train) < n_train - b,
        window(i, b, n_train) + b < n_train - b ==> window(i + 1, b, n_train) == window(
            i,
            b,
            n_train,
        ) + b,
{
    let m = n_train - b;
    let a = i * b;
    assert((i + 1) * b == a + b) by (nonlinear_arith)
        requires
            a == i * b,
    ;
    assert(0 * b == 0);
    vstd::arithmetic::div_mod::lemma_fundamental_div_mod(a, m);
    vstd::arithmetic::div_mod::lemma_mod_bound(a, m);
    let q = a / m;
    let r = a % m;
    if r + b < m {
        assert(a + b == q * m + (r + b)) by (nonlinear_arith)
            requires
                a == m * q + r,
        ;
        vstd::arithmetic::div_mod::lemma_fundamental_div_mod_converse(a + b, m, q, r + b);
    }
}

} // verus!
