//! Options of the training runs and what their texts select.

use crate::factored;
use crate::factored::Blocks;
use crate::net;
use crate::schedule::Relaxation;
use crate::text;
use vstd::prelude::*;

verus! {

/// Options of a run of the evolution strategy. The amounts of noise, of learning and of
/// relaxation are real numbers and stand elsewhere.
#[derive(Clone, Debug)]
pub struct EsArgs {
    pub epochs: u32,
    pub data_dir: String,
    pub seed: u64,
    pub weights: Option<String>,
    pub time_steps: usize,
    pub no_calibrate: bool,
    /// Candidates of a generation; candidates `2k` and `2k + 1` are an antisymmetric pair.
    pub pop: usize,
    /// Images that each candidate is rated on.
    pub es_batch: usize,
    /// Rank of the weight noise.
    pub rank: usize,
    /// Epochs between two validations.
    pub validate_every: u32,
    pub csv_out: String,
    /// `factored` for noise factors that are made as they are needed; anything else keeps the
    /// noise of all candidates in memory.
    pub mode: String,
    /// Candidates that are rated together.
    pub chunk: usize,
    /// Whether spikes are relaxed to a smooth function while candidates are rated.
    pub relax: bool,
    /// Epochs after which the relaxation gets twice as sharp; 0 for never.
    pub beta_anneal_every: u32,
    /// `ssa` to relax the attention sites only.
    pub relax_scope: String,
    /// Epochs of linear warm-up; 0 for a constant rate.
    pub lr_warmup: u32,
    /// Whether candidates are rated with hard spikes once the sharpness limit is reached.
    pub hard_at_16: bool,
    pub qam: String,
    pub qam_sites: String,
    /// Whether both candidates of a pair see the same image.
    pub pair_shared: bool,
    pub blocks: String,
    /// Whether the weights of block convolutions stay as they are.
    pub freeze_lora: bool,
    /// Whether each rating is taken relative to that of the noiseless network on the image.
    pub baseline_zero: bool,
    /// Whether the noise of each slot adapts.
    pub sigma_adapt: bool,
    /// Epochs between two adaptations.
    pub sigma_adapt_every: u32,
}

/// Options of a run that trains weights by gradients and thresholds and modulation by the
/// evolution strategy.
#[derive(Clone, Debug)]
pub struct MixedArgs {
    pub epochs: u32,
    pub data_dir: String,
    pub seed: u64,
    pub weights: Option<String>,
    pub time_steps: usize,
    pub no_calibrate: bool,
    pub batch_size: usize,
    pub es_pop: usize,
    pub es_chunk: usize,
    pub beta_anneal_every: u32,
    pub qam: String,
    pub qam_sites: String,
    pub validate_every: u32,
    pub csv_out: String,
}

/// Why a run cannot start.
#[derive(Clone, Copy, Debug, PartialEq, Eq, Structural)]
pub enum PlanError {
    /// The number of candidates is odd, so that pairs are incomplete.
    OddPop,
    ZeroRank,
    /// A generation without images.
    EmptyGeneration,
    /// A generation needs more images than there are.
    TooManyImages,
    /// One image for each candidate is needed.
    EsBatch,
    /// More candidates than images.
    PopTooLarge,
    /// Candidates are rated none at a time.
    ZeroChunk,
    NoWeights,
    /// The fully connected network has no noiseless rating.
    AnchorsUnsupported,
    UnknownQam,
    UnknownSites,
    UnknownBlocks,
}

/// The network that a text names.
pub open spec fn blocks_of(s: Seq<char>) -> Option<Blocks> {
    if s == "conv"@ {
        Some(Blocks::Conv)
    } else if s == "none"@ {
        Some(Blocks::Identity)
    } else if s == "probe"@ {
        Some(Blocks::Probe)
    } else if s == "fc"@ {
        Some(Blocks::Fc)
    } else {
        None
    }
}

/// The network that a text names.
pub fn parse_blocks(s: &str) -> (r: Option<Blocks>)
    ensures
        r == blocks_of(s@),
{
    if text::same(s, "conv") {
        Some(Blocks::Conv)
    } else if text::same(s, "none") {
        Some(Blocks::Identity)
    } else if text::same(s, "probe") {
        Some(Blocks::Probe)
    } else if text::same(s, "fc") {
        Some(Blocks::Fc)
    } else {
        None
    }
}

/// The name of a network.
pub open spec fn blocks_name(b: Blocks) -> Seq<char> {
    match b {
        Blocks::Conv => "conv"@,
        Blocks::Identity => "none"@,
        Blocks::Probe => "probe"@,
        Blocks::Fc => "fc"@,
    }
}

/// Every network is found under its name.
pub proof fn block_names_read_back(b: Blocks)
    ensures
        blocks_of(blocks_name(b)) == Some(b),
{
    reveal_strlit("conv");
    reveal_strlit("none");
    reveal_strlit("probe");
    reveal_strlit("fc");
    assert("conv"@.len() == 4 && "none"@.len() == 4 && "probe"@.len() == 5 && "fc"@.len() == 2);
    assert("conv"@[0] != "none"@[0]);
}

/// The modulated sites of a network with attention.
pub open spec fn attention_sites(sites: Seq<char>) -> Result<Seq<usize>, PlanError> {
    if sites == "head"@ {
        Ok(seq![7usize])
    } else if sites == "ssa"@ {
        Ok(seq![0usize, 1, 2, 3, 4])
    } else if sites == "all"@ {
        Ok(seq![0usize, 1, 2, 3, 4, 5, 6, 7])
    } else {
        Err(PlanError::UnknownSites)
    }
}

/// The modulated sites of the fully connected network.
pub open spec fn fc_sites(sites: Seq<char>) -> Result<Seq<usize>, PlanError> {
    if sites == "head"@ {
        Ok(seq![0usize])
    } else if sites == "ssa"@ || sites == "all"@ {
        Ok(seq![0usize, 1])
    } else {
        Err(PlanError::UnknownSites)
    }
}

/// The modulated sites: none for a probe or if modulation is off.
pub open spec fn chosen_sites(
    blocks: Option<Blocks>,
    qam: Seq<char>,
    sites: Seq<char>,
) -> Result<Seq<usize>, PlanError> {
    if blocks == Some(Blocks::Probe) {
        Ok(Seq::empty())
    } else if qam == "off"@ {
        Ok(Seq::empty())
    } else if qam != "learnable"@ {
        Err(PlanError::UnknownQam)
    } else if blocks == Some(Blocks::Fc) {
        fc_sites(sites)
    } else {
        attention_sites(sites)
    }
}

/// Chooses the modulated sites.
pub fn choose_sites(blocks: Option<Blocks>, qam: &str, sites: &str) -> (r: Result<
    Vec<usize>,
    PlanError,
>)
    ensures
        match (r, chosen_sites(blocks, qam@, sites@)) {
            (Ok(v), Ok(w)) => v@ == w,
            (Err(e), Err(f)) => e == f,
            _ => false,
        },
{
    match blocks {
        Some(Blocks::Probe) => {
            return Ok(Vec::new());
        }
        _ => {}
    }
    if text::same(qam, "off") {
        return Ok(Vec::new());
    }
    if !text::same(qam, "learnable") {
        return Err(PlanError::UnknownQam);
    }
    let fc = match blocks {
        Some(Blocks::Fc) => true,
        _ => false,
    };
    let head = text::same(sites, "head");
    let ssa = text::same(sites, "ssa");
    let all = text::same(sites, "all");
    let mut v: Vec<usize> = Vec::new();
    if fc {
        if head {
            v.push(0);
        } else if ssa || all {
            v.push(0);
            v.push(1);
        } else {
            return Err(PlanError::UnknownSites);
        }
        assert(v@ =~= fc_sites(sites@)->Ok_0);
        return Ok(v);
    }
    if head {
        v.push(7);
        assert(v@ =~= seq![7usize]);
    } else if ssa {
        push_below(&mut v, 5);
        assert(v@ =~= seq![0usize, 1, 2, 3, 4]);
    } else if all {
        push_below(&mut v, 8);
        assert(v@ =~= seq![0usize, 1, 2, 3, 4, 5, 6, 7]);
    } else {
        return Err(PlanError::UnknownSites);
    }
    Ok(v)
}

/// Appends the numbers below `n` to an empty list.
fn push_below(v: &mut Vec<usize>, n: usize)
    requires
        old(v)@.len() == 0,
    ensures
        final(v)@.len() == n,
        forall|i: int| 0 <= i < n ==> #[trigger] final(v)@[i] == i,
{
    let mut i: usize = 0;
    while i < n
        invariant
            i <= n,
            v@.len() == i,
            forall|j: int| 0 <= j < i ==> #[trigger] v@[j] == j,
        decreases n - i,
    {
        v.push(i);
        i += 1;
    }
}

/// The sites that can have a threshold of their own: all of them.
pub fn threshold_sites() -> (v: Vec<usize>)
    ensures
        v@ == seq![0usize, 1, 2, 3, 4, 5, 6, 7],
{
    let mut v: Vec<usize> = Vec::new();
    push_below(&mut v, 8);
    assert(v@ =~= seq![0usize, 1, 2, 3, 4, 5, 6, 7]);
    v
}

/// Chosen sites exist and are chosen once.
pub proof fn chosen_sites_are_valid(blocks: Option<Blocks>, qam: Seq<char>, sites: Seq<char>)
    requires
        chosen_sites(blocks, qam, sites) is Ok,
    ensures
        ({
            let v = chosen_sites(blocks, qam, sites)->Ok_0;
            &&& v.no_duplicates()
            &&& forall|i: int| 0 <= i < v.len() ==> (#[trigger] v[i]) < factored::QAM_SITES
            &&& blocks == Some(Blocks::Fc) ==> forall|i: int|
                0 <= i < v.len() ==> (#[trigger] v[i]) < 2
        }),
{
}

/// Whether a run keeps noise factors only while they are needed.
pub fn is_factored(mode: &str) -> (r: bool)
    ensures
        r == (mode@ == "factored"@),
{
    text::same(mode, "factored")
}

/// The file of initial weights, if one is named.
pub fn weights_path(weights: &Option<String>) -> (r: Option<&String>)
    ensures
        r == match *weights {
            Some(w) => if w@.len() > 0 {
                Some(&w)
            } else {
                None
            },
            None => None,
        },
{
    match weights {
        Some(w) => {
            let c = text::chars_of(w.as_str());
            if c.len() > 0 {
                Some(w)
            } else {
                None
            }
        }
        None => None,
    }
}

/// A directory without the separators at its end.
pub open spec fn without_slashes(s: Seq<char>) -> Seq<char>
    decreases s.len(),
{
    if s.len() > 0 && (s.last() == '/' || s.last() == '\\') {
        without_slashes(s.drop_last())
    } else {
        s
    }
}

/// The data file of a directory.
pub open spec fn data_file(dir: Seq<char>) -> Seq<char> {
    without_slashes(dir) + "/cifar10_data.npz"@
}

/// The data file that is read if that of the chosen directory does not exist.
pub fn fallback_data_file() -> (s: &'static str)
    ensures
        s@ == "artifacts/cifar10_data.npz"@,
{
    "artifacts/cifar10_data.npz"
}

/// The data file of a directory.
pub fn data_path(dir: &str) -> (s: String)
    ensures
        s@ == data_file(dir@),
{
    let mut c: Vec<char> = text::chars_of(dir);
    let mut done = false;
    while !done && c.len() > 0
        invariant
            without_slashes(c@) == without_slashes(dir@),
            done ==> c@ == without_slashes(dir@),
        decreases c@.len() + if done { 0int } else { 1int },
    {
        let last: char = c[c.len() - 1];
        if last == '/' || last == '\\' {
            let ghost before = c@;
            c.pop();
            assert(c@ =~= before.drop_last());
        } else {
            done = true;
        }
    }
    text::push_text(&mut c, "/cifar10_data.npz");
    text::string_of(c.as_slice())
}

/// The data file of a directory does not depend on separators at its end.
pub proof fn data_file_ignores_slashes(dir: Seq<char>, c: char)
    requires
        c == '/' || c == '\\',
    ensures
        data_file(dir.push(c)) == data_file(dir),
{
    assert(dir.push(c).drop_last() =~= dir);
}

/// Whether the preset is one that there is.
pub fn preset_known(preset: &str) -> (r: bool)
    ensures
        r == (preset@ == "cifar10_s"@),
{
    text::same(preset, "cifar10_s")
}

/// The words that networks are asked for by, and no others.
pub proof fn networks_are_asked_for_by_name(s: Seq<char>)
    ensures
        blocks_of(s) == Some(Blocks::Conv) <==> s == "conv"@,
        blocks_of(s) == Some(Blocks::Identity) <==> s == "none"@,
        blocks_of(s) == Some(Blocks::Probe) <==> s == "probe"@,
        blocks_of(s) == Some(Blocks::Fc) <==> s == "fc"@,
        blocks_of(s) is None <==> s != "conv"@ && s != "none"@ && s != "probe"@ && s != "fc"@,
{
    block_names_read_back(Blocks::Conv);
    block_names_read_back(Blocks::Identity);
    block_names_read_back(Blocks::Probe);
    block_names_read_back(Blocks::Fc);
    reveal_strlit("conv");
    reveal_strlit("none");
    reveal_strlit("probe");
    reveal_strlit("fc");
    assert("conv"@.len() == 4 && "none"@.len() == 4 && "probe"@.len() == 5 && "fc"@.len() == 2);
    assert("conv"@[0] != "none"@[0]);
}

/// Which sites are modulated. A probe has none, and nothing has any unless modulation is to be
/// learned. With attention the head is site 7, attention are the sites whose spikes are relaxed
/// with attention, and all are the eight of them. The fully connected network has two, of which
/// the first stands for the head.
pub proof fn sites_are_chosen_by_scope(
    blocks: Option<Blocks>,
    qam: Seq<char>,
    sites: Seq<char>,
    site: usize,
    relax: Relaxation,
)
    requires
        relax.ssa != relax.mlp,
    ensures
        ({
            let r = chosen_sites(blocks, qam, sites);
            let learned = qam == "learnable"@ && blocks != Some(Blocks::Probe);
            let known = sites == "head"@ || sites == "ssa"@ || sites == "all"@;
            let fc = blocks == Some(Blocks::Fc);
            &&& r is Ok <==> blocks == Some(Blocks::Probe) || qam == "off"@ || learned && known
            &&& r is Ok && !learned ==> r->Ok_0.len() == 0
            &&& r is Err ==> r->Err_0 == if qam == "learnable"@ {
                PlanError::UnknownSites
            } else {
                PlanError::UnknownQam
            }
            &&& learned && !fc && sites == "head"@ ==> (r->Ok_0.contains(site) <==> site == 7)
            &&& learned && !fc && sites == "ssa"@ ==> (r->Ok_0.contains(site) <==> site < 8
                && net::relaxed_at(relax, site as int) == relax.ssa)
            &&& learned && !fc && sites == "all"@ ==> (r->Ok_0.contains(site) <==> site < 8)
            &&& learned && fc && sites == "head"@ ==> (r->Ok_0.contains(site) <==> site == 0)
            &&& learned && fc && (sites == "ssa"@ || sites == "all"@) ==> (r->Ok_0.contains(site)
                <==> site < 2)
        }),
{
    reveal_strlit("head");
    reveal_strlit("ssa");
    reveal_strlit("all");
    reveal_strlit("off");
    reveal_strlit("learnable");
    assert("head"@.len() == 4 && "ssa"@.len() == 3 && "all"@.len() == 3);
    assert("ssa"@[0] != "all"@[0]);
    assert("off"@.len() == 3 && "learnable"@.len() == 9);
    let head = seq![7usize];
    let ssa = seq![0usize, 1, 2, 3, 4];
    let all = seq![0usize, 1, 2, 3, 4, 5, 6, 7];
    let one = seq![0usize];
    let two = seq![0usize, 1];
    assert(head[0] == 7 && one[0] == 0 && two[0] == 0 && two[1] == 1);
    assert(ssa[0] == 0 && ssa[1] == 1 && ssa[2] == 2 && ssa[3] == 3 && ssa[4] == 4);
    assert(all[0] == 0 && all[1] == 1 && all[2] == 2 && all[3] == 3);
    assert(all[4] == 4 && all[5] == 5 && all[6] == 6 && all[7] == 7);
}

/// The file of the data set is in the directory, whatever slashes the directory's name ends in.
pub proof fn data_file_is_in_the_directory(dir: Seq<char>)
    requires
        dir.len() > 0,
        dir.last() != '/',
        dir.last() != '\\',
    ensures
        data_file(dir) == dir + "/cifar10_data.npz"@,
        data_file(dir.push('/')) == dir + "/cifar10_data.npz"@,
        data_file(dir.push('\\')) == dir + "/cifar10_data.npz"@,
{
    assert(dir.push('/').drop_last() =~= dir);
    assert(dir.push('\\').drop_last() =~= dir);
    reveal_with_fuel(without_slashes, 2);
}

} // verus!
