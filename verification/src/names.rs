//! Names of layers and tensors, as archives and calibration use them.

use crate::text;
use crate::weights;
use crate::weights::{LayerSel, F_WHICH};
use vstd::prelude::*;

verus! {

/// Name of a convolution within its block; 6 stands for the talking-heads matrix.
pub open spec fn which_name(which: int) -> Seq<char> {
    if which == 0 {
        "q"@
    } else if which == 1 {
        "k"@
    } else if which == 2 {
        "v"@
    } else if which == 3 {
        "proj"@
    } else if which == 4 {
        "fc1"@
    } else if which == 5 {
        "fc2"@
    } else {
        "th"@
    }
}

/// Name of part `which` of block `j`.
pub open spec fn blk_name(j: int, which: int) -> Seq<char> {
    "blk"@ + text::decimal(j as nat) + "_"@ + which_name(which)
}

/// Name of a layer.
pub open spec fn layer_name(sel: LayerSel) -> Seq<char> {
    match sel {
        LayerSel::PeProj(i) => "pe_proj"@ + text::decimal(i as nat),
        LayerSel::PeRpe => "pe_rpe"@,
        LayerSel::Blk { j, which } => blk_name(j as int, which as int),
        LayerSel::Head => "head"@,
    }
}

/// Name of the tensor at position `i` of the linear order.
pub open spec fn slot_name(depths: int, i: int) -> Seq<char> {
    layer_name(weights::layer_at(depths, i / 2)) + if i % 2 == 0 {
        "_w"@
    } else {
        "_b"@
    }
}

/// Name of the talking-heads matrix of block `j`.
pub open spec fn th_name(j: int) -> Seq<char> {
    blk_name(j, 6) + "_w"@
}

/// Name of part `which` of a block.
fn push_which(s: &mut Vec<char>, which: usize)
    ensures
        final(s)@ == old(s)@ + which_name(which as int),
{
    if which == 0 {
        text::push_text(s, "q");
    } else if which == 1 {
        text::push_text(s, "k");
    } else if which == 2 {
        text::push_text(s, "v");
    } else if which == 3 {
        text::push_text(s, "proj");
    } else if which == 4 {
        text::push_text(s, "fc1");
    } else if which == 5 {
        text::push_text(s, "fc2");
    } else {
        text::push_text(s, "th");
    }
}

/// Name of part `which` of block `j`.
pub fn blk_chars(j: usize, which: usize) -> (s: Vec<char>)
    ensures
        s@ == blk_name(j as int, which as int),
{
    let mut s: Vec<char> = Vec::new();
    text::push_text(&mut s, "blk");
    text::push_decimal(&mut s, j as u64);
    text::push_text(&mut s, "_");
    push_which(&mut s, which);
    assert(s@ =~= blk_name(j as int, which as int));
    s
}

/// Name of convolution `which` of block `j`.
pub fn blk_key(j: usize, which: usize) -> (s: String)
    requires
        which < F_WHICH,
    ensures
        s@ == blk_name(j as int, which as int),
{
    let c = blk_chars(j, which);
    text::string_of(c.as_slice())
}

/// Name of a layer.
pub fn layer_chars(sel: LayerSel) -> (s: Vec<char>)
    ensures
        s@ == layer_name(sel),
{
    match sel {
        LayerSel::PeProj(i) => {
            let mut s = text::chars_of("pe_proj");
            text::push_decimal(&mut s, i as u64);
            s
        },
        LayerSel::PeRpe => text::chars_of("pe_rpe"),
        LayerSel::Blk { j, which } => blk_chars(j, which),
        LayerSel::Head => text::chars_of("head"),
    }
}

/// Name of the tensor at position `i` of the linear order.
pub fn slot_key_name(depths: usize, i: usize) -> (s: String)
    requires
        i < weights::num_slots(depths as int) <= usize::MAX,
    ensures
        s@ == slot_name(depths as int, i as int),
{
    let mut c = layer_chars(weights::layer_sel(depths, i / 2));
    if i % 2 == 0 {
        text::push_text(&mut c, "_w");
    } else {
        text::push_text(&mut c, "_b");
    }
    text::string_of(c.as_slice())
}

/// Name of the talking-heads matrix of block `j`.
pub fn th_key_name(j: usize) -> (s: String)
    ensures
        s@ == th_name(j as int),
{
    let mut c = blk_chars(j, 6);
    text::push_text(&mut c, "_w");
    text::string_of(c.as_slice())
}

/// The layers to calibrate with their names: every layer, in forward order.
pub fn calib_layer_list(depths: usize) -> (list: Vec<(LayerSel, String)>)
    requires
        weights::num_layers(depths as int) <= usize::MAX,
    ensures
        list@.len() == weights::num_layers(depths as int),
        forall|l: int|
            0 <= l < list@.len() ==> {
                &&& (#[trigger] list@[l]).0 == weights::layer_at(depths as int, l)
                &&& list@[l].1@ == layer_name(list@[l].0)
            },
{
    let sels = weights::layer_list(depths);
    let mut list: Vec<(LayerSel, String)> = Vec::new();
    let mut l: usize = 0;
    while l < sels.len()
        invariant
            l <= sels@.len(),
            sels@ == Seq::new(
                weights::num_layers(depths as int) as nat,
                |l: int| weights::layer_at(depths as int, l),
            ),
            list@.len() == l,
            forall|k: int|
                0 <= k < l ==> {
                    &&& (#[trigger] list@[k]).0 == weights::layer_at(depths as int, k)
                    &&& list@[k].1@ == layer_name(list@[k].0)
                },
        decreases sels@.len() - l,
    {
        let sel = sels[l];
        let c = layer_chars(sel);
        list.push((sel, text::string_of(c.as_slice())));
        l += 1;
    }
    list
}

/// A valid part of a block.
pub open spec fn part_ok(sel: LayerSel) -> bool {
    match sel {
        LayerSel::PeProj(i) => i < 4,
        LayerSel::Blk { which, .. } => which <= 6,
        _ => true,
    }
}

/// Numbers with the same digits are the same.
proof fn decimal_injective(a: nat, b: nat)
    requires
        text::decimal(a) == text::decimal(b),
    ensures
        a == b,
{
    text::decimal_reads_back(a, (a + b) as int);
    text::decimal_reads_back(b, (a + b) as int);
}

/// Parts of one block have different names.
proof fn which_name_injective(a: int, b: int)
    requires
        0 <= a <= 6,
        0 <= b <= 6,
        which_name(a) == which_name(b),
    ensures
        a == b,
{
    reveal_strlit("q");
    reveal_strlit("k");
    reveal_strlit("v");
    reveal_strlit("proj");
    reveal_strlit("fc1");
    reveal_strlit("fc2");
    reveal_strlit("th");
    assert("q"@[0] == 'q' && "k"@[0] == 'k' && "v"@[0] == 'v' && "proj"@[0] == 'p');
    assert("th"@[0] == 't' && "fc1"@[0] == 'f' && "fc2"@[0] == 'f');
    assert("fc1"@[2] == '1' && "fc2"@[2] == '2');
    assert(which_name(a)[0] == which_name(b)[0]);
    if which_name(a).len() == 3 {
        assert(which_name(a)[2] == which_name(b)[2]);
    }
}

/// Parts of blocks have different names.
proof fn blk_name_injective(j: int, which: int, j2: int, which2: int)
    requires
        0 <= j,
        0 <= j2,
        0 <= which <= 6,
        0 <= which2 <= 6,
        blk_name(j, which) == blk_name(j2, which2),
    ensures
        j == j2,
        which == which2,
{
    reveal_strlit("blk");
    reveal_strlit("_");
    let n = blk_name(j, which);
    let a = text::decimal(j as nat);
    let b = text::decimal(j2 as nat);
    text::decimal_reads_back(j as nat, j);
    text::decimal_reads_back(j2 as nat, j2);
    let p = 3 + a.len() as int;
    let q = 3 + b.len() as int;
    assert(n[p] == '_' && n[q] == '_');
    if p < q {
        assert(n[p] == b[p - 3]);
        assert(text::is_digit(b[p - 3]));
    }
    if q < p {
        assert(n[q] == a[q - 3]);
        assert(text::is_digit(a[q - 3]));
    }
    assert(p == q);
    assert(a =~= n.subrange(3, p));
    assert(b =~= n.subrange(3, p));
    decimal_injective(j as nat, j2 as nat);
    assert(which_name(which) =~= n.skip(p + 1));
    assert(which_name(which2) =~= n.skip(p + 1));
    which_name_injective(which, which2);
}

/// Layers have different names.
pub proof fn layer_name_injective(a: LayerSel, b: LayerSel)
    requires
        part_ok(a),
        part_ok(b),
        layer_name(a) == layer_name(b),
    ensures
        a == b,
{
    reveal_strlit("pe_proj");
    reveal_strlit("pe_rpe");
    reveal_strlit("head");
    reveal_strlit("blk");
    reveal_strlit("_");
    let x = layer_name(a);
    let y = layer_name(b);
    assert(x[0] == y[0] && x[3] == y[3]);
    match (a, b) {
        (LayerSel::PeProj(i), LayerSel::PeProj(k)) => {
            assert(text::decimal(i as nat) =~= x.skip(7));
            assert(text::decimal(k as nat) =~= x.skip(7));
            decimal_injective(i as nat, k as nat);
        },
        (LayerSel::Blk { j, which }, LayerSel::Blk { j: j2, which: which2 }) => {
            blk_name_injective(j as int, which as int, j2 as int, which2 as int);
        },
        _ => {
            assert(x[0] == 'p' || x[0] == 'b' || x[0] == 'h');
        },
    }
}

/// The pass with the outputs of all layers has exactly the layers that are calibrated, in the same
/// order and each under a name of its own.
pub proof fn taps_are_the_calibrated_layers(
    depths: int,
    taps: Seq<(LayerSel, usize)>,
    list: Seq<(LayerSel, String)>,
    l: int,
    k: int,
)
    requires
        0 <= depths,
        weights::num_layers(depths) <= usize::MAX,
        // what `forward_taps` says of `taps`, and `calib_layer_list` of `list`
        taps.len() == weights::num_layers(depths),
        forall|i: int|
            0 <= i < taps.len() ==> (#[trigger] taps[i]).0 == weights::layer_at(depths, i),
        list.len() == weights::num_layers(depths),
        forall|i: int|
            0 <= i < list.len() ==> {
                &&& (#[trigger] list[i]).0 == weights::layer_at(depths, i)
                &&& list[i].1@ == layer_name(list[i].0)
            },
        0 <= l < list.len(),
        0 <= k < list.len(),
    ensures
        taps.len() == list.len() == 6 * depths + 6,
        taps[l].0 == list[l].0,
        list[l].1@ == list[k].1@ ==> l == k,
{
    let a = list[l].0;
    let b = list[k].0;
    if list[l].1@ == list[k].1@ {
        layer_name_injective(a, b);
    }
}

/// The names of tensors in full: those of the patch embedding, of every part of a block and of the
/// classifier, with `_w` for the weight and `_b` for the bias.
pub proof fn names_in_full(depths: int, j: int)
    requires
        0 <= j < depths <= usize::MAX,
    ensures
        slot_name(depths, 0) == "pe_proj0_w"@,
        slot_name(depths, 1) == "pe_proj0_b"@,
        slot_name(depths, 2) == "pe_proj1_w"@,
        slot_name(depths, 3) == "pe_proj1_b"@,
        slot_name(depths, 4) == "pe_proj2_w"@,
        slot_name(depths, 5) == "pe_proj2_b"@,
        slot_name(depths, 6) == "pe_proj3_w"@,
        slot_name(depths, 7) == "pe_proj3_b"@,
        slot_name(depths, 8) == "pe_rpe_w"@,
        slot_name(depths, 9) == "pe_rpe_b"@,
        th_name(j) == "blk"@ + text::decimal(j as nat) + "_th_w"@,
        slot_name(depths, 10 + 12 * j + 0) == "blk"@ + text::decimal(j as nat)
            + "_q_w"@,
        slot_name(depths, 10 + 12 * j + 1) == "blk"@ + text::decimal(j as nat)
            + "_q_b"@,
        slot_name(depths, 10 + 12 * j + 2) == "blk"@ + text::decimal(j as nat)
            + "_k_w"@,
        slot_name(depths, 10 + 12 * j + 3) == "blk"@ + text::decimal(j as nat)
            + "_k_b"@,
        slot_name(depths, 10 + 12 * j + 4) == "blk"@ + text::decimal(j as nat)
            + "_v_w"@,
        slot_name(depths, 10 + 12 * j + 5) == "blk"@ + text::decimal(j as nat)
            + "_v_b"@,
        slot_name(depths, 10 + 12 * j + 6) == "blk"@ + text::decimal(j as nat)
            + "_proj_w"@,
        slot_name(depths, 10 + 12 * j + 7) == "blk"@ + text::decimal(j as nat)
            + "_proj_b"@,
        slot_name(depths, 10 + 12 * j + 8) == "blk"@ + text::decimal(j as nat)
            + "_fc1_w"@,
        slot_name(depths, 10 + 12 * j + 9) == "blk"@ + text::decimal(j as nat)
            + "_fc1_b"@,
        slot_name(depths, 10 + 12 * j + 10) == "blk"@ + text::decimal(j as nat)
            + "_fc2_w"@,
        slot_name(depths, 10 + 12 * j + 11) == "blk"@ + text::decimal(j as nat)
            + "_fc2_b"@,
        slot_name(depths, 10 + 12 * depths) == "head_w"@,
        slot_name(depths, 11 + 12 * depths) == "head_b"@,
{
    patch_names();
    block_names(j);
    assert((10 + 12 * j + 0) / 2 == 5 + 6 * j + 0);
    assert((10 + 12 * j + 1) / 2 == 5 + 6 * j + 0);
    assert((6 * j + 0) / 6 == j && (6 * j + 0) % 6 == 0);
    assert((10 + 12 * j + 2) / 2 == 5 + 6 * j + 1);
    assert((10 + 12 * j + 3) / 2 == 5 + 6 * j + 1);
    assert((6 * j + 1) / 6 == j && (6 * j + 1) % 6 == 1);
    assert((10 + 12 * j + 4) / 2 == 5 + 6 * j + 2);
    assert((10 + 12 * j + 5) / 2 == 5 + 6 * j + 2);
    assert((6 * j + 2) / 6 == j && (6 * j + 2) % 6 == 2);
    assert((10 + 12 * j + 6) / 2 == 5 + 6 * j + 3);
    assert((10 + 12 * j + 7) / 2 == 5 + 6 * j + 3);
    assert((6 * j + 3) / 6 == j && (6 * j + 3) % 6 == 3);
    assert((10 + 12 * j + 8) / 2 == 5 + 6 * j + 4);
    assert((10 + 12 * j + 9) / 2 == 5 + 6 * j + 4);
    assert((6 * j + 4) / 6 == j && (6 * j + 4) % 6 == 4);
    assert((10 + 12 * j + 10) / 2 == 5 + 6 * j + 5);
    assert((10 + 12 * j + 11) / 2 == 5 + 6 * j + 5);
    assert((6 * j + 5) / 6 == j && (6 * j + 5) % 6 == 5);
    reveal_strlit("head");
    reveal_strlit("head_w");
    reveal_strlit("head_b");
    reveal_strlit("_w");
    reveal_strlit("_b");
    assert("head"@ + "_w"@ =~= "head_w"@);
    assert("head"@ + "_b"@ =~= "head_b"@);
}

/// The names of the patch embedding in full.
pub proof fn patch_names()
    ensures
        "pe_proj"@ + text::decimal(0) + "_w"@ == "pe_proj0_w"@,
        "pe_proj"@ + text::decimal(0) + "_b"@ == "pe_proj0_b"@,
        "pe_proj"@ + text::decimal(1) + "_w"@ == "pe_proj1_w"@,
        "pe_proj"@ + text::decimal(1) + "_b"@ == "pe_proj1_b"@,
        "pe_proj"@ + text::decimal(2) + "_w"@ == "pe_proj2_w"@,
        "pe_proj"@ + text::decimal(2) + "_b"@ == "pe_proj2_b"@,
        "pe_proj"@ + text::decimal(3) + "_w"@ == "pe_proj3_w"@,
        "pe_proj"@ + text::decimal(3) + "_b"@ == "pe_proj3_b"@,
        "pe_rpe"@ + "_w"@ == "pe_rpe_w"@,
        "pe_rpe"@ + "_b"@ == "pe_rpe_b"@,
{
    reveal_strlit("pe_proj");
    reveal_strlit("pe_rpe");
    reveal_strlit("_w");
    reveal_strlit("_b");
    reveal_strlit("pe_proj0_w");
    assert("pe_proj"@ + text::decimal(0) + "_w"@ =~= "pe_proj0_w"@);
    reveal_strlit("pe_proj0_b");
    assert("pe_proj"@ + text::decimal(0) + "_b"@ =~= "pe_proj0_b"@);
    reveal_strlit("pe_proj1_w");
    assert("pe_proj"@ + text::decimal(1) + "_w"@ =~= "pe_proj1_w"@);
    reveal_strlit("pe_proj1_b");
    assert("pe_proj"@ + text::decimal(1) + "_b"@ =~= "pe_proj1_b"@);
    reveal_strlit("pe_proj2_w");
    assert("pe_proj"@ + text::decimal(2) + "_w"@ =~= "pe_proj2_w"@);
    reveal_strlit("pe_proj2_b");
    assert("pe_proj"@ + text::decimal(2) + "_b"@ =~= "pe_proj2_b"@);
    reveal_strlit("pe_proj3_w");
    assert("pe_proj"@ + text::decimal(3) + "_w"@ =~= "pe_proj3_w"@);
    reveal_strlit("pe_proj3_b");
    assert("pe_proj"@ + text::decimal(3) + "_b"@ =~= "pe_proj3_b"@);
    reveal_strlit("pe_rpe_w");
    assert("pe_rpe"@ + "_w"@ =~= "pe_rpe_w"@);
    reveal_strlit("pe_rpe_b");
    assert("pe_rpe"@ + "_b"@ =~= "pe_rpe_b"@);
}

/// The names of a block in full.
pub proof fn block_names(j: int)
    ensures
        blk_name(j, 0) + "_w"@ == "blk"@ + text::decimal(j as nat) + "_q_w"@,
        blk_name(j, 0) + "_b"@ == "blk"@ + text::decimal(j as nat) + "_q_b"@,
        blk_name(j, 1) + "_w"@ == "blk"@ + text::decimal(j as nat) + "_k_w"@,
        blk_name(j, 1) + "_b"@ == "blk"@ + text::decimal(j as nat) + "_k_b"@,
        blk_name(j, 2) + "_w"@ == "blk"@ + text::decimal(j as nat) + "_v_w"@,
        blk_name(j, 2) + "_b"@ == "blk"@ + text::decimal(j as nat) + "_v_b"@,
        blk_name(j, 3) + "_w"@ == "blk"@ + text::decimal(j as nat) + "_proj_w"@,
        blk_name(j, 3) + "_b"@ == "blk"@ + text::decimal(j as nat) + "_proj_b"@,
        blk_name(j, 4) + "_w"@ == "blk"@ + text::decimal(j as nat) + "_fc1_w"@,
        blk_name(j, 4) + "_b"@ == "blk"@ + text::decimal(j as nat) + "_fc1_b"@,
        blk_name(j, 5) + "_w"@ == "blk"@ + text::decimal(j as nat) + "_fc2_w"@,
        blk_name(j, 5) + "_b"@ == "blk"@ + text::decimal(j as nat) + "_fc2_b"@,
        blk_name(j, 6) + "_w"@ == "blk"@ + text::decimal(j as nat) + "_th_w"@,
{
    let front = "blk"@ + text::decimal(j as nat);
    reveal_strlit("_");
    reveal_strlit("_w");
    reveal_strlit("_b");
    reveal_strlit("q");
    reveal_strlit("_q_w");
    assert(blk_name(j, 0) + "_w"@ =~= front + "_q_w"@);
    reveal_strlit("_q_b");
    assert(blk_name(j, 0) + "_b"@ =~= front + "_q_b"@);
    reveal_strlit("k");
    reveal_strlit("_k_w");
    assert(blk_name(j, 1) + "_w"@ =~= front + "_k_w"@);
    reveal_strlit("_k_b");
    assert(blk_name(j, 1) + "_b"@ =~= front + "_k_b"@);
    reveal_strlit("v");
    reveal_strlit("_v_w");
    assert(blk_name(j, 2) + "_w"@ =~= front + "_v_w"@);
    reveal_strlit("_v_b");
    assert(blk_name(j, 2) + "_b"@ =~= front + "_v_b"@);
    reveal_strlit("proj");
    reveal_strlit("_proj_w");
    assert(blk_name(j, 3) + "_w"@ =~= front + "_proj_w"@);
    reveal_strlit("_proj_b");
    assert(blk_name(j, 3) + "_b"@ =~= front + "_proj_b"@);
    reveal_strlit("fc1");
    reveal_strlit("_fc1_w");
    assert(blk_name(j, 4) + "_w"@ =~= front + "_fc1_w"@);
    reveal_strlit("_fc1_b");
    assert(blk_name(j, 4) + "_b"@ =~= front + "_fc1_b"@);
    reveal_strlit("fc2");
    reveal_strlit("_fc2_w");
    assert(blk_name(j, 5) + "_w"@ =~= front + "_fc2_w"@);
    reveal_strlit("_fc2_b");
    assert(blk_name(j, 5) + "_b"@ =~= front + "_fc2_b"@);
    reveal_strlit("th");
    reveal_strlit("_th_w");
    assert(blk_name(j, 6) + "_w"@ =~= front + "_th_w"@);
}

/// The names that layers are calibrated under, in full.
pub proof fn layer_names_in_full(j: usize)
    ensures
        layer_name(LayerSel::PeProj(0)) == "pe_proj0"@,
        layer_name(LayerSel::PeProj(1)) == "pe_proj1"@,
        layer_name(LayerSel::PeProj(2)) == "pe_proj2"@,
        layer_name(LayerSel::PeProj(3)) == "pe_proj3"@,
        layer_name(LayerSel::PeRpe) == "pe_rpe"@,
        layer_name(LayerSel::Blk { j, which: 0 }) == "blk"@ + text::decimal(j as nat) + "_q"@,
        layer_name(LayerSel::Blk { j, which: 1 }) == "blk"@ + text::decimal(j as nat) + "_k"@,
        layer_name(LayerSel::Blk { j, which: 2 }) == "blk"@ + text::decimal(j as nat) + "_v"@,
        layer_name(LayerSel::Blk { j, which: 3 }) == "blk"@ + text::decimal(j as nat) + "_proj"@,
        layer_name(LayerSel::Blk { j, which: 4 }) == "blk"@ + text::decimal(j as nat) + "_fc1"@,
        layer_name(LayerSel::Blk { j, which: 5 }) == "blk"@ + text::decimal(j as nat) + "_fc2"@,
        layer_name(LayerSel::Head) == "head"@,
{
    let front = "blk"@ + text::decimal(j as nat);
    reveal_strlit("pe_proj");
    reveal_strlit("_");
    reveal_strlit("pe_proj0");
    assert("pe_proj"@ + text::decimal(0) =~= "pe_proj0"@);
    reveal_strlit("pe_proj1");
    assert("pe_proj"@ + text::decimal(1) =~= "pe_proj1"@);
    reveal_strlit("pe_proj2");
    assert("pe_proj"@ + text::decimal(2) =~= "pe_proj2"@);
    reveal_strlit("pe_proj3");
    assert("pe_proj"@ + text::decimal(3) =~= "pe_proj3"@);
    reveal_strlit("q");
    reveal_strlit("_q");
    assert(blk_name(j as int, 0) =~= front + "_q"@);
    reveal_strlit("k");
    reveal_strlit("_k");
    assert(blk_name(j as int, 1) =~= front + "_k"@);
    reveal_strlit("v");
    reveal_strlit("_v");
    assert(blk_name(j as int, 2) =~= front + "_v"@);
    reveal_strlit("proj");
    reveal_strlit("_proj");
    assert(blk_name(j as int, 3) =~= front + "_proj"@);
    reveal_strlit("fc1");
    reveal_strlit("_fc1");
    assert(blk_name(j as int, 4) =~= front + "_fc1"@);
    reveal_strlit("fc2");
    reveal_strlit("_fc2");
    assert(blk_name(j as int, 5) =~= front + "_fc2"@);
}

} // verus!
