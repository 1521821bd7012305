//! Weights in archives: which array holds which tensor, saving and loading.

use crate::config::SdtConfig;
use crate::names;
use crate::npy;
use crate::npy::{NpyElems, NpyTensor};
use crate::npy_write::NpyArray;
use crate::npz;
use crate::npz::Npz;
use crate::text;
use crate::weights;
use crate::weights::{LayerSel, SdtWeights, SlotVal};
use vstd::prelude::*;

verus! {

/// One tensor of the weights.
#[derive(Clone, Copy, Debug, PartialEq, Eq, Structural)]
pub enum Item {
    /// The tensor at a position of the linear order.
    Slot(usize),
    /// The talking-heads matrix of a block.
    Th(usize),
}

/// Number of tensors of a network, talking-heads matrices counted in.
pub open spec fn num_items(depths: int) -> int {
    weights::num_slots(depths) + depths
}

/// Tensor `k` in loading order: the talking-heads matrix comes first in its block.
pub open spec fn load_item(depths: int, k: int) -> Item {
    if k < 10 {
        Item::Slot(k as usize)
    } else if k < 10 + 13 * depths {
        let j = (k - 10) / 13;
        let r = (k - 10) % 13;
        if r == 0 {
            Item::Th(j as usize)
        } else {
            Item::Slot((10 + 12 * j + r - 1) as usize)
        }
    } else {
        Item::Slot((k - depths) as usize)
    }
}

/// Tensor `k` in saving order: the talking-heads matrix stands between `v` and `proj`.
pub open spec fn save_item(depths: int, k: int) -> Item {
    if k < 10 {
        Item::Slot(k as usize)
    } else if k < 10 + 13 * depths {
        let j = (k - 10) / 13;
        let r = (k - 10) % 13;
        if r == 6 {
            Item::Th(j as usize)
        } else if r < 6 {
            Item::Slot((10 + 12 * j + r) as usize)
        } else {
            Item::Slot((10 + 12 * j + r - 1) as usize)
        }
    } else {
        Item::Slot((k - depths) as usize)
    }
}

/// Name of a tensor.
pub open spec fn item_name(depths: int, item: Item) -> Seq<char> {
    match item {
        Item::Slot(i) => names::slot_name(depths, i as int),
        Item::Th(j) => names::th_name(j as int),
    }
}

/// Dimensions that a tensor is used with; 1 stands for a flat vector.
pub open spec fn item_rank(depths: int, item: Item) -> nat {
    match item {
        Item::Slot(i) => if i % 2 == 1 {
            1
        } else if i == weights::num_slots(depths) - 2 {
            2
        } else {
            4
        },
        Item::Th(_) => 2,
    }
}

/// Whether the elements of an array fill its first `rank` dimensions. Later dimensions are
/// ignored, and a flat vector takes any shape.
pub open spec fn usable(m: npz::ArrayModel, rank: nat) -> bool {
    rank == 1 || m.0.len() >= rank && npy::product(m.0.take(rank as int)) == m.1.len()
}

/// Why weights were not loaded.
pub enum LoadError {
    /// No array has this name.
    Missing(String),
    /// The array of this name has no usable shape.
    Shape(String),
}

/// Whether a tensor can be loaded.
pub open spec fn item_ok(z: Npz, depths: int, item: Item) -> bool {
    z.array(item_name(depths, item)) matches Some(m) && usable(m, item_rank(depths, item))
}

/// The array at a position of the linear order.
pub open spec fn slot_array(s: SlotVal<&NpyTensor, &NpyTensor, &NpyTensor>) -> npz::ArrayModel {
    match s {
        SlotVal::Conv(t) => t.model(),
        SlotVal::Lin(t) => t.model(),
        SlotVal::Bias(t) => t.model(),
    }
}

/// Whether the elements of an array fill its first `rank` dimensions.
fn check_shape(t: &NpyTensor, rank: usize) -> (r: bool)
    requires
        rank <= 4,
    ensures
        r == usable(t.model(), rank as nat),
{
    if rank == 1 {
        return true;
    }
    if t.shape.len() < rank {
        return false;
    }
    let n: usize = match &t.data {
        npy::NpyData::F32(v) => v.len(),
        npy::NpyData::F64(v) => v.len(),
        npy::NpyData::Int(v) => v.len(),
    };
    let first = vstd::slice::slice_subrange(t.shape.as_slice(), 0, rank);
    assert(first@ =~= t.shape@.take(rank as int));
    product_is(first, n)
}

/// Whether the product of some dimensions is `n`.
fn product_is(shape: &[usize], n: usize) -> (r: bool)
    ensures
        r == (npy::product(shape@) == n),
{
    let mut i: usize = 0;
    let mut zero = false;
    while i < shape.len()
        invariant
            i <= shape@.len(),
            zero == exists|k: int| 0 <= k < i && (#[trigger] shape@[k]) == 0,
        decreases shape@.len() - i,
    {
        if shape[i] == 0 {
            zero = true;
            assert(shape@[i as int] == 0);
        }
        i += 1;
    }
    if zero {
        proof {
            let k = choose|k: int| 0 <= k < shape@.len() && (#[trigger] shape@[k]) == 0;
            product_zero(shape@, k);
        }
        return n == 0;
    }
    let mut p: usize = 1;
    let mut m: usize = 0;
    assert(shape@.take(0) =~= Seq::empty());
    while m < shape.len()
        invariant
            m <= shape@.len(),
            forall|k: int| 0 <= k < shape@.len() ==> (#[trigger] shape@[k]) != 0,
            p == npy::product(shape@.take(m as int)),
        decreases shape@.len() - m,
    {
        let ghost next = shape@.take(m + 1);
        assert(next.drop_last() =~= shape@.take(m as int));
        match p.checked_mul(shape[m]) {
            Some(q) => {
                p = q;
            },
            None => {
                proof {
                    product_mono(shape@, m + 1);
                }
                return false;
            },
        }
        m += 1;
    }
    assert(shape@.take(shape@.len() as int) =~= shape@);
    p == n
}

proof fn product_zero(shape: Seq<usize>, k: int)
    requires
        0 <= k < shape.len(),
        shape[k] == 0,
    ensures
        npy::product(shape) == 0,
    decreases shape.len(),
{
    let p = npy::product(shape.drop_last()) as int;
    let d = shape.last() as int;
    if k < shape.len() - 1 {
        product_zero(shape.drop_last(), k);
    }
    assert(p * d == 0) by (nonlinear_arith)
        requires
            p == 0 || d == 0,
    ;
}

proof fn product_mono(shape: Seq<usize>, k: int)
    requires
        0 <= k <= shape.len(),
        forall|i: int| 0 <= i < shape.len() ==> (#[trigger] shape[i]) != 0,
    ensures
        npy::product(shape.take(k)) <= npy::product(shape),
    decreases shape.len(),
{
    if k == shape.len() {
        assert(shape.take(k) =~= shape);
    } else {
        let rest = shape.drop_last();
        product_mono(rest, k);
        assert(rest.take(k) =~= shape.take(k));
        let p = npy::product(rest) as int;
        let d = shape.last() as int;
        assert(shape[shape.len() - 1] != 0);
        assert(p <= p * d) by (nonlinear_arith)
            requires
                d >= 1,
                p >= 0,
        ;
    }
}

/// Tensor `k` in loading order.
fn load_item_at(depths: usize, k: usize) -> (r: Item)
    requires
        k < num_items(depths as int) <= usize::MAX,
    ensures
        r == load_item(depths as int, k as int),
{
    if k < 10 {
        Item::Slot(k)
    } else if k < 10 + 13 * depths {
        let j: usize = (k - 10) / 13;
        let r: usize = (k - 10) % 13;
        if r == 0 {
            Item::Th(j)
        } else {
            Item::Slot(10 + 12 * j + r - 1)
        }
    } else {
        Item::Slot(k - depths)
    }
}

/// Position of slot `i` in loading order.
fn load_position(depths: usize, i: usize) -> (k: usize)
    requires
        i < weights::num_slots(depths as int),
        num_items(depths as int) <= usize::MAX,
    ensures
        k < num_items(depths as int),
        load_item(depths as int, k as int) == Item::Slot(i),
{
    if i < 10 {
        i
    } else if i < 10 + 12 * depths {
        let j: usize = (i - 10) / 12;
        let r: usize = (i - 10) % 12;
        let k: usize = 10 + 13 * j + 1 + r;
        assert((k - 10) / 13 == j && (k - 10) % 13 == r + 1);
        k
    } else {
        i + depths
    }
}

/// Name and rank of a tensor.
fn item_key(depths: usize, item: Item) -> (r: (String, usize))
    requires
        weights::num_slots(depths as int) <= usize::MAX,
        item matches Item::Slot(i) ==> i < weights::num_slots(depths as int),
    ensures
        r.0@ == item_name(depths as int, item),
        r.1 == item_rank(depths as int, item),
        r.1 <= 4,
{
    match item {
        Item::Slot(i) => {
            let rank: usize = if i % 2 == 1 {
                1
            } else if i == 10 + 12 * depths {
                2
            } else {
                4
            };
            (names::slot_key_name(depths, i), rank)
        },
        Item::Th(j) => (names::th_key_name(j), 2),
    }
}

/// Every tensor was found and usable, and each stands in its place.
pub open spec fn loaded(
    z: Npz,
    d: int,
    w: SdtWeights<&NpyTensor, &NpyTensor, &NpyTensor>,
) -> bool {
    &&& forall|k: int| 0 <= k < num_items(d) ==> item_ok(z, d, #[trigger] load_item(d, k))
    &&& w.blk@.len() == d
    &&& forall|i: int|
        0 <= i < weights::num_slots(d) ==> z.array(names::slot_name(d, i)) == Some(
            slot_array(#[trigger] w.slot(d, i)),
        )
    &&& forall|j: int|
        0 <= j < d ==> (#[trigger] w.blk@[j]).layer == j && z.array(names::th_name(j)) == Some(
            w.blk@[j].th_w.model(),
        )
}

/// Tensor `k` in loading order is the first that could not be loaded, and `e` says why.
pub open spec fn load_failed_at(z: Npz, d: int, e: LoadError, k: int) -> bool {
    &&& 0 <= k < num_items(d)
    &&& forall|m: int| 0 <= m < k ==> item_ok(z, d, #[trigger] load_item(d, m))
    &&& match e {
        LoadError::Missing(n) => n@ == item_name(d, load_item(d, k)) && z.array(n@) is None,
        LoadError::Shape(n) => {
            &&& n@ == item_name(d, load_item(d, k))
            &&& z.array(n@) matches Some(m)
            &&& !usable(m, item_rank(d, load_item(d, k)))
        },
    }
}

/// The weights of a network with `cfg.depths` blocks, as arrays of an archive.
///
/// Arrays are looked up in loading order; the first one that is missing, or has no usable
/// shape, is the error.
pub fn load_weights<'a>(npz: &'a Npz, cfg: &SdtConfig) -> (r: Result<
    SdtWeights<&'a NpyTensor, &'a NpyTensor, &'a NpyTensor>,
    LoadError,
>)
    requires
        num_items(cfg.depths as int) <= usize::MAX,
    ensures
        match r {
            Ok(w) => loaded(*npz, cfg.depths as int, w),
            Err(e) => exists|k: int| load_failed_at(*npz, cfg.depths as int, e, k),
        },
{
    let depths: usize = cfg.depths;
    let total: usize = 12 + 13 * depths;
    let mut found: Vec<&'a NpyTensor> = Vec::new();
    let mut k: usize = 0;
    while k < total
        invariant
            k <= total,
            depths == cfg.depths,
            total == num_items(depths as int),
            found@.len() == k,
            forall|m: int|
                0 <= m < k ==> {
                    let item = #[trigger] load_item(depths as int, m);
                    &&& item_ok(*npz, depths as int, item)
                    &&& npz.array(item_name(depths as int, item)) == Some(found@[m].model())
                },
        decreases total - k,
    {
        let item = load_item_at(depths, k);
        assert(item == load_item(depths as int, k as int));
        let (name, rank) = item_key(depths, item);
        match npz.get(name.as_str()) {
            None => {
                let e = LoadError::Missing(name);
                assert(load_failed_at(*npz, depths as int, e, k as int));
                return Err(e);
            },
            Some(t) => {
                if !check_shape(t, rank) {
                    let e = LoadError::Shape(name);
                    assert(load_failed_at(*npz, depths as int, e, k as int));
                    return Err(e);
                }
                found.push(t);
            },
        }
        k += 1;
    }
    let pick = |i: usize| -> (t: &'a NpyTensor)
        requires
            i < weights::num_slots(depths as int),
            num_items(depths as int) <= usize::MAX,
            found@.len() == num_items(depths as int),
            forall|m: int|
                0 <= m < found@.len() ==> {
                    let item = #[trigger] load_item(depths as int, m);
                    npz.array(item_name(depths as int, item)) == Some(found@[m].model())
                },
        ensures
            npz.array(names::slot_name(depths as int, i as int)) == Some(t.model()),
        {
            let p: usize = load_position(depths, i);
            assert(load_item(depths as int, p as int) == Item::Slot(i));
            found[p]
        };
    let th = |j: usize| -> (t: &'a NpyTensor)
        requires
            j < depths,
            num_items(depths as int) <= usize::MAX,
            found@.len() == num_items(depths as int),
            forall|m: int|
                0 <= m < found@.len() ==> {
                    let item = #[trigger] load_item(depths as int, m);
                    npz.array(item_name(depths as int, item)) == Some(found@[m].model())
                },
        ensures
            npz.array(names::th_name(j as int)) == Some(t.model()),
        {
            let p: usize = 10 + 13 * j;
            assert((p - 10) / 13 == j && (p - 10) % 13 == 0);
            assert(load_item(depths as int, p as int) == Item::Th(j));
            found[p]
        };
    let w = weights::build_weights(depths, pick, pick, pick, th);
    proof {
        let d = depths as int;
        assert forall|i: int| 0 <= i < weights::num_slots(d) implies npz.array(
            names::slot_name(d, i),
        ) == Some(slot_array(#[trigger] w.slot(d, i))) by {
            assert(weights::slot_made(pick, pick, pick, i, w.slot(d, i)));
        }
    }
    Ok(w)
}

/// Tensor `k` in saving order.
fn save_item_at(depths: usize, k: usize) -> (r: Item)
    requires
        k < num_items(depths as int) <= usize::MAX,
    ensures
        r == save_item(depths as int, k as int),
{
    if k < 10 {
        Item::Slot(k)
    } else if k < 10 + 13 * depths {
        let j: usize = (k - 10) / 13;
        let r: usize = (k - 10) % 13;
        if r == 6 {
            Item::Th(j)
        } else if r < 6 {
            Item::Slot(10 + 12 * j + r)
        } else {
            Item::Slot(10 + 12 * j + r - 1)
        }
    } else {
        Item::Slot(k - depths)
    }
}

/// Name that a tensor is saved under: blocks are numbered by the index that they carry.
pub open spec fn save_name<W, M, B>(w: SdtWeights<W, M, B>, item: Item) -> Seq<char> {
    match item {
        Item::Slot(i) => {
            let sel = weights::layer_at(w.blk@.len() as int, i as int / 2);
            let layer = match sel {
                LayerSel::Blk { j, which } => names::blk_name(
                    w.blk@[j as int].layer as int,
                    which as int,
                ),
                _ => names::layer_name(sel),
            };
            layer + if i % 2 == 0 {
                "_w"@
            } else {
                "_b"@
            }
        },
        Item::Th(j) => names::blk_name(w.blk@[j as int].layer as int, 6) + "_w"@,
    }
}

/// `a` was made of a tensor: its name, and shape and element bits as the function for its
/// rank gives them.
pub open spec fn saved<
    W,
    M,
    B,
    FW: Fn(&W) -> (Vec<usize>, Vec<u32>),
    FM: Fn(&M) -> (Vec<usize>, Vec<u32>),
    FB: Fn(&B) -> (Vec<usize>, Vec<u32>),
>(fw: FW, fm: FM, fb: FB, w: SdtWeights<W, M, B>, item: Item, a: NpyArray) -> bool {
    &&& a.name@ == save_name(w, item)
    &&& match item {
        Item::Slot(i) => match w.slot(w.blk@.len() as int, i as int) {
            SlotVal::Conv(x) => fw.ensures((&x,), (a.shape, a.data)),
            SlotVal::Lin(x) => fm.ensures((&x,), (a.shape, a.data)),
            SlotVal::Bias(x) => fb.ensures((&x,), (a.shape, a.data)),
        },
        Item::Th(j) => fm.ensures((&w.blk@[j as int].th_w,), (a.shape, a.data)),
    }
}

/// The arrays that hold all weights, in saving order.
pub fn save_init_npz<
    W,
    M,
    B,
    FW: Fn(&W) -> (Vec<usize>, Vec<u32>),
    FM: Fn(&M) -> (Vec<usize>, Vec<u32>),
    FB: Fn(&B) -> (Vec<usize>, Vec<u32>),
>(w: &SdtWeights<W, M, B>, fw: &FW, fm: &FM, fb: &FB) -> (out: Vec<NpyArray>)
    requires
        num_items(w.blk@.len() as int) <= usize::MAX,
        forall|x: &W| fw.requires((x,)),
        forall|x: &M| fm.requires((x,)),
        forall|x: &B| fb.requires((x,)),
    ensures
        out@.len() == num_items(w.blk@.len() as int),
        forall|k: int|
            0 <= k < out@.len() ==> saved(
                *fw,
                *fm,
                *fb,
                *w,
                save_item(w.blk@.len() as int, k),
                #[trigger] out@[k],
            ),
{
    let depths: usize = w.blk.len();
    let total: usize = 12 + 13 * depths;
    let mut out: Vec<NpyArray> = Vec::new();
    let mut k: usize = 0;
    while k < total
        invariant
            k <= total,
            depths == w.blk@.len(),
            total == num_items(depths as int),
            forall|x: &W| fw.requires((x,)),
            forall|x: &M| fm.requires((x,)),
            forall|x: &B| fb.requires((x,)),
            out@.len() == k,
            forall|m: int|
                0 <= m < k ==> saved(
                    *fw,
                    *fm,
                    *fb,
                    *w,
                    save_item(depths as int, m),
                    #[trigger] out@[m],
                ),
        decreases total - k,
    {
        let item = save_item_at(depths, k);
        let mut name: Vec<char>;
        let shape: Vec<usize>;
        let data: Vec<u32>;
        match item {
            Item::Th(j) => {
                name = names::blk_chars(w.blk[j].layer, 6);
                text::push_text(&mut name, "_w");
                let r = fm(&w.blk[j].th_w);
                shape = r.0;
                data = r.1;
            },
            Item::Slot(i) => {
                let sel = weights::layer_sel(depths, i / 2);
                name = match sel {
                    LayerSel::Blk { j, which } => names::blk_chars(w.blk[j].layer, which),
                    _ => names::layer_chars(sel),
                };
                if i % 2 == 0 {
                    text::push_text(&mut name, "_w");
                } else {
                    text::push_text(&mut name, "_b");
                }
                let r = match sel {
                    LayerSel::Head => if i % 2 == 0 {
                        fm(&w.head_w)
                    } else {
                        fb(&w.head_b)
                    },
                    _ => {
                        let c = weights::get_conv(w, sel);
                        if i % 2 == 0 {
                            fw(&c.w)
                        } else {
                            fb(&c.b)
                        }
                    },
                };
                shape = r.0;
                data = r.1;
            },
        }
        out.push(NpyArray { name: text::string_of(name.as_slice()), shape, data });
        k += 1;
    }
    out
}

/// The layer and the suffix that a name is made of.
spec fn item_layer(depths: int, item: Item) -> LayerSel {
    match item {
        Item::Slot(i) => weights::layer_at(depths, i as int / 2),
        Item::Th(j) => LayerSel::Blk { j, which: 6 },
    }
}

spec fn item_bias(item: Item) -> bool {
    item matches Item::Slot(i) && i % 2 == 1
}

/// A layer stands at one position only.
proof fn layer_at_injective(depths: int, a: int, b: int)
    requires
        0 <= a < weights::num_layers(depths),
        0 <= b < weights::num_layers(depths),
        weights::num_slots(depths) <= usize::MAX,
        weights::layer_at(depths, a) == weights::layer_at(depths, b),
    ensures
        a == b,
{
    if 5 <= a < 5 + 6 * depths && 5 <= b < 5 + 6 * depths {
        assert((a - 5) / 6 == (b - 5) / 6 && (a - 5) % 6 == (b - 5) % 6);
    }
}

/// Every tensor has a name of its own, and no name ends in `.npy`.
pub proof fn item_names_distinct(depths: int, a: Item, b: Item)
    requires
        item_in(depths, a),
        item_in(depths, b),
        0 <= depths,
        weights::num_slots(depths) <= usize::MAX,
    ensures
        item_name(depths, a) == item_name(depths, b) ==> a == b,
        !npz::has_ending(item_name(depths, a)),
{
    reveal_strlit("_w");
    reveal_strlit("_b");
    assert("_w"@[1] == 'w' && "_b"@[1] == 'b');
    let x = item_name(depths, a);
    let y = item_name(depths, b);
    let lx = names::layer_name(item_layer(depths, a));
    let ly = names::layer_name(item_layer(depths, b));
    assert(x[x.len() - 1] == if item_bias(a) {
        'b'
    } else {
        'w'
    });
    assert(y[y.len() - 1] == if item_bias(b) {
        'b'
    } else {
        'w'
    });
    if npz::has_ending(x) {
        assert(x.skip(x.len() - 4)[3] == 'y');
    }
    if x == y {
        assert(lx =~= x.take(x.len() - 2));
        assert(ly =~= y.take(y.len() - 2));
        names::layer_name_injective(item_layer(depths, a), item_layer(depths, b));
        match (a, b) {
            (Item::Slot(i), Item::Slot(k)) => {
                layer_at_injective(depths, i as int / 2, k as int / 2);
            },
            _ => {},
        }
    }
}

/// A tensor of a network with `depths` blocks.
pub open spec fn item_in(depths: int, item: Item) -> bool {
    match item {
        Item::Slot(i) => i < weights::num_slots(depths),
        Item::Th(j) => j < depths,
    }
}

/// Every tensor is saved exactly once, and what is saved is what is loaded.
proof fn save_position(depths: int, item: Item) -> (k: int)
    requires
        item_in(depths, item),
        0 <= depths,
        num_items(depths) <= usize::MAX,
    ensures
        0 <= k < num_items(depths),
        save_item(depths, k) == item,
{
    match item {
        Item::Th(j) => {
            let k = 10 + 13 * j + 6;
            assert((k - 10) / 13 == j && (k - 10) % 13 == 6);
            k
        },
        Item::Slot(i) => if i < 10 {
            i as int
        } else if i < 10 + 12 * depths {
            let j = (i as int - 10) / 12;
            let r = (i as int - 10) % 12;
            let k = 10 + 13 * j + if r < 6 {
                r
            } else {
                r + 1
            };
            assert((k - 10) / 13 == j && (k - 10) % 13 == if r < 6 {
                r
            } else {
                r + 1
            });
            k
        } else {
            i + depths
        },
    }
}

proof fn save_item_injective(depths: int, a: int, b: int)
    requires
        0 <= a < num_items(depths),
        0 <= b < num_items(depths),
        0 <= depths,
        num_items(depths) <= usize::MAX,
        save_item(depths, a) == save_item(depths, b),
    ensures
        a == b,
{
}

proof fn load_item_in(depths: int, k: int)
    requires
        0 <= k < num_items(depths),
        0 <= depths,
        num_items(depths) <= usize::MAX,
    ensures
        item_in(depths, load_item(depths, k)),
        item_in(depths, save_item(depths, k)),
{
}

/// Weights that are saved to an archive load back, every tensor in its place with its shape
/// and its bits, whatever kind of tensor they were saved from.
pub proof fn saved_weights_load_back<
    W,
    M,
    B,
    FW: Fn(&W) -> (Vec<usize>, Vec<u32>),
    FM: Fn(&M) -> (Vec<usize>, Vec<u32>),
    FB: Fn(&B) -> (Vec<usize>, Vec<u32>),
>(
    w: SdtWeights<W, M, B>,
    fw: FW,
    fm: FM,
    fb: FB,
    arrays: Seq<NpyArray>,
    members: Seq<npz::Member>,
    z: Npz,
    k: int,
)
    requires
        num_items(w.blk@.len() as int) <= usize::MAX,
        forall|j: int| 0 <= j < w.blk@.len() ==> (#[trigger] w.blk@[j]).layer == j,
        // what `save_init_npz` says of `arrays`
        arrays.len() == num_items(w.blk@.len() as int),
        forall|m: int|
            0 <= m < arrays.len() ==> saved(
                fw,
                fm,
                fb,
                w,
                save_item(w.blk@.len() as int, m),
                #[trigger] arrays[m],
            ),
        // each array can exist and has the dimensions of its tensor
        forall|m: int|
            0 <= m < arrays.len() ==> {
                let a = #[trigger] arrays[m];
                &&& crate::npy_write::header_fits(a.shape@)
                &&& npy::shape_holds(a.shape@, a.data@.len())
                &&& usable(
                    (a.shape@, NpyElems::F32(a.data@)),
                    item_rank(w.blk@.len() as int, save_item(w.blk@.len() as int, m)),
                )
            },
        // what `write_npz` says of `members`
        members.len() == arrays.len(),
        forall|m: int|
            0 <= m < members.len() ==> {
                let a = arrays[m];
                &&& (#[trigger] members[m]).name@ == a.name@ + seq!['.', 'n', 'p', 'y']
                &&& members[m].bytes@ == crate::npy_write::npy_bytes(a.shape@, a.data@)
            },
        // what `read_npz` says of `z`
        z.entries@.len() == members.len(),
        forall|m: int|
            0 <= m < members.len() ==> {
                &&& (#[trigger] z.entries@[m]).key@ == npz::key_of(members[m].name@)
                &&& npy::parsed(members[m].bytes@) == Ok::<npz::ArrayModel, npy::NpyFault>(
                    z.entries@[m].tensor.model(),
                )
            },
        0 <= k < arrays.len(),
    ensures
        // nothing that `load_weights` looks for is missing or misshapen
        forall|m: int|
            0 <= m < num_items(w.blk@.len() as int) ==> item_ok(
                z,
                w.blk@.len() as int,
                #[trigger] load_item(w.blk@.len() as int, m),
            ),
        // and each tensor is found as it was saved
        z.array(item_name(w.blk@.len() as int, save_item(w.blk@.len() as int, k))) == Some(
            (arrays[k].shape@, NpyElems::F32(arrays[k].data@)),
        ),
{
    let d = w.blk@.len() as int;
    assert forall|m: int| 0 <= m < arrays.len() implies {
        &&& (#[trigger] arrays[m]).name@ == item_name(d, save_item(d, m))
        &&& !npz::has_ending(arrays[m].name@)
    } by {
        load_item_in(d, m);
        assert(saved(fw, fm, fb, w, save_item(d, m), arrays[m]));
        item_names_distinct(d, save_item(d, m), save_item(d, m));
        match save_item(d, m) {
            Item::Slot(i) => {
                let l = i as int / 2;
                if 5 <= l < 5 + 6 * d {
                    assert(0 <= (l - 5) / 6 < d);
                }
            },
            _ => {},
        }
    }
    assert forall|a: int, b: int| 0 <= a < b < arrays.len() implies (#[trigger] arrays[a]).name@
        != (#[trigger] arrays[b]).name@ by {
        load_item_in(d, a);
        load_item_in(d, b);
        item_names_distinct(d, save_item(d, a), save_item(d, b));
        if save_item(d, a) == save_item(d, b) {
            save_item_injective(d, a, b);
        }
    }
    npz::archive_reads_back(arrays, members, z, k);
    assert forall|m: int| 0 <= m < num_items(d) implies item_ok(
        z,
        d,
        #[trigger] load_item(d, m),
    ) by {
        load_item_in(d, m);
        let item = load_item(d, m);
        let p = save_position(d, item);
        npz::archive_reads_back(arrays, members, z, p);
        assert(arrays[p].name@ == item_name(d, item));
    }
}

/// Where the weight and the bias of a part of a block stand in the linear order.
proof fn block_slots(d: int, j: int, which: int)
    requires
        0 <= j < d,
        0 <= which < 6,
        weights::num_slots(d) <= usize::MAX,
    ensures
        ({
            let i = 10 + 12 * j + 2 * which;
            let sel = LayerSel::Blk { j: j as usize, which: which as usize };
            &&& i + 1 < weights::num_slots(d) - 2
            &&& weights::layer_at(d, i / 2) == sel
            &&& weights::layer_at(d, (i + 1) / 2) == sel
            &&& i % 2 == 0
            &&& (i + 1) % 2 == 1
            &&& names::slot_name(d, i) == names::blk_name(j, which) + "_w"@
            &&& names::slot_name(d, i + 1) == names::blk_name(j, which) + "_b"@
        }),
{
    let i = 10 + 12 * j + 2 * which;
    assert(i / 2 == 5 + 6 * j + which && (i + 1) / 2 == 5 + 6 * j + which);
    assert((6 * j + which) / 6 == j && (6 * j + which) % 6 == which);
}

/// Where the weight and the bias of a patch convolution stand in the linear order.
proof fn patch_slots(d: int, i: int)
    requires
        0 <= i < 4,
        0 <= d,
    ensures
        weights::layer_at(d, 2 * i / 2) == LayerSel::PeProj(i as usize),
        weights::layer_at(d, (2 * i + 1) / 2) == LayerSel::PeProj(i as usize),
        names::slot_name(d, 2 * i) == "pe_proj"@ + text::decimal(i as nat) + "_w"@,
        names::slot_name(d, 2 * i + 1) == "pe_proj"@ + text::decimal(i as nat) + "_b"@,
{
    assert(2 * i / 2 == i && (2 * i + 1) / 2 == i);
}

/// The tensors before and behind the blocks.
proof fn end_slots(d: int)
    requires
        0 <= d,
    ensures
        weights::layer_at(d, 4) == LayerSel::PeRpe,
        names::slot_name(d, 8) == "pe_rpe_w"@,
        names::slot_name(d, 9) == "pe_rpe_b"@,
        weights::layer_at(d, (10 + 12 * d) / 2) == LayerSel::Head,
        weights::layer_at(d, (11 + 12 * d) / 2) == LayerSel::Head,
        names::slot_name(d, 10 + 12 * d) == "head_w"@,
        names::slot_name(d, 11 + 12 * d) == "head_b"@,
{
    names::patch_names();
    reveal_strlit("head");
    reveal_strlit("head_w");
    reveal_strlit("head_b");
    reveal_strlit("_w");
    reveal_strlit("_b");
    assert("head"@ + "_w"@ =~= "head_w"@);
    assert("head"@ + "_b"@ =~= "head_b"@);
}

/// The tensors of a part of a block are found by name.
proof fn block_loaded(
    z: Npz,
    d: int,
    w: SdtWeights<&NpyTensor, &NpyTensor, &NpyTensor>,
    j: int,
    which: int,
)
    requires
        loaded(z, d, w),
        num_items(d) <= usize::MAX,
        0 <= j < d,
        0 <= which < 6,
    ensures
        z.array(names::blk_name(j, which) + "_w"@) == Some(w.blk@[j].conv(which).w.model()),
        z.array(names::blk_name(j, which) + "_b"@) == Some(w.blk@[j].conv(which).b.model()),
{
    block_slots(d, j, which);
    let i = 10 + 12 * j + 2 * which;
    let sel = LayerSel::Blk { j: j as usize, which: which as usize };
    assert(w.slot(d, i) == SlotVal::<&NpyTensor, &NpyTensor, &NpyTensor>::Conv(w.conv(sel).w));
    assert(w.slot(d, i + 1) == SlotVal::<&NpyTensor, &NpyTensor, &NpyTensor>::Bias(w.conv(sel).b));
}

/// The tensors of a patch convolution are found by name.
proof fn patch_loaded(
    z: Npz,
    d: int,
    w: SdtWeights<&NpyTensor, &NpyTensor, &NpyTensor>,
    i: int,
)
    requires
        loaded(z, d, w),
        num_items(d) <= usize::MAX,
        0 <= d,
        0 <= i < 4,
    ensures
        z.array("pe_proj"@ + text::decimal(i as nat) + "_w"@) == Some(w.pe_proj@[i].w.model()),
        z.array("pe_proj"@ + text::decimal(i as nat) + "_b"@) == Some(w.pe_proj@[i].b.model()),
{
    patch_slots(d, i);
    let sel = LayerSel::PeProj(i as usize);
    assert(w.slot(d, 2 * i) == SlotVal::<&NpyTensor, &NpyTensor, &NpyTensor>::Conv(w.conv(sel).w));
    assert(w.slot(d, 2 * i + 1) == SlotVal::<&NpyTensor, &NpyTensor, &NpyTensor>::Bias(
        w.conv(sel).b,
    ));
}

/// The tensors before and behind the blocks are found by name.
proof fn ends_loaded(z: Npz, d: int, w: SdtWeights<&NpyTensor, &NpyTensor, &NpyTensor>)
    requires
        loaded(z, d, w),
        num_items(d) <= usize::MAX,
        0 <= d,
    ensures
        z.array("pe_rpe_w"@) == Some(w.pe_rpe.w.model()),
        z.array("pe_rpe_b"@) == Some(w.pe_rpe.b.model()),
        z.array("head_w"@) == Some(w.head_w.model()),
        z.array("head_b"@) == Some(w.head_b.model()),
{
    end_slots(d);
    let sel = LayerSel::PeRpe;
    assert(w.slot(d, 8) == SlotVal::<&NpyTensor, &NpyTensor, &NpyTensor>::Conv(w.conv(sel).w));
    assert(w.slot(d, 9) == SlotVal::<&NpyTensor, &NpyTensor, &NpyTensor>::Bias(w.conv(sel).b));
    assert(w.slot(d, 10 + 12 * d) == SlotVal::<&NpyTensor, &NpyTensor, &NpyTensor>::Lin(w.head_w));
    assert(w.slot(d, 11 + 12 * d) == SlotVal::<&NpyTensor, &NpyTensor, &NpyTensor>::Bias(w.head_b));
}

/// The tensors of a part of a block are saved by name.
proof fn block_saved<
    W,
    M,
    B,
    FW: Fn(&W) -> (Vec<usize>, Vec<u32>),
    FM: Fn(&M) -> (Vec<usize>, Vec<u32>),
    FB: Fn(&B) -> (Vec<usize>, Vec<u32>),
>(
    w: SdtWeights<W, M, B>,
    fw: FW,
    fm: FM,
    fb: FB,
    arrays: Seq<NpyArray>,
    j: int,
    which: int,
)
    requires
        num_items(w.blk@.len() as int) <= usize::MAX,
        arrays.len() == num_items(w.blk@.len() as int),
        forall|m: int|
            0 <= m < arrays.len() ==> saved(
                fw,
                fm,
                fb,
                w,
                save_item(w.blk@.len() as int, m),
                #[trigger] arrays[m],
            ),
        0 <= j < w.blk@.len(),
        0 <= which < 6,
    ensures
        ({
            let k = 10 + 13 * j + 2 * which + if which < 3 {
                0int
            } else {
                1
            };
            let b = w.blk@[j];
            &&& arrays[k].name@ == names::blk_name(b.layer as int, which) + "_w"@
            &&& fw.ensures((&b.conv(which).w,), (arrays[k].shape, arrays[k].data))
            &&& arrays[k + 1].name@ == names::blk_name(b.layer as int, which) + "_b"@
            &&& fb.ensures((&b.conv(which).b,), (arrays[k + 1].shape, arrays[k + 1].data))
        }),
{
    let d = w.blk@.len() as int;
    assert(w.blk.len() == w.blk@.len());
    block_slots(d, j, which);
    let i = 10 + 12 * j + 2 * which;
    let k = 10 + 13 * j + 2 * which + if which < 3 {
        0int
    } else {
        1
    };
    assert((k - 10) / 13 == j && (k + 1 - 10) / 13 == j);
    assert(save_item(d, k) == Item::Slot(i as usize));
    assert(save_item(d, k + 1) == Item::Slot((i + 1) as usize));
    assert(saved(fw, fm, fb, w, save_item(d, k), arrays[k]));
    assert(saved(fw, fm, fb, w, save_item(d, k + 1), arrays[k + 1]));
}

/// The tensors of a patch convolution are saved by name.
proof fn patch_saved<
    W,
    M,
    B,
    FW: Fn(&W) -> (Vec<usize>, Vec<u32>),
    FM: Fn(&M) -> (Vec<usize>, Vec<u32>),
    FB: Fn(&B) -> (Vec<usize>, Vec<u32>),
>(
    w: SdtWeights<W, M, B>,
    fw: FW,
    fm: FM,
    fb: FB,
    arrays: Seq<NpyArray>,
    i: int,
)
    requires
        num_items(w.blk@.len() as int) <= usize::MAX,
        arrays.len() == num_items(w.blk@.len() as int),
        forall|m: int|
            0 <= m < arrays.len() ==> saved(
                fw,
                fm,
                fb,
                w,
                save_item(w.blk@.len() as int, m),
                #[trigger] arrays[m],
            ),
        0 <= i < 4,
    ensures
        arrays[2 * i].name@ == "pe_proj"@ + text::decimal(i as nat) + "_w"@,
        fw.ensures((&w.pe_proj@[i].w,), (arrays[2 * i].shape, arrays[2 * i].data)),
        arrays[2 * i + 1].name@ == "pe_proj"@ + text::decimal(i as nat) + "_b"@,
        fb.ensures((&w.pe_proj@[i].b,), (arrays[2 * i + 1].shape, arrays[2 * i + 1].data)),
{
    let d = w.blk@.len() as int;
    patch_slots(d, i);
    assert(saved(fw, fm, fb, w, save_item(d, 2 * i), arrays[2 * i]));
    assert(saved(fw, fm, fb, w, save_item(d, 2 * i + 1), arrays[2 * i + 1]));
}

/// The tensors before and behind the blocks are saved by name.
proof fn ends_saved<
    W,
    M,
    B,
    FW: Fn(&W) -> (Vec<usize>, Vec<u32>),
    FM: Fn(&M) -> (Vec<usize>, Vec<u32>),
    FB: Fn(&B) -> (Vec<usize>, Vec<u32>),
>(w: SdtWeights<W, M, B>, fw: FW, fm: FM, fb: FB, arrays: Seq<NpyArray>)
    requires
        num_items(w.blk@.len() as int) <= usize::MAX,
        arrays.len() == num_items(w.blk@.len() as int),
        forall|m: int|
            0 <= m < arrays.len() ==> saved(
                fw,
                fm,
                fb,
                w,
                save_item(w.blk@.len() as int, m),
                #[trigger] arrays[m],
            ),
    ensures
        ({
            let k = 10 + 13 * w.blk@.len() as int;
            &&& arrays[8].name@ == "pe_rpe_w"@
            &&& fw.ensures((&w.pe_rpe.w,), (arrays[8].shape, arrays[8].data))
            &&& arrays[9].name@ == "pe_rpe_b"@
            &&& fb.ensures((&w.pe_rpe.b,), (arrays[9].shape, arrays[9].data))
            &&& arrays[k].name@ == "head_w"@
            &&& fm.ensures((&w.head_w,), (arrays[k].shape, arrays[k].data))
            &&& arrays[k + 1].name@ == "head_b"@
            &&& fb.ensures((&w.head_b,), (arrays[k + 1].shape, arrays[k + 1].data))
        }),
{
    let d = w.blk@.len() as int;
    end_slots(d);
    let k = 10 + 13 * d;
    assert(saved(fw, fm, fb, w, save_item(d, 8), arrays[8]));
    assert(saved(fw, fm, fb, w, save_item(d, 9), arrays[9]));
    assert(saved(fw, fm, fb, w, save_item(d, k), arrays[k]));
    assert(saved(fw, fm, fb, w, save_item(d, k + 1), arrays[k + 1]));
}

/// Where the tensors of a part of a block are looked up.
proof fn block_looked_up(d: int, j: int, which: int)
    requires
        num_items(d) <= usize::MAX,
        0 <= j < d,
        0 <= which < 6,
    ensures
        ({
            let k = 11 + 13 * j + 2 * which;
            &&& item_name(d, load_item(d, k)) == names::blk_name(j, which) + "_w"@
            &&& item_rank(d, load_item(d, k)) == 4
            &&& item_name(d, load_item(d, k + 1)) == names::blk_name(j, which) + "_b"@
            &&& item_rank(d, load_item(d, k + 1)) == 1
        }),
{
    block_slots(d, j, which);
    let i = 10 + 12 * j + 2 * which;
    let k = 11 + 13 * j + 2 * which;
    assert((k - 10) / 13 == j && (k + 1 - 10) / 13 == j);
    assert(load_item(d, k) == Item::Slot(i as usize));
    assert(load_item(d, k + 1) == Item::Slot((i + 1) as usize));
}

/// Where the tensors of a patch convolution are looked up.
proof fn patch_looked_up(d: int, i: int)
    requires
        num_items(d) <= usize::MAX,
        0 <= d,
        0 <= i < 4,
    ensures
        item_name(d, load_item(d, 2 * i)) == "pe_proj"@ + text::decimal(i as nat) + "_w"@,
        item_rank(d, load_item(d, 2 * i)) == 4,
        item_name(d, load_item(d, 2 * i + 1)) == "pe_proj"@ + text::decimal(i as nat) + "_b"@,
        item_rank(d, load_item(d, 2 * i + 1)) == 1,
{
    patch_slots(d, i);
}

/// Where the tensors before and behind the blocks are looked up.
proof fn ends_looked_up(d: int)
    requires
        num_items(d) <= usize::MAX,
        0 <= d,
    ensures
        item_name(d, load_item(d, 8)) == "pe_rpe_w"@,
        item_rank(d, load_item(d, 8)) == 4,
        item_name(d, load_item(d, 9)) == "pe_rpe_b"@,
        item_rank(d, load_item(d, 9)) == 1,
        item_name(d, load_item(d, 10 + 13 * d)) == "head_w"@,
        item_rank(d, load_item(d, 10 + 13 * d)) == 2,
        item_name(d, load_item(d, 11 + 13 * d)) == "head_b"@,
        item_rank(d, load_item(d, 11 + 13 * d)) == 1,
{
    end_slots(d);
}

/// Loading finds every tensor under its own name: the array of that name in the archive is the one
/// that stands in the place of the name, for the patch embedding, each block and the classifier.
pub proof fn tensors_are_loaded_by_name(
    z: Npz,
    d: int,
    w: SdtWeights<&NpyTensor, &NpyTensor, &NpyTensor>,
    i: int,
    j: int,
)
    requires
        // what `load_weights` says of its result
        loaded(z, d, w),
        num_items(d) <= usize::MAX,
        0 <= i < 4,
        0 <= j < d,
    ensures
        ({
            let patch = |end: Seq<char>| z.array("pe_proj"@ + text::decimal(i as nat) + end);
            let block = |end: Seq<char>| z.array("blk"@ + text::decimal(j as nat) + end);
            let b = w.blk@[j];
            &&& patch("_w"@) == Some(w.pe_proj@[i].w.model())
            &&& patch("_b"@) == Some(w.pe_proj@[i].b.model())
            &&& z.array("pe_rpe_w"@) == Some(w.pe_rpe.w.model())
            &&& z.array("pe_rpe_b"@) == Some(w.pe_rpe.b.model())
            &&& block("_q_w"@) == Some(b.q.w.model())
            &&& block("_q_b"@) == Some(b.q.b.model())
            &&& block("_k_w"@) == Some(b.k.w.model())
            &&& block("_k_b"@) == Some(b.k.b.model())
            &&& block("_v_w"@) == Some(b.v.w.model())
            &&& block("_v_b"@) == Some(b.v.b.model())
            &&& block("_proj_w"@) == Some(b.proj.w.model())
            &&& block("_proj_b"@) == Some(b.proj.b.model())
            &&& block("_fc1_w"@) == Some(b.fc1.w.model())
            &&& block("_fc1_b"@) == Some(b.fc1.b.model())
            &&& block("_fc2_w"@) == Some(b.fc2.w.model())
            &&& block("_fc2_b"@) == Some(b.fc2.b.model())
            &&& block("_th_w"@) == Some(b.th_w.model())
            &&& z.array("head_w"@) == Some(w.head_w.model())
            &&& z.array("head_b"@) == Some(w.head_b.model())
        }),
{
    names::patch_names();
    names::block_names(j);
    patch_loaded(z, d, w, i);
    block_loaded(z, d, w, j, 0);
    block_loaded(z, d, w, j, 1);
    block_loaded(z, d, w, j, 2);
    block_loaded(z, d, w, j, 3);
    block_loaded(z, d, w, j, 4);
    block_loaded(z, d, w, j, 5);
    ends_loaded(z, d, w);
    assert(w.blk@[j].layer == j);
}

/// Saving writes every tensor under its own name, the blocks one after the other with the
/// talking-heads matrix between values and projection, and the classifier last. A block is named
/// by the index that it carries.
pub proof fn tensors_are_saved_by_name<
    W,
    M,
    B,
    FW: Fn(&W) -> (Vec<usize>, Vec<u32>),
    FM: Fn(&M) -> (Vec<usize>, Vec<u32>),
    FB: Fn(&B) -> (Vec<usize>, Vec<u32>),
>(w: SdtWeights<W, M, B>, fw: FW, fm: FM, fb: FB, arrays: Seq<NpyArray>, i: int, j: int)
    requires
        num_items(w.blk@.len() as int) <= usize::MAX,
        // what `save_init_npz` says of `arrays`
        arrays.len() == num_items(w.blk@.len() as int),
        forall|m: int|
            0 <= m < arrays.len() ==> saved(
                fw,
                fm,
                fb,
                w,
                save_item(w.blk@.len() as int, m),
                #[trigger] arrays[m],
            ),
        0 <= i < 4,
        0 <= j < w.blk@.len(),
    ensures
        ({
            let d = w.blk@.len() as int;
            let b = w.blk@[j];
            let named = |k: int, name: Seq<char>| arrays[k].name@ == name;
            let kernel = |k: int, x: W| fw.ensures((&x,), (arrays[k].shape, arrays[k].data));
            let matrix = |k: int, x: M| fm.ensures((&x,), (arrays[k].shape, arrays[k].data));
            let bias = |k: int, x: B| fb.ensures((&x,), (arrays[k].shape, arrays[k].data));
            let patch = "pe_proj"@ + text::decimal(i as nat);
            let block = "blk"@ + text::decimal(b.layer as nat);
            &&& named(2 * i, patch + "_w"@) && kernel(2 * i, w.pe_proj@[i].w)
            &&& named(2 * i + 1, patch + "_b"@) && bias(2 * i + 1, w.pe_proj@[i].b)
            &&& named(8, "pe_rpe_w"@) && kernel(8, w.pe_rpe.w)
            &&& named(9, "pe_rpe_b"@) && bias(9, w.pe_rpe.b)
            &&& named(10 + 13 * j + 0, block + "_q_w"@) && kernel(10 + 13 * j + 0, b.q.w)
            &&& named(10 + 13 * j + 1, block + "_q_b"@) && bias(10 + 13 * j + 1, b.q.b)
            &&& named(10 + 13 * j + 2, block + "_k_w"@) && kernel(10 + 13 * j + 2, b.k.w)
            &&& named(10 + 13 * j + 3, block + "_k_b"@) && bias(10 + 13 * j + 3, b.k.b)
            &&& named(10 + 13 * j + 4, block + "_v_w"@) && kernel(10 + 13 * j + 4, b.v.w)
            &&& named(10 + 13 * j + 5, block + "_v_b"@) && bias(10 + 13 * j + 5, b.v.b)
            &&& named(10 + 13 * j + 6, block + "_th_w"@) && matrix(10 + 13 * j + 6, b.th_w)
            &&& named(10 + 13 * j + 7, block + "_proj_w"@) && kernel(10 + 13 * j + 7, b.proj.w)
            &&& named(10 + 13 * j + 8, block + "_proj_b"@) && bias(10 + 13 * j + 8, b.proj.b)
            &&& named(10 + 13 * j + 9, block + "_fc1_w"@) && kernel(10 + 13 * j + 9, b.fc1.w)
            &&& named(10 + 13 * j + 10, block + "_fc1_b"@) && bias(10 + 13 * j + 10, b.fc1.b)
            &&& named(10 + 13 * j + 11, block + "_fc2_w"@) && kernel(10 + 13 * j + 11, b.fc2.w)
            &&& named(10 + 13 * j + 12, block + "_fc2_b"@) && bias(10 + 13 * j + 12, b.fc2.b)
            &&& named(10 + 13 * d, "head_w"@) && matrix(10 + 13 * d, w.head_w)
            &&& named(11 + 13 * d, "head_b"@) && bias(11 + 13 * d, w.head_b)
            &&& arrays.len() == 12 + 13 * d
        }),
{
    let d = w.blk@.len() as int;
    names::patch_names();
    names::block_names(w.blk@[j].layer as int);
    patch_saved(w, fw, fm, fb, arrays, i);
    ends_saved(w, fw, fm, fb, arrays);
    block_saved(w, fw, fm, fb, arrays, j, 0);
    block_saved(w, fw, fm, fb, arrays, j, 1);
    block_saved(w, fw, fm, fb, arrays, j, 2);
    block_saved(w, fw, fm, fb, arrays, j, 3);
    block_saved(w, fw, fm, fb, arrays, j, 4);
    block_saved(w, fw, fm, fb, arrays, j, 5);
    let k = 10 + 13 * j + 6;
    assert((k - 10) / 13 == j && (k - 10) % 13 == 6);
    assert(w.blk.len() == w.blk@.len());
    assert(saved(fw, fm, fb, w, save_item(d, k), arrays[k]));
}

/// The order in which tensors are looked up, which decides what a failed load names: the patch
/// embedding, of each block the talking-heads matrix and the six parts, the classifier. Kernels
/// need four dimensions, matrices two, and biases are flat.
pub proof fn tensors_are_looked_up_in_order(d: int, i: int, j: int)
    requires
        num_items(d) <= usize::MAX,
        0 <= i < 4,
        0 <= j < d,
    ensures
        ({
            let at = |k: int, name: Seq<char>, rank: nat|
                item_name(d, load_item(d, k)) == name && item_rank(d, load_item(d, k)) == rank;
            let patch = "pe_proj"@ + text::decimal(i as nat);
            let block = "blk"@ + text::decimal(j as nat);
            &&& at(2 * i, patch + "_w"@, 4)
            &&& at(2 * i + 1, patch + "_b"@, 1)
            &&& at(8, "pe_rpe_w"@, 4)
            &&& at(9, "pe_rpe_b"@, 1)
            &&& at(10 + 13 * j + 0, block + "_th_w"@, 2)
            &&& at(10 + 13 * j + 1, block + "_q_w"@, 4)
            &&& at(10 + 13 * j + 2, block + "_q_b"@, 1)
            &&& at(10 + 13 * j + 3, block + "_k_w"@, 4)
            &&& at(10 + 13 * j + 4, block + "_k_b"@, 1)
            &&& at(10 + 13 * j + 5, block + "_v_w"@, 4)
            &&& at(10 + 13 * j + 6, block + "_v_b"@, 1)
            &&& at(10 + 13 * j + 7, block + "_proj_w"@, 4)
            &&& at(10 + 13 * j + 8, block + "_proj_b"@, 1)
            &&& at(10 + 13 * j + 9, block + "_fc1_w"@, 4)
            &&& at(10 + 13 * j + 10, block + "_fc1_b"@, 1)
            &&& at(10 + 13 * j + 11, block + "_fc2_w"@, 4)
            &&& at(10 + 13 * j + 12, block + "_fc2_b"@, 1)
            &&& at(10 + 13 * d, "head_w"@, 2)
            &&& at(11 + 13 * d, "head_b"@, 1)
            &&& num_items(d) == 12 + 13 * d
        }),
{
    names::patch_names();
    names::block_names(j);
    patch_looked_up(d, i);
    ends_looked_up(d);
    block_looked_up(d, j, 0);
    block_looked_up(d, j, 1);
    block_looked_up(d, j, 2);
    block_looked_up(d, j, 3);
    block_looked_up(d, j, 4);
    block_looked_up(d, j, 5);
    let k = 10 + 13 * j;
    assert((k - 10) / 13 == j && (k - 10) % 13 == 0);
}

/// A kernel is usable if the product of its first four dimensions is the number of its elements, a
/// matrix if that of its first two is, and a bias in any shape.
pub proof fn usable_in_full(m: npz::ArrayModel)
    ensures
        usable(m, 4) <==> m.0.len() >= 4 && m.0[0] * m.0[1] * m.0[2] * m.0[3] == m.1.len(),
        usable(m, 2) <==> m.0.len() >= 2 && m.0[0] * m.0[1] == m.1.len(),
        usable(m, 1),
{
    let s = m.0;
    if s.len() >= 2 {
        product_of_two(s.take(2));
    }
    if s.len() >= 4 {
        let t = s.take(4);
        let u = t.drop_last();
        let v = u.drop_last();
        product_of_two(v);
        assert(npy::product(u) == npy::product(v) * (s[2] as nat));
        assert(npy::product(t) == npy::product(u) * (s[3] as nat));
    }
}

proof fn product_of_two(s: Seq<usize>)
    requires
        s.len() == 2,
    ensures
        npy::product(s) == s[0] * s[1],
{
    let t = s.drop_last();
    let e = t.drop_last();
    assert(npy::product(e) == 1);
    assert(npy::product(t) == npy::product(e) * (s[0] as nat));
    assert(1 * (s[0] as nat) == s[0]);
    assert(npy::product(s) == npy::product(t) * (s[1] as nat));
}

/// A failed load names the first tensor in the order of looking up that is missing or misshapen:
/// everything before it was found.
pub proof fn failures_name_the_first_fault(z: Npz, d: int, e: LoadError, k: int, m: int)
    requires
        // what `load_weights` says of an error
        load_failed_at(z, d, e, k),
    ensures
        0 <= k < 12 + 13 * d,
        0 <= m < k ==> z.array(item_name(d, load_item(d, m))) is Some,
        e matches LoadError::Missing(n) ==> z.array(n@) is None && n@ == item_name(
            d,
            load_item(d, k),
        ),
        e matches LoadError::Shape(n) ==> z.array(n@) is Some && n@ == item_name(
            d,
            load_item(d, k),
        ),
{
    if 0 <= m < k {
        assert(item_ok(z, d, load_item(d, m)));
    }
}

} // verus!
