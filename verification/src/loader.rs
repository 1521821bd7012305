//! The image data set: loading, batches of static frames, shuffled orders.

use crate::npy;
use crate::npy::{NpyData, NpyElems, NpyTensor};
use crate::npz::{ArrayModel, Npz};
use rand::seq::SliceRandom;
use rand::SeedableRng;
use vstd::prelude::*;

verus! {

/// Image channels.
pub const C: usize = 3;

/// Image height.
pub const H: usize = 32;

/// Image width.
pub const W: usize = 32;

/// Numbers of one image.
pub const FRAME: usize = 3072;

/// A part of the data set.
#[derive(Clone, Copy, Debug, PartialEq, Eq, Structural)]
pub enum Split {
    Train,
    Test,
}

/// The whole data set in memory. Pixels are bits of 32-bit floats, image after image, each
/// by channel, row and column.
pub struct Cifar10Npz {
    pub train_x: Vec<u32>,
    pub train_y: Vec<i64>,
    pub test_x: Vec<u32>,
    pub test_y: Vec<i64>,
    pub n_train: usize,
    pub n_test: usize,
}

/// An array of the archive that the data set needs.
#[derive(Clone, Copy, Debug, PartialEq, Eq, Structural)]
pub enum DataKey {
    TrainX,
    TrainY,
    TestX,
    TestY,
}

/// Why a data set was not loaded.
#[derive(Clone, Copy, Debug, PartialEq, Eq, Structural)]
pub enum DataError {
    /// An array is missing.
    Missing(DataKey),
    /// Images are not `[N, 3, 32, 32]`.
    Shape(DataKey),
    /// There are not as many labels as images.
    Labels(DataKey),
}

impl DataKey {
    /// Name of the array.
    pub open spec fn key(self) -> Seq<char> {
        match self {
            DataKey::TrainX => "train_x"@,
            DataKey::TrainY => "train_y"@,
            DataKey::TestX => "test_x"@,
            DataKey::TestY => "test_y"@,
        }
    }

    /// Name of the array.
    pub fn name(self) -> (s: &'static str)
        ensures
            s@ == self.key(),
    {
        match self {
            DataKey::TrainX => "train_x",
            DataKey::TrainY => "train_y",
            DataKey::TestX => "test_x",
            DataKey::TestY => "test_y",
        }
    }
}

impl Cifar10Npz {
    /// Pixels of a part.
    pub open spec fn pixels(self, split: Split) -> Seq<u32> {
        match split {
            Split::Train => self.train_x@,
            Split::Test => self.test_x@,
        }
    }

    /// Labels of a part.
    pub open spec fn labels(self, split: Split) -> Seq<i64> {
        match split {
            Split::Train => self.train_y@,
            Split::Test => self.test_y@,
        }
    }

    /// Number of images of a part.
    pub open spec fn count(self, split: Split) -> int {
        match split {
            Split::Train => self.n_train as int,
            Split::Test => self.n_test as int,
        }
    }

    /// Each part has a whole frame and a label for each of its images.
    pub open spec fn wf(self) -> bool {
        forall|s: Split|
            {
                &&& #[trigger] self.pixels(s).len() == self.count(s) * FRAME
                &&& self.labels(s).len() == self.count(s)
            }
    }
}

/// The array of a key.
pub open spec fn array_of(z: Npz, key: DataKey) -> Option<ArrayModel> {
    z.array(key.key())
}

/// Whether an array holds whole images: `[N, 3, 32, 32]`.
pub open spec fn is_images(shape: Seq<usize>, n: nat) -> bool {
    shape.len() == 4 && shape[1] == C && shape[2] == H && shape[3] == W && n == shape[0] * FRAME
}

/// Number of elements of an array.
fn element_count(t: &NpyTensor) -> (n: usize)
    ensures
        n == t.data.elems().len(),
{
    match &t.data {
        NpyData::F32(v) => v.len(),
        NpyData::F64(v) => v.len(),
        NpyData::Int(v) => v.len(),
    }
}

/// Number of images of an array of images.
fn image_count(t: &NpyTensor) -> (r: Option<usize>)
    ensures
        match r {
            Some(n) => is_images(t.shape@, t.data.elems().len()) && n == t.shape@[0],
            None => !is_images(t.shape@, t.data.elems().len()),
        },
{
    if t.shape.len() == 4 && t.shape[1] == C && t.shape[2] == H && t.shape[3] == W {
        let n: usize = t.shape[0];
        let count: usize = element_count(t);
        if count % FRAME == 0 && count / FRAME == n {
            return Some(n);
        }
    }
    None
}

/// Whether these are the bits of the elements as 32-bit floats: bits of 64-bit floats are
/// narrowed, integers are turned into floats.
pub open spec fn are_floats<FN: Fn(u64) -> u32, FI: Fn(i64) -> u32>(
    narrow: FN,
    float: FI,
    elems: NpyElems,
    r: Seq<u32>,
) -> bool {
    r.len() == elems.len() && match elems {
        NpyElems::F32(v) => r == v,
        NpyElems::F64(v) => forall|i: int|
            0 <= i < r.len() ==> narrow.ensures((v[i],), #[trigger] r[i]),
        NpyElems::Int(v) => forall|i: int|
            0 <= i < r.len() ==> float.ensures((v[i],), #[trigger] r[i]),
    }
}

/// Elements as bits of 32-bit floats.
fn to_floats<FN: Fn(u64) -> u32, FI: Fn(i64) -> u32>(
    t: &NpyTensor,
    narrow: &FN,
    float: &FI,
) -> (r: Vec<u32>)
    requires
        forall|b: u64| narrow.requires((b,)),
        forall|x: i64| float.requires((x,)),
    ensures
        are_floats(*narrow, *float, t.data.elems(), r@),
{
    let mut r: Vec<u32> = Vec::new();
    let mut i: usize = 0;
    match &t.data {
        NpyData::F32(v) => {
            while i < v.len()
                invariant
                    i <= v@.len(),
                    r@ == v@.take(i as int),
                decreases v@.len() - i,
            {
                r.push(v[i]);
                i += 1;
                assert(r@ =~= v@.take(i as int));
            }
            assert(r@ =~= v@);
        },
        NpyData::F64(v) => {
            while i < v.len()
                invariant
                    i <= v@.len(),
                    forall|b: u64| narrow.requires((b,)),
                    r@.len() == i,
                    forall|k: int| 0 <= k < i ==> narrow.ensures((v@[k],), #[trigger] r@[k]),
                decreases v@.len() - i,
            {
                r.push(narrow(v[i]));
                i += 1;
            }
        },
        NpyData::Int(v) => {
            while i < v.len()
                invariant
                    i <= v@.len(),
                    forall|x: i64| float.requires((x,)),
                    r@.len() == i,
                    forall|k: int| 0 <= k < i ==> float.ensures((v@[k],), #[trigger] r@[k]),
                decreases v@.len() - i,
            {
                r.push(float(v[i]));
                i += 1;
            }
        },
    }
    r
}

/// Whether `y` is the label of a 64-bit float: it is narrowed first.
pub open spec fn wide_label<FN: Fn(u64) -> u32, FL: Fn(u32) -> i64>(
    narrow: FN,
    label: FL,
    x: u64,
    y: i64,
) -> bool {
    exists|b: u32| #[trigger] narrow.ensures((x,), b) && label.ensures((b,), y)
}

/// Whether `y` is the label of an integer: it is read as a 32-bit float first.
pub open spec fn int_label<FI: Fn(i64) -> u32, FL: Fn(u32) -> i64>(
    float: FI,
    label: FL,
    x: i64,
    y: i64,
) -> bool {
    exists|b: u32| #[trigger] float.ensures((x,), b) && label.ensures((b,), y)
}

/// Whether these are the elements as labels: each is read as a 32-bit float, which is turned into
/// an integer.
pub open spec fn are_labels<FN: Fn(u64) -> u32, FI: Fn(i64) -> u32, FL: Fn(u32) -> i64>(
    narrow: FN,
    float: FI,
    label: FL,
    elems: NpyElems,
    r: Seq<i64>,
) -> bool {
    r.len() == elems.len() && match elems {
        NpyElems::F32(v) => forall|i: int|
            0 <= i < r.len() ==> label.ensures((v[i],), #[trigger] r[i]),
        NpyElems::F64(v) => forall|i: int|
            0 <= i < r.len() ==> wide_label(narrow, label, v[i], #[trigger] r[i]),
        NpyElems::Int(v) => forall|i: int|
            0 <= i < r.len() ==> int_label(float, label, v[i], #[trigger] r[i]),
    }
}

/// Elements as labels.
fn to_labels<FN: Fn(u64) -> u32, FI: Fn(i64) -> u32, FL: Fn(u32) -> i64>(
    t: &NpyTensor,
    narrow: &FN,
    float: &FI,
    label: &FL,
) -> (r: Vec<i64>)
    requires
        forall|b: u64| narrow.requires((b,)),
        forall|x: i64| float.requires((x,)),
        forall|b: u32| label.requires((b,)),
    ensures
        are_labels(*narrow, *float, *label, t.data.elems(), r@),
{
    let mut r: Vec<i64> = Vec::new();
    let mut i: usize = 0;
    match &t.data {
        NpyData::F32(v) => {
            while i < v.len()
                invariant
                    i <= v@.len(),
                    forall|b: u32| label.requires((b,)),
                    r@.len() == i,
                    forall|k: int| 0 <= k < i ==> label.ensures((v@[k],), #[trigger] r@[k]),
                decreases v@.len() - i,
            {
                r.push(label(v[i]));
                i += 1;
            }
        },
        NpyData::F64(v) => {
            while i < v.len()
                invariant
                    i <= v@.len(),
                    forall|b: u64| narrow.requires((b,)),
                    forall|b: u32| label.requires((b,)),
                    r@.len() == i,
                    forall|k: int|
                        0 <= k < i ==> wide_label(*narrow, *label, v@[k], #[trigger] r@[k]),
                decreases v@.len() - i,
            {
                let b: u32 = narrow(v[i]);
                r.push(label(b));
                i += 1;
            }
        },
        NpyData::Int(v) => {
            while i < v.len()
                invariant
                    i <= v@.len(),
                    forall|x: i64| float.requires((x,)),
                    forall|b: u32| label.requires((b,)),
                    r@.len() == i,
                    forall|k: int|
                        0 <= k < i ==> int_label(*float, *label, v@[k], #[trigger] r@[k]),
                decreases v@.len() - i,
            {
                let b: u32 = float(v[i]);
                r.push(label(b));
                i += 1;
            }
        },
    }
    r
}

/// What an archive gives of a data set: the arrays are looked up first, then the shapes of
/// the images are checked, then the numbers of labels.
pub open spec fn load_error(z: Npz) -> Option<DataError> {
    if array_of(z, DataKey::TrainX) is None {
        Some(DataError::Missing(DataKey::TrainX))
    } else if array_of(z, DataKey::TrainY) is None {
        Some(DataError::Missing(DataKey::TrainY))
    } else if array_of(z, DataKey::TestX) is None {
        Some(DataError::Missing(DataKey::TestX))
    } else if array_of(z, DataKey::TestY) is None {
        Some(DataError::Missing(DataKey::TestY))
    } else {
        let tx = array_of(z, DataKey::TrainX)->0;
        let ty = array_of(z, DataKey::TrainY)->0;
        let ex = array_of(z, DataKey::TestX)->0;
        let ey = array_of(z, DataKey::TestY)->0;
        if !is_images(tx.0, tx.1.len()) {
            Some(DataError::Shape(DataKey::TrainX))
        } else if !is_images(ex.0, ex.1.len()) {
            Some(DataError::Shape(DataKey::TestX))
        } else if ty.1.len() != tx.0[0] {
            Some(DataError::Labels(DataKey::TrainY))
        } else if ey.1.len() != ex.0[0] {
            Some(DataError::Labels(DataKey::TestY))
        } else {
            None
        }
    }
}

/// Number of images of an array.
pub open spec fn images_in(z: Npz, key: DataKey) -> int {
    (array_of(z, key)->0).0[0] as int
}

/// Elements of an array.
pub open spec fn elems_in(z: Npz, key: DataKey) -> NpyElems {
    (array_of(z, key)->0).1
}

impl Cifar10Npz {
    /// Takes the data set out of an archive, whatever type its elements have. `narrow` makes a
    /// 32-bit float of a 64-bit one, `float` makes one of an integer, and `label` makes a label
    /// of a float, all by their bits.
    pub fn load<FN: Fn(u64) -> u32, FI: Fn(i64) -> u32, FL: Fn(u32) -> i64>(
        z: &Npz,
        narrow: &FN,
        float: &FI,
        label: &FL,
    ) -> (r: Result<Cifar10Npz, DataError>)
        requires
            forall|b: u64| narrow.requires((b,)),
            forall|x: i64| float.requires((x,)),
            forall|b: u32| label.requires((b,)),
        ensures
            match r {
                Ok(d) => {
                    &&& load_error(*z) is None
                    &&& d.wf()
                    &&& d.n_train == images_in(*z, DataKey::TrainX)
                    &&& d.n_test == images_in(*z, DataKey::TestX)
                    &&& are_floats(*narrow, *float, elems_in(*z, DataKey::TrainX), d.train_x@)
                    &&& are_floats(*narrow, *float, elems_in(*z, DataKey::TestX), d.test_x@)
                    &&& are_labels(
                        *narrow,
                        *float,
                        *label,
                        elems_in(*z, DataKey::TrainY),
                        d.train_y@,
                    )
                    &&& are_labels(
                        *narrow,
                        *float,
                        *label,
                        elems_in(*z, DataKey::TestY),
                        d.test_y@,
                    )
                },
                Err(e) => load_error(*z) == Some(e),
            },
    {
        let tx = match z.get(DataKey::TrainX.name()) {
            Some(t) => t,
            None => {
                return Err(DataError::Missing(DataKey::TrainX));
            },
        };
        let ty = match z.get(DataKey::TrainY.name()) {
            Some(t) => t,
            None => {
                return Err(DataError::Missing(DataKey::TrainY));
            },
        };
        let ex = match z.get(DataKey::TestX.name()) {
            Some(t) => t,
            None => {
                return Err(DataError::Missing(DataKey::TestX));
            },
        };
        let ey = match z.get(DataKey::TestY.name()) {
            Some(t) => t,
            None => {
                return Err(DataError::Missing(DataKey::TestY));
            },
        };
        let n_train: usize = match image_count(tx) {
            Some(n) => n,
            None => {
                return Err(DataError::Shape(DataKey::TrainX));
            },
        };
        let n_test: usize = match image_count(ex) {
            Some(n) => n,
            None => {
                return Err(DataError::Shape(DataKey::TestX));
            },
        };
        if element_count(ty) != n_train {
            return Err(DataError::Labels(DataKey::TrainY));
        }
        if element_count(ey) != n_test {
            return Err(DataError::Labels(DataKey::TestY));
        }
        let d = Cifar10Npz {
            train_x: to_floats(tx, narrow, float),
            train_y: to_labels(ty, narrow, float, label),
            test_x: to_floats(ex, narrow, float),
            test_y: to_labels(ey, narrow, float, label),
            n_train,
            n_test,
        };
        assert forall|s: Split| #[trigger] d.pixels(s).len() == d.count(s) * FRAME && d.labels(
            s,
        ).len() == d.count(s) by {
            match s {
                Split::Train => {},
                Split::Test => {},
            }
        }
        Ok(d)
    }

    /// Pixels of a part, image after image.
    pub fn pixels_flat(&self, split: Split) -> (v: &[u32])
        ensures
            v@ == self.pixels(split),
    {
        match split {
            Split::Train => self.train_x.as_slice(),
            Split::Test => self.test_x.as_slice(),
        }
    }

    /// Labels of a part.
    pub fn labels_i64(&self, split: Split) -> (v: &[i64])
        ensures
            v@ == self.labels(split),
    {
        match split {
            Split::Train => self.train_y.as_slice(),
            Split::Test => self.test_y.as_slice(),
        }
    }
}

/// Number `i` of a batch of `indices`: the frames of all images, once for each time step.
pub open spec fn batch_pixel(pixels: Seq<u32>, indices: Seq<usize>, i: int) -> u32 {
    pixels[indices[(i / FRAME as int) % indices.len() as int] * FRAME + i % FRAME as int]
}

/// A batch: pixels `[T, B, 3, 32, 32]` and labels `[B]`.
pub struct Batch {
    pub images: Vec<u32>,
    pub labels: Vec<i64>,
}

/// Appends the frame of image `si`.
fn push_frame(out: &mut Vec<u32>, pixels: &[u32], si: usize)
    requires
        (si + 1) * FRAME <= pixels@.len(),
    ensures
        final(out)@ == old(out)@ + pixels@.subrange(si * FRAME, (si + 1) * FRAME),
{
    assert(pixels@.len() == pixels.len());
    let src: usize = si * FRAME;
    let mut p: usize = 0;
    assert(out@ =~= old(out)@ + pixels@.subrange(src as int, src as int));
    while p < FRAME
        invariant
            p <= FRAME,
            src + FRAME <= pixels@.len() == pixels.len(),
            out@ == old(out)@ + pixels@.subrange(src as int, src + p),
        decreases FRAME - p,
    {
        out.push(pixels[src + p]);
        p += 1;
        assert(out@ =~= old(out)@ + pixels@.subrange(src as int, src + p));
    }
}

impl Cifar10Npz {
    /// A batch of images. Every time step shows the same static frames.
    pub fn get_batch(&self, split: Split, indices: &[usize], t: usize) -> (r: Batch)
        requires
            self.wf(),
            indices@.len() > 0,
            t > 0,
            forall|i: int| 0 <= i < indices@.len() ==> #[trigger] indices@[i] < self.count(split),
            t * indices@.len() * FRAME <= usize::MAX,
        ensures
            r.images@.len() == t * indices@.len() * FRAME,
            forall|i: int|
                0 <= i < r.images@.len() ==> #[trigger] r.images@[i] == batch_pixel(
                    self.pixels(split),
                    indices@,
                    i,
                ),
            r.labels@.len() == indices@.len(),
            forall|i: int|
                0 <= i < r.labels@.len() ==> #[trigger] r.labels@[i] == self.labels(
                    split,
                )[indices@[i] as int],
    {
        let pixels = self.pixels_flat(split);
        let labels = self.labels_i64(split);
        let b: usize = indices.len();
        let ghost px = self.pixels(split);
        assert(px.len() == self.count(split) * FRAME);
        let mut images: Vec<u32> = Vec::new();
        let mut ti: usize = 0;
        while ti < t
            invariant
                ti <= t,
                b == indices@.len() > 0,
                pixels@ == px,
                px.len() == self.count(split) * FRAME,
                forall|i: int|
                    0 <= i < indices@.len() ==> #[trigger] indices@[i] < self.count(split),
                images@.len() == ti * b * FRAME,
                forall|i: int|
                    0 <= i < images@.len() ==> #[trigger] images@[i] == batch_pixel(
                        px,
                        indices@,
                        i,
                    ),
            decreases t - ti,
        {
            let mut bi: usize = 0;
            assert(ti * b * FRAME == (ti * b + bi) * FRAME) by (nonlinear_arith)
                requires
                    bi == 0,
            ;
            while bi < b
                invariant
                    bi <= b,
                    b == indices@.len() > 0,
                    pixels@ == px,
                    px.len() == self.count(split) * FRAME,
                    forall|i: int|
                        0 <= i < indices@.len() ==> #[trigger] indices@[i] < self.count(split),
                    images@.len() == (ti * b + bi) * FRAME,
                    forall|i: int|
                        0 <= i < images@.len() ==> #[trigger] images@[i] == batch_pixel(
                            px,
                            indices@,
                            i,
                        ),
                decreases b - bi,
            {
                let si: usize = indices[bi];
                let ghost before = images@;
                let ghost q = ti * b + bi;
                push_frame(&mut images, pixels, si);
                proof {
                    assert(ti * b >= 0) by (nonlinear_arith);
                    vstd::arithmetic::div_mod::lemma_fundamental_div_mod_converse(
                        q,
                        b as int,
                        ti as int,
                        bi as int,
                    );
                    assert forall|i: int| 0 <= i < images@.len() implies #[trigger] images@[i]
                        == batch_pixel(px, indices@, i) by {
                        if i < before.len() {
                            assert(images@[i] == before[i]);
                        } else {
                            let p = i - q * FRAME;
                            assert(i / FRAME as int == q && i % FRAME as int == p);
                            assert(images@[i] == px.subrange(
                                si * FRAME,
                                (si + 1) * FRAME,
                            )[p]);
                        }
                    }
                }
                bi += 1;
            }
            assert((ti * b + b) * FRAME == (ti + 1) * b * FRAME) by (nonlinear_arith);
            ti += 1;
        }
        let mut ys: Vec<i64> = Vec::new();
        let mut i: usize = 0;
        while i < b
            invariant
                i <= b == indices@.len(),
                labels@ == self.labels(split),
                labels@.len() == self.count(split),
                forall|i: int|
                    0 <= i < indices@.len() ==> #[trigger] indices@[i] < self.count(split),
                ys@.len() == i,
                forall|k: int| 0 <= k < i ==> #[trigger] ys@[k] == labels@[indices@[k] as int],
            decreases b - i,
        {
            ys.push(labels[indices[i]]);
            i += 1;
        }
        Batch { images, labels: ys }
    }
}

/// Every time step of a batch shows the frames of the first one.
pub proof fn time_steps_repeat(pixels: Seq<u32>, indices: Seq<usize>, t: int, i: int)
    requires
        indices.len() > 0,
        0 <= t,
        0 <= i < indices.len() * FRAME,
    ensures
        batch_pixel(pixels, indices, t * (indices.len() * FRAME) + i) == batch_pixel(
            pixels,
            indices,
            i,
        ),
{
    let b = indices.len() as int;
    let q = i / FRAME as int;
    let p = i % FRAME as int;
    let j = t * (b * FRAME) + i;
    assert(j == (t * b + q) * FRAME + p) by (nonlinear_arith)
        requires
            j == t * (b * FRAME) + i,
            i == q * FRAME + p,
    ;
    vstd::arithmetic::div_mod::lemma_fundamental_div_mod_converse(
        j,
        FRAME as int,
        t * b + q,
        p,
    );
    assert(0 <= q < b);
    vstd::arithmetic::div_mod::lemma_fundamental_div_mod_converse(t * b + q, b, t, q);
    vstd::arithmetic::div_mod::lemma_fundamental_div_mod_converse(q, b, 0, q);
}

/// What a seeded generator makes of a list by shuffling it.
pub uninterp spec fn shuffled(v: Seq<usize>, seed: u64) -> Seq<usize>;

/// `rand::seq::SliceRandom::shuffle` with `rand::rngs::StdRng::seed_from_u64`: shuffles a list
/// in place with a generator that is made of the seed and used for nothing else.
///
/// The outcome is a function of the list and the seed, and only moves the items around.
#[verifier::external_body]
fn shuffle_seeded(v: &mut Vec<usize>, seed: u64)
    ensures
        final(v)@ == shuffled(old(v)@, seed),
        final(v)@.to_multiset() == old(v)@.to_multiset(),
{
    let mut rng = rand::rngs::StdRng::seed_from_u64(seed);
    v.shuffle(&mut rng);
}

/// The numbers below `n`, in order.
pub open spec fn below(n: int) -> Seq<usize> {
    Seq::new(n as nat, |i: int| i as usize)
}

/// Whether a list holds every number below `n` exactly once.
pub open spec fn is_order(v: Seq<usize>, n: int) -> bool {
    &&& v.len() == n
    &&& forall|i: int| 0 <= i < n ==> (#[trigger] v[i]) < n
    &&& forall|i: int, j: int| 0 <= i < j < n ==> v[i] != v[j]
    &&& forall|k: usize| k < n ==> v.contains(k)
}

/// A list with the items of `below(n)` is an order of the numbers below `n`.
proof fn same_items_is_order(v: Seq<usize>, n: usize)
    requires
        v.to_multiset() == below(n as int).to_multiset(),
    ensures
        is_order(v, n as int),
{
    broadcast use vstd::seq_lib::group_to_multiset_ensures;

    let w = below(n as int);
    assert(w.no_duplicates());
    w.lemma_multiset_has_no_duplicates();
    v.lemma_multiset_has_no_duplicates_conv();
    assert(v.len() == v.to_multiset().len());
    assert(w.len() == w.to_multiset().len());
    assert forall|i: int| 0 <= i < n implies (#[trigger] v[i]) < n by {
        assert(v.contains(v[i]));
        assert(v.to_multiset().count(v[i]) > 0);
        assert(w.contains(v[i]));
    }
    assert forall|k: usize| k < n implies v.contains(k) by {
        assert(w[k as int] == k);
        assert(w.contains(k));
        assert(w.to_multiset().count(k) > 0);
    }
}

/// The numbers below `n`, in order.
pub fn indices_below(n: usize) -> (v: Vec<usize>)
    ensures
        v@ == below(n as int),
{
    let mut v: Vec<usize> = Vec::new();
    let mut i: usize = 0;
    while i < n
        invariant
            i <= n,
            v@ == below(i as int),
        decreases n - i,
    {
        v.push(i);
        assert(v@ =~= below(i + 1));
        i += 1;
    }
    v
}

/// A shuffled order of the numbers below `n`. The same seed gives the same order.
pub fn shuffled_indices(n: usize, seed: u64) -> (v: Vec<usize>)
    ensures
        v@ == shuffled(below(n as int), seed),
        is_order(v@, n as int),
{
    let mut v: Vec<usize> = indices_below(n);
    shuffle_seeded(&mut v, seed);
    proof {
        same_items_is_order(v@, n);
    }
    v
}

/// Marks of a one-hot matrix: one row for each index, set at the label of its image.
pub open spec fn hot(labels: Seq<i64>, idx: Seq<usize>, classes: int, i: int) -> bool {
    labels[idx[i / classes] as int] == i % classes
}

/// One-hot rows of the labels of some images, row after row.
pub fn one_hot(labels: &[i64], idx: &[usize], num_classes: usize) -> (r: Vec<bool>)
    requires
        forall|i: int| 0 <= i < idx@.len() ==> #[trigger] idx@[i] < labels@.len(),
        forall|i: int|
            0 <= i < idx@.len() ==> 0 <= labels@[#[trigger] idx@[i] as int] < num_classes,
        idx@.len() * num_classes <= usize::MAX,
    ensures
        r@.len() == idx@.len() * num_classes,
        forall|i: int|
            0 <= i < r@.len() ==> #[trigger] r@[i] == hot(labels@, idx@, num_classes as int, i),
{
    let mut r: Vec<bool> = Vec::new();
    let mut i: usize = 0;
    while i < idx.len()
        invariant
            i <= idx@.len(),
            forall|i: int| 0 <= i < idx@.len() ==> #[trigger] idx@[i] < labels@.len(),
            forall|i: int|
                0 <= i < idx@.len() ==> 0 <= labels@[#[trigger] idx@[i] as int] < num_classes,
            r@.len() == i * num_classes,
            forall|k: int|
                0 <= k < r@.len() ==> #[trigger] r@[k] == hot(
                    labels@,
                    idx@,
                    num_classes as int,
                    k,
                ),
        decreases idx@.len() - i,
    {
        assert(idx@[i as int] < labels@.len());
        let y: usize = labels[idx[i]] as usize;
        let mut c: usize = 0;
        while c < num_classes
            invariant
                c <= num_classes,
                i < idx@.len(),
                y == labels@[idx@[i as int] as int],
                r@.len() == i * num_classes + c,
                forall|k: int|
                    0 <= k < r@.len() ==> #[trigger] r@[k] == hot(
                        labels@,
                        idx@,
                        num_classes as int,
                        k,
                    ),
            decreases num_classes - c,
        {
            proof {
                vstd::arithmetic::div_mod::lemma_fundamental_div_mod_converse(
                    i * num_classes + c,
                    num_classes as int,
                    i as int,
                    c as int,
                );
            }
            r.push(c == y);
            c += 1;
        }
        assert((i + 1) * num_classes == i * num_classes + num_classes) by (nonlinear_arith);
        i += 1;
    }
    r
}

/// How many of the first `n` predictions agree with their targets.
pub open spec fn agreements(pred: Seq<i64>, target: Seq<i64>, n: int) -> int
    decreases n,
{
    if n <= 0 {
        0
    } else {
        agreements(pred, target, n - 1) + if pred[n - 1] == target[n - 1] {
            1int
        } else {
            0int
        }
    }
}

/// How many predictions agree with their targets, as far as both lists go.
pub fn count_correct(pred: &[i64], target: &[i64]) -> (n: usize)
    ensures
        n == agreements(
            pred@,
            target@,
            if pred@.len() < target@.len() {
                pred@.len() as int
            } else {
                target@.len() as int
            },
        ),
        n <= pred@.len(),
{
    let m: usize = if pred.len() < target.len() {
        pred.len()
    } else {
        target.len()
    };
    let mut n: usize = 0;
    let mut i: usize = 0;
    while i < m
        invariant
            i <= m,
            m <= pred@.len(),
            m <= target@.len(),
            n <= i,
            n == agreements(pred@, target@, i as int),
        decreases m - i,
    {
        if pred[i] == target[i] {
            n += 1;
        }
        i += 1;
    }
    n
}

/// Bounds of batch `k` of `n` items: all batches have `size` items but the last.
pub open spec fn batch_bounds(n: int, size: int, k: int) -> (int, int) {
    (
        k * size,
        if (k + 1) * size < n {
            (k + 1) * size
        } else {
            n
        },
    )
}

/// Number of batches.
pub open spec fn batch_count(n: int, size: int) -> int {
    (n + size - 1) / size
}

/// Splits `n` items into batches, in order.
pub fn batches(n: usize, size: usize) -> (r: Vec<(usize, usize)>)
    requires
        size > 0,
    ensures
        r@.len() == batch_count(n as int, size as int),
        forall|k: int|
            0 <= k < r@.len() ==> ((#[trigger] r@[k]).0 as int, r@[k].1 as int) == batch_bounds(
                n as int,
                size as int,
                k,
            ),
{
    let mut r: Vec<(usize, usize)> = Vec::new();
    let mut lo: usize = 0;
    let ghost mut k: int = 0;
    proof {
        assert(0 * size == 0);
    }
    while lo < n
        invariant
            size > 0,
            0 <= k,
            r@.len() == k,
            lo == if k * size < n {
                k * size
            } else {
                n as int
            },
            k > 0 ==> (k - 1) * size < n,
            forall|i: int|
                0 <= i < r@.len() ==> ((#[trigger] r@[i]).0 as int, r@[i].1 as int) == batch_bounds(
                    n as int,
                    size as int,
                    i,
                ),
        decreases n - lo,
    {
        let hi: usize = if n - lo > size {
            lo + size
        } else {
            n
        };
        assert((k + 1) * size == k * size + size) by (nonlinear_arith);
        r.push((lo, hi));
        lo = hi;
        proof {
            k = k + 1;
        }
    }
    proof {
        let s = size as int;
        let m = n as int;
        if k > 0 {
            assert(k * s == (k - 1) * s + s) by (nonlinear_arith);
            let rest = m + s - 1 - k * s;
            assert(0 <= rest < s);
            vstd::arithmetic::div_mod::lemma_fundamental_div_mod_converse(m + s - 1, s, k, rest);
        } else {
            vstd::arithmetic::div_mod::lemma_fundamental_div_mod_converse(m + s - 1, s, 0, s - 1);
        }
    }
    r
}

/// Batches lie end to end, none is empty, and together they cover every item.
pub proof fn batches_cover(n: int, size: int, k: int)
    requires
        size > 0,
        0 <= k < batch_count(n, size),
        0 <= n,
    ensures
        batch_bounds(n, size, 0).0 == 0,
        batch_bounds(n, size, k).0 < batch_bounds(n, size, k).1 <= n,
        k + 1 < batch_count(n, size) ==> batch_bounds(n, size, k).1 == batch_bounds(
            n,
            size,
            k + 1,
        ).0,
        k + 1 == batch_count(n, size) ==> batch_bounds(n, size, k).1 == n,
{
    let c = batch_count(n, size);
    vstd::arithmetic::div_mod::lemma_fundamental_div_mod(n + size - 1, size);
    vstd::arithmetic::div_mod::lemma_mod_bound(n + size - 1, size);
    assert((k + 1) * size == k * size + size) by (nonlinear_arith);
    assert(c * size == size * c) by (nonlinear_arith);
    assert((k + 1) * size <= c * size) by (nonlinear_arith)
        requires
            k + 1 <= c,
            size > 0,
    ;
    if k + 1 < c {
        assert((k + 2) * size == (k + 1) * size + size) by (nonlinear_arith);
        assert((k + 2) * size <= c * size) by (nonlinear_arith)
            requires
                k + 2 <= c,
                size > 0,
        ;
    }
    assert(0 * size == 0);
}

/// Every batch but the last holds as many items as asked for, and the last no more; each item is
/// in the batch that its number divided by the size gives.
pub proof fn batches_are_full(n: int, size: int, k: int, i: int)
    requires
        size > 0,
        0 <= n,
        0 <= k < batch_count(n, size),
        0 <= i < n,
    ensures
        ({
            let b = batch_bounds(n, size, k);
            &&& b.1 - b.0 <= size
            &&& k + 1 < batch_count(n, size) ==> b.1 - b.0 == size
            &&& b.0 <= i < b.1 <==> i / size == k
        }),
{
    batches_cover(n, size, k);
    vstd::arithmetic::div_mod::lemma_fundamental_div_mod(i, size);
    vstd::arithmetic::div_mod::lemma_mod_bound(i, size);
    let q = i / size;
    assert((k + 1) * size == k * size + size) by (nonlinear_arith);
    if k + 1 < batch_count(n, size) {
        batches_cover(n, size, k + 1);
    }
    if q == k {
        assert(size * q == k * size) by (nonlinear_arith)
            requires
                q == k,
        ;
    } else if q < k {
        assert(i < k * size) by (nonlinear_arith)
            requires
                i == size * q + i % size,
                0 <= i % size < size,
                q + 1 <= k,
                size > 0,
        ;
    } else {
        assert(i >= (k + 1) * size) by (nonlinear_arith)
            requires
                i == size * q + i % size,
                0 <= i % size,
                q >= k + 1,
                size > 0,
        ;
    }
}

/// The names that the images and labels of the two splits have in an archive.
pub proof fn splits_are_read_by_name(z: Npz)
    ensures
        array_of(z, DataKey::TrainX) == z.array("train_x"@),
        array_of(z, DataKey::TrainY) == z.array("train_y"@),
        array_of(z, DataKey::TestX) == z.array("test_x"@),
        array_of(z, DataKey::TestY) == z.array("test_y"@),
{
}

/// Data loads exactly if both splits hold images of three channels of 32 by 32, and one label for
/// each. What is missing comes before what is misshapen, and that before labels that do not fit.
pub proof fn data_loads_if_it_fits(z: Npz)
    ensures
        ({
            let images = |name: Seq<char>|
                z.array(name) matches Some(a) && a.0.len() == 4 && a.0[1] == 3 && a.0[2] == 32
                    && a.0[3] == 32 && a.1.len() == a.0[0] * 3 * 32 * 32;
            let found = |name: Seq<char>| z.array(name) is Some;
            let all = found("train_x"@) && found("train_y"@) && found("test_x"@) && found(
                "test_y"@,
            );
            let shaped = all && images("train_x"@) && images("test_x"@);
            let labelled = |x: Seq<char>, y: Seq<char>|
                (z.array(y)->0).1.len() == (z.array(x)->0).0[0];
            &&& load_error(z) is None <==> shaped && labelled("train_x"@, "train_y"@) && labelled(
                "test_x"@,
                "test_y"@,
            )
            &&& load_error(z) matches Some(e) ==> match e {
                DataError::Missing(k) => !found(k.key()),
                DataError::Shape(k) => all && (k is TrainX || k is TestX) && !images(k.key()),
                DataError::Labels(k) => shaped && if k is TrainY {
                    !labelled("train_x"@, "train_y"@)
                } else {
                    k is TestY && !labelled("test_x"@, "test_y"@)
                },
            }
        }),
{
}

/// A pixel of a batch: at every time step, the images of the batch stand one after the other, each
/// with its channels, rows and columns as they are in the split.
pub proof fn batch_pixels_in_full(
    pixels: Seq<u32>,
    indices: Seq<usize>,
    t: int,
    b: int,
    c: int,
    h: int,
    w: int,
)
    requires
        0 <= t,
        0 <= b < indices.len(),
        0 <= c < 3,
        0 <= h < 32,
        0 <= w < 32,
    ensures
        batch_pixel(
            pixels,
            indices,
            (t * indices.len() + b) * 3072 + c * 1024 + h * 32 + w,
        ) == pixels[indices[b] * 3072 + c * 1024 + h * 32 + w],
{
    let n = indices.len() as int;
    let place = c * 1024 + h * 32 + w;
    let i = (t * n + b) * 3072 + place;
    assert(0 <= place < 3072);
    assert(t * n >= 0) by (nonlinear_arith)
        requires
            t >= 0,
            n >= 0,
    ;
    vstd::arithmetic::div_mod::lemma_fundamental_div_mod_converse(i, 3072, t * n + b, place);
    vstd::arithmetic::div_mod::lemma_fundamental_div_mod_converse(t * n + b, n, t, b);
}

/// A row of one-hot labels is hot at the label and nowhere else.
pub proof fn rows_are_hot_once(labels: Seq<i64>, idx: Seq<usize>, classes: int, row: int, c: int)
    requires
        0 <= row < idx.len(),
        0 <= c < classes,
    ensures
        hot(labels, idx, classes, row * classes + c) <==> labels[idx[row] as int] == c,
{
    vstd::arithmetic::div_mod::lemma_fundamental_div_mod_converse(
        row * classes + c,
        classes,
        row,
        c,
    );
}

/// The number of right answers: all are right exactly if it is their number, none exactly if it
/// is nothing, and it grows by one with each right answer alone.
pub proof fn right_answers_are_counted(pred: Seq<i64>, target: Seq<i64>, n: int)
    requires
        0 <= n <= pred.len(),
        n <= target.len(),
    ensures
        0 <= agreements(pred, target, n) <= n,
        agreements(pred, target, n) == n <==> forall|i: int| 0 <= i < n ==> pred[i] == target[i],
        agreements(pred, target, n) == 0 <==> forall|i: int| 0 <= i < n ==> pred[i] != target[i],
        n > 0 ==> (agreements(pred, target, n) == agreements(pred, target, n - 1) + 1 <==> pred[n
            - 1] == target[n - 1]),
        n > 0 ==> (agreements(pred, target, n) == agreements(pred, target, n - 1) <==> pred[n - 1]
            != target[n - 1]),
    decreases n,
{
    if n > 0 {
        right_answers_are_counted(pred, target, n - 1);
    }
}

/// What pixels and labels are made of. Pixels in single precision are taken as they are, wider
/// ones are narrowed and integers are converted. Labels are made of single precision: of what is
/// stored in it, or of what the same conversions give.
pub proof fn numbers_are_converted_once<
    FN: Fn(u64) -> u32,
    FI: Fn(i64) -> u32,
    FL: Fn(u32) -> i64,
>(
    narrow: FN,
    float: FI,
    label: FL,
    elems: NpyElems,
    pixels: Seq<u32>,
    labels: Seq<i64>,
    i: int,
)
    requires
        // what `Cifar10Npz::load` says of its pixels and labels
        are_floats(narrow, float, elems, pixels),
        are_labels(narrow, float, label, elems, labels),
        0 <= i < elems.len(),
    ensures
        pixels.len() == elems.len(),
        labels.len() == elems.len(),
        elems matches NpyElems::F32(v) ==> pixels[i] == v[i] && label.ensures((v[i],), labels[i]),
        elems matches NpyElems::F64(v) ==> narrow.ensures((v[i],), pixels[i]) && exists|b: u32|
            #[trigger] narrow.ensures((v[i],), b) && label.ensures((b,), labels[i]),
        elems matches NpyElems::Int(v) ==> float.ensures((v[i],), pixels[i]) && exists|b: u32|
            #[trigger] float.ensures((v[i],), b) && label.ensures((b,), labels[i]),
{
    match elems {
        NpyElems::F32(v) => {
            assert(label.ensures((v[i],), labels[i]));
        },
        NpyElems::F64(v) => {
            assert(narrow.ensures((v[i],), pixels[i]));
            assert(wide_label(narrow, label, v[i], labels[i]));
        },
        NpyElems::Int(v) => {
            assert(float.ensures((v[i],), pixels[i]));
            assert(int_label(float, label, v[i], labels[i]));
        },
    }
}

/// The arrays that the two splits are made of, and how many images each has.
pub proof fn splits_in_full(z: Npz)
    ensures
        elems_in(z, DataKey::TrainX) == (z.array("train_x"@)->0).1,
        elems_in(z, DataKey::TrainY) == (z.array("train_y"@)->0).1,
        elems_in(z, DataKey::TestX) == (z.array("test_x"@)->0).1,
        elems_in(z, DataKey::TestY) == (z.array("test_y"@)->0).1,
        images_in(z, DataKey::TrainX) == (z.array("train_x"@)->0).0[0],
        images_in(z, DataKey::TestX) == (z.array("test_x"@)->0).0[0],
{
}

/// The two splits are kept apart: images, labels and their number are those of the split that is
/// asked for.
pub proof fn splits_are_kept_apart(d: Cifar10Npz)
    ensures
        d.pixels(Split::Train) == d.train_x@,
        d.pixels(Split::Test) == d.test_x@,
        d.labels(Split::Train) == d.train_y@,
        d.labels(Split::Test) == d.test_y@,
        d.count(Split::Train) == d.n_train,
        d.count(Split::Test) == d.n_test,
{
}

} // verus!
