//! NPY arrays: one file of an NPZ archive, to and from bytes.
//!
//! Numbers are held by their bits: 32-bit and 64-bit floats as `u32` and `u64`, integers as
//! `i64`. Converting them to floats is left to the caller.

use crate::text;
use vstd::prelude::*;

verus! {

/// Why a file was not read.
#[derive(Clone, Debug)]
pub enum NpyError {
    /// Too short, or without the magic number.
    NotNpy,
    /// The header runs past the end of the file.
    Truncated,
    /// The header is not UTF-8.
    NotUtf8,
    /// The header has no element type.
    NoDescr,
    /// The header has no shape.
    NoShape,
    /// The number of elements does not fit a machine word.
    TooLarge,
    /// The element type is not supported.
    Dtype(Vec<char>),
    /// The data does not fill the shape, or the shape is too large for an array.
    Shape,
}

/// Why a file was not read, as a model.
pub enum NpyFault {
    NotNpy,
    Truncated,
    NotUtf8,
    NoDescr,
    NoShape,
    TooLarge,
    Dtype(Seq<char>),
    Shape,
}

impl NpyError {
    /// The model of an error.
    pub open spec fn fault(self) -> NpyFault {
        match self {
            NpyError::NotNpy => NpyFault::NotNpy,
            NpyError::Truncated => NpyFault::Truncated,
            NpyError::NotUtf8 => NpyFault::NotUtf8,
            NpyError::NoDescr => NpyFault::NoDescr,
            NpyError::NoShape => NpyFault::NoShape,
            NpyError::TooLarge => NpyFault::TooLarge,
            NpyError::Dtype(d) => NpyFault::Dtype(d@),
            NpyError::Shape => NpyFault::Shape,
        }
    }
}

/// Element types.
#[derive(Clone, Copy, Debug, PartialEq, Eq, Structural)]
pub enum Dtype {
    F4,
    F8,
    B1,
    I1,
    I2,
    I4,
    I8,
}

/// Elements in row-major order.
pub enum NpyData {
    /// Bits of 32-bit floats.
    F32(Vec<u32>),
    /// Bits of 64-bit floats.
    F64(Vec<u64>),
    /// Integers of any width, and truth values as 0 and 1.
    Int(Vec<i64>),
}

/// An array: its shape and its elements in row-major order.
pub struct NpyTensor {
    pub shape: Vec<usize>,
    pub data: NpyData,
}

/// Elements of an array, as a model.
#[verifier::ext_equal]
pub enum NpyElems {
    F32(Seq<u32>),
    F64(Seq<u64>),
    Int(Seq<i64>),
}

impl NpyData {
    /// The elements.
    pub open spec fn elems(self) -> NpyElems {
        match self {
            NpyData::F32(v) => NpyElems::F32(v@),
            NpyData::F64(v) => NpyElems::F64(v@),
            NpyData::Int(v) => NpyElems::Int(v@),
        }
    }
}

impl NpyElems {
    /// Number of elements.
    pub open spec fn len(self) -> nat {
        match self {
            NpyElems::F32(s) => s.len(),
            NpyElems::F64(s) => s.len(),
            NpyElems::Int(s) => s.len(),
        }
    }
}

/// Product of the dimensions.
pub open spec fn product(shape: Seq<usize>) -> nat
    decreases shape.len(),
{
    if shape.len() == 0 {
        1
    } else {
        product(shape.drop_last()) * (shape.last() as nat)
    }
}

/// Product of the dimensions that are not zero.
pub open spec fn nonzero_product(shape: Seq<usize>) -> nat
    decreases shape.len(),
{
    if shape.len() == 0 {
        1
    } else if shape.last() == 0 {
        nonzero_product(shape.drop_last())
    } else {
        nonzero_product(shape.drop_last()) * (shape.last() as nat)
    }
}

/// Whether the product of the dimensions can be computed from the left in machine words.
pub open spec fn countable(shape: Seq<usize>) -> bool
    decreases shape.len(),
{
    product(shape) <= usize::MAX && (shape.len() > 0 ==> countable(shape.drop_last()))
}

/// Whether an array with this shape and `n` elements can exist: the elements fill the shape,
/// and the dimensions that are not zero do not overflow a signed machine word.
pub open spec fn shape_holds(shape: Seq<usize>, n: nat) -> bool {
    nonzero_product(shape) <= isize::MAX && product(shape) == n
}

/// The error of [`ndarray::ArrayBase::from_shape_vec`].
#[verifier::external_type_specification]
#[verifier::external_body]
pub struct ExShapeError(ndarray::ShapeError);

/// `ndarray::ArrayD::from_shape_vec`: an array of a shape from its elements in row-major order.
///
/// It succeeds exactly when the elements fill the shape and the product of the non-zero
/// dimensions is at most `isize::MAX`; the elements are kept as they are.
#[verifier::external_body]
fn shaped<T>(shape: &[usize], v: Vec<T>) -> (r: Result<Vec<T>, ndarray::ShapeError>)
    ensures
        r is Ok <==> shape_holds(shape@, v@.len()),
        r matches Ok(w) ==> w@ == v@,
{
    let array = ndarray::ArrayD::from_shape_vec(ndarray::IxDyn(shape), v)?;
    Ok(array.into_raw_vec_and_offset().0)
}

/// `std::str::from_utf8`: the text of bytes, if they are UTF-8.
#[verifier::external_body]
fn utf8_text(bytes: &[u8]) -> (r: Option<&str>)
    ensures
        r is Some <==> vstd::utf8::valid_utf8(bytes@),
        r matches Some(s) ==> s@ == vstd::utf8::decode_utf8(bytes@),
{
    std::str::from_utf8(bytes).ok()
}

/// Value that stands between the first two quotes behind `key`.
pub open spec fn str_value(h: Seq<char>, key: Seq<char>) -> Option<Seq<char>> {
    match text::index_of(h, key, 0) {
        None => None,
        Some(pos) => match text::index_of_char(h, '\'', pos + key.len()) {
            None => None,
            Some(open) => match text::index_of_char(h, '\'', open + 1) {
                None => None,
                Some(close) => Some(h.subrange(open + 1, close)),
            },
        },
    }
}

/// Extracts the string value behind `key`.
pub fn extract_str(header: &[char], key: &[char]) -> (r: Option<Vec<char>>)
    ensures
        match r {
            Some(v) => str_value(header@, key@) == Some(v@),
            None => str_value(header@, key@) is None,
        },
{
    assert(header@.len() == header.len());
    match text::find(header, key) {
        None => None,
        Some(pos) => match text::find_char(header, '\'', pos + key.len()) {
            None => None,
            Some(open) => match text::find_char(header, '\'', open + 1) {
                None => None,
                Some(close) => Some(text::part(header, open + 1, close)),
            },
        },
    }
}

/// Dimensions among the first `n` pieces: a piece that is no number is skipped.
pub open spec fn dims_of(pieces: Seq<Seq<char>>, n: int) -> Seq<usize>
    decreases n,
{
    if n <= 0 {
        Seq::empty()
    } else {
        let before = dims_of(pieces, n - 1);
        match text::number_of(text::trimmed(pieces[n - 1]), usize::MAX as int) {
            Some(d) => before.push(d as usize),
            None => before,
        }
    }
}

/// The text between the first brackets behind `'shape'`.
pub open spec fn shape_inner(h: Seq<char>) -> Option<Seq<char>> {
    match text::index_of(h, "'shape'"@, 0) {
        None => None,
        Some(pos) => match text::index_of_char(h, '(', pos) {
            None => None,
            Some(open) => match text::index_of_char(h, ')', open) {
                None => None,
                Some(close) => Some(h.subrange(open + 1, close)),
            },
        },
    }
}

/// The dimensions that a header gives.
pub open spec fn shape_value(h: Seq<char>) -> Option<Seq<usize>> {
    match shape_inner(h) {
        None => None,
        Some(inner) => {
            let pieces = text::split(inner, ',');
            Some(dims_of(pieces, pieces.len() as int))
        },
    }
}

/// Extracts the dimensions.
pub fn extract_shape(header: &[char]) -> (r: Option<Vec<usize>>)
    ensures
        match r {
            Some(v) => shape_value(header@) == Some(v@),
            None => shape_value(header@) is None,
        },
{
    let key = text::chars_of("'shape'");
    match text::find(header, key.as_slice()) {
        None => None,
        Some(pos) => match text::find_char(header, '(', pos) {
            None => None,
            Some(open) => {
                proof {
                    text::index_of_char_found(header@, ')', open as int);
                }
                match text::find_char(header, ')', open) {
                    None => None,
                    Some(close) => {
                        let inner = text::part(header, open + 1, close);
                        let pieces = text::split_at(inner.as_slice(), ',');
                        let ghost views = text::views(pieces@);
                        let mut dims: Vec<usize> = Vec::new();
                        let mut i: usize = 0;
                        while i < pieces.len()
                            invariant
                                i <= pieces@.len(),
                                views == text::views(pieces@),
                                dims@ == dims_of(views, i as int),
                            decreases pieces@.len() - i,
                        {
                            let t = text::trim(pieces[i].as_slice());
                            match text::parse_usize(t.as_slice()) {
                                Some(d) => {
                                    dims.push(d);
                                },
                                None => {},
                            }
                            i += 1;
                        }
                        Some(dims)
                    },
                }
            },
        },
    }
}

/// The element type of a description.
pub open spec fn dtype_of(d: Seq<char>) -> Option<Dtype> {
    if d == "<f4"@ || d == "f4"@ || d == "|f4"@ {
        Some(Dtype::F4)
    } else if d == "<f8"@ || d == "f8"@ {
        Some(Dtype::F8)
    } else if d == "|b1"@ || d == "b1"@ {
        Some(Dtype::B1)
    } else if d == "|i1"@ || d == "<i1"@ || d == "i1"@ {
        Some(Dtype::I1)
    } else if d == "|i2"@ || d == "<i2"@ || d == "i2"@ {
        Some(Dtype::I2)
    } else if d == "|i4"@ || d == "<i4"@ || d == "i4"@ {
        Some(Dtype::I4)
    } else if d == "|i8"@ || d == "<i8"@ || d == "i8"@ {
        Some(Dtype::I8)
    } else {
        None
    }
}

/// Whether `d` is the text `t`.
fn is(d: &[char], t: &str) -> (r: bool)
    ensures
        r == (d@ == t@),
{
    let c = text::chars_of(t);
    text::same_chars(d, c.as_slice())
}

/// The element type of a description.
pub fn parse_dtype(d: &[char]) -> (r: Option<Dtype>)
    ensures
        r == dtype_of(d@),
{
    if is(d, "<f4") || is(d, "f4") || is(d, "|f4") {
        Some(Dtype::F4)
    } else if is(d, "<f8") || is(d, "f8") {
        Some(Dtype::F8)
    } else if is(d, "|b1") || is(d, "b1") {
        Some(Dtype::B1)
    } else if is(d, "|i1") || is(d, "<i1") || is(d, "i1") {
        Some(Dtype::I1)
    } else if is(d, "|i2") || is(d, "<i2") || is(d, "i2") {
        Some(Dtype::I2)
    } else if is(d, "|i4") || is(d, "<i4") || is(d, "i4") {
        Some(Dtype::I4)
    } else if is(d, "|i8") || is(d, "<i8") || is(d, "i8") {
        Some(Dtype::I8)
    } else {
        None
    }
}

/// Little-endian value of `n` bytes from position `at`.
pub open spec fn le(data: Seq<u8>, at: int, n: nat) -> int
    decreases n,
{
    if n == 0 {
        0
    } else {
        data[at] as int + 256 * le(data, at + 1, (n - 1) as nat)
    }
}

/// Reads two bytes.
fn read_u16(data: &[u8], at: usize) -> (v: u16)
    requires
        at + 2 <= data@.len(),
    ensures
        v == le(data@, at as int, 2),
{
    proof {
        reveal_with_fuel(le, 3);
    }
    data[at] as u16 + 256 * (data[at + 1] as u16)
}

/// Reads four bytes.
fn read_u32(data: &[u8], at: usize) -> (v: u32)
    requires
        at + 4 <= data@.len(),
    ensures
        v == le(data@, at as int, 4),
{
    proof {
        reveal_with_fuel(le, 5);
    }
    data[at] as u32 + 256 * (data[at + 1] as u32) + 0x1_0000 * (data[at + 2] as u32) + 0x100_0000 * (
    data[at + 3] as u32)
}

/// Reads eight bytes.
fn read_u64(data: &[u8], at: usize) -> (v: u64)
    requires
        at + 8 <= data@.len(),
    ensures
        v == le(data@, at as int, 8),
{
    assert(data@.len() == data.len());
    let lo: u32 = read_u32(data, at);
    let hi: u32 = read_u32(data, at + 4);
    proof {
        reveal_with_fuel(le, 9);
    }
    lo as u64 + 0x1_0000_0000 * (hi as u64)
}

/// Element `i` of elements of `w` bytes each, zero where the data has run out.
pub open spec fn elem(raw: Seq<u8>, w: nat, i: int) -> int {
    if w * i + w <= raw.len() {
        le(raw, w * i, w)
    } else {
        0
    }
}

/// The elements of `n` positions. Data that is too short is filled with zeros, except for
/// elements of one byte: of those there are as many as there are bytes.
pub open spec fn elems_of(raw: Seq<u8>, dtype: Dtype, n: nat) -> NpyElems {
    let m = if n < raw.len() {
        n
    } else {
        raw.len()
    };
    match dtype {
        Dtype::F4 => NpyElems::F32(Seq::new(n, |i: int| elem(raw, 4, i) as u32)),
        Dtype::F8 => NpyElems::F64(Seq::new(n, |i: int| elem(raw, 8, i) as u64)),
        Dtype::B1 => NpyElems::Int(
            Seq::new(
                m,
                |i: int|
                    if raw[i] != 0 {
                        1i64
                    } else {
                        0i64
                    },
            ),
        ),
        Dtype::I1 => NpyElems::Int(Seq::new(m, |i: int| raw[i] as i8 as i64)),
        Dtype::I2 => NpyElems::Int(Seq::new(n, |i: int| elem(raw, 2, i) as u16 as i16 as i64)),
        Dtype::I4 => NpyElems::Int(Seq::new(n, |i: int| elem(raw, 4, i) as u32 as i32 as i64)),
        Dtype::I8 => NpyElems::Int(Seq::new(n, |i: int| elem(raw, 8, i) as u64 as i64)),
    }
}

/// Elements of four bytes.
fn read_elems4(raw: &[u8], n: usize) -> (v: Vec<u32>)
    ensures
        v@ == Seq::new(n as nat, |i: int| elem(raw@, 4, i) as u32),
{
    let len: usize = raw.len();
    let whole: usize = len / 4;
    let mut v: Vec<u32> = Vec::new();
    let mut i: usize = 0;
    while i < n
        invariant
            i <= n,
            len == raw@.len(),
            whole == len / 4,
            v@ == Seq::new(i as nat, |k: int| elem(raw@, 4, k) as u32),
        decreases n - i,
    {
        let x: u32 = if i < whole {
            read_u32(raw, 4 * i)
        } else {
            0
        };
        v.push(x);
        assert(v@ =~= Seq::new((i + 1) as nat, |k: int| elem(raw@, 4, k) as u32));
        i += 1;
    }
    v
}

/// Elements of eight bytes.
fn read_elems8(raw: &[u8], n: usize) -> (v: Vec<u64>)
    ensures
        v@ == Seq::new(n as nat, |i: int| elem(raw@, 8, i) as u64),
{
    let len: usize = raw.len();
    let whole: usize = len / 8;
    let mut v: Vec<u64> = Vec::new();
    let mut i: usize = 0;
    while i < n
        invariant
            i <= n,
            len == raw@.len(),
            whole == len / 8,
            v@ == Seq::new(i as nat, |k: int| elem(raw@, 8, k) as u64),
        decreases n - i,
    {
        let x: u64 = if i < whole {
            read_u64(raw, 8 * i)
        } else {
            0
        };
        v.push(x);
        assert(v@ =~= Seq::new((i + 1) as nat, |k: int| elem(raw@, 8, k) as u64));
        i += 1;
    }
    v
}

/// Elements of two bytes.
fn read_elems2(raw: &[u8], n: usize) -> (v: Vec<u16>)
    ensures
        v@ == Seq::new(n as nat, |i: int| elem(raw@, 2, i) as u16),
{
    let len: usize = raw.len();
    let whole: usize = len / 2;
    let mut v: Vec<u16> = Vec::new();
    let mut i: usize = 0;
    while i < n
        invariant
            i <= n,
            len == raw@.len(),
            whole == len / 2,
            v@ == Seq::new(i as nat, |k: int| elem(raw@, 2, k) as u16),
        decreases n - i,
    {
        let x: u16 = if i < whole {
            read_u16(raw, 2 * i)
        } else {
            0
        };
        v.push(x);
        assert(v@ =~= Seq::new((i + 1) as nat, |k: int| elem(raw@, 2, k) as u16));
        i += 1;
    }
    v
}

/// The elements of `n` positions.
fn read_elems(raw: &[u8], dtype: Dtype, n: usize) -> (r: NpyData)
    ensures
        r.elems() == elems_of(raw@, dtype, n as nat),
{
    let ghost want = elems_of(raw@, dtype, n as nat);
    let m: usize = if n < raw.len() {
        n
    } else {
        raw.len()
    };
    let mut v: Vec<i64> = Vec::new();
    let mut i: usize = 0;
    match dtype {
        Dtype::F4 => {
            return NpyData::F32(read_elems4(raw, n));
        },
        Dtype::F8 => {
            return NpyData::F64(read_elems8(raw, n));
        },
        Dtype::B1 | Dtype::I1 => {
            let truth = matches!(dtype, Dtype::B1);
            while i < m
                invariant
                    i <= m <= raw@.len(),
                    truth == (dtype is B1),
                    dtype is B1 || dtype is I1,
                    m == if n < raw@.len() {
                        n as nat
                    } else {
                        raw@.len()
                    },
                    want == elems_of(raw@, dtype, n as nat),
                    v@ == want->Int_0.take(i as int),
                decreases m - i,
            {
                let b: u8 = raw[i];
                if truth {
                    v.push(
                        if b != 0 {
                            1
                        } else {
                            0
                        },
                    );
                } else {
                    v.push(b as i8 as i64);
                }
                assert(v@ =~= want->Int_0.take(i + 1));
                i += 1;
            }
            assert(v@ =~= want->Int_0);
        },
        Dtype::I2 => {
            let x = read_elems2(raw, n);
            while i < n
                invariant
                    i <= n,
                    dtype is I2,
                    want == elems_of(raw@, dtype, n as nat),
                    x@ == Seq::new(n as nat, |k: int| elem(raw@, 2, k) as u16),
                    v@ == want->Int_0.take(i as int),
                decreases n - i,
            {
                v.push(x[i] as i16 as i64);
                assert(v@ =~= want->Int_0.take(i + 1));
                i += 1;
            }
            assert(v@ =~= want->Int_0);
        },
        Dtype::I4 => {
            let x = read_elems4(raw, n);
            while i < n
                invariant
                    i <= n,
                    dtype is I4,
                    want == elems_of(raw@, dtype, n as nat),
                    x@ == Seq::new(n as nat, |k: int| elem(raw@, 4, k) as u32),
                    v@ == want->Int_0.take(i as int),
                decreases n - i,
            {
                v.push(x[i] as i32 as i64);
                assert(v@ =~= want->Int_0.take(i + 1));
                i += 1;
            }
            assert(v@ =~= want->Int_0);
        },
        Dtype::I8 => {
            let x = read_elems8(raw, n);
            while i < n
                invariant
                    i <= n,
                    dtype is I8,
                    want == elems_of(raw@, dtype, n as nat),
                    x@ == Seq::new(n as nat, |k: int| elem(raw@, 8, k) as u64),
                    v@ == want->Int_0.take(i as int),
                decreases n - i,
            {
                v.push(x[i] as i64);
                assert(v@ =~= want->Int_0.take(i + 1));
                i += 1;
            }
            assert(v@ =~= want->Int_0);
        },
    }
    NpyData::Int(v)
}

/// Number of elements of a shape, if it can be computed from the left in machine words.
fn count(shape: &[usize]) -> (r: Option<usize>)
    ensures
        match r {
            Some(n) => countable(shape@) && n == product(shape@),
            None => !countable(shape@),
        },
{
    let mut n: usize = 1;
    let mut i: usize = 0;
    assert(shape@.take(0) =~= Seq::empty());
    while i < shape.len()
        invariant
            i <= shape@.len(),
            countable(shape@.take(i as int)),
            n == product(shape@.take(i as int)),
        decreases shape@.len() - i,
    {
        let ghost next = shape@.take(i + 1);
        assert(next.drop_last() =~= shape@.take(i as int));
        match n.checked_mul(shape[i]) {
            Some(m) => {
                n = m;
            },
            None => {
                proof {
                    countable_prefix(shape@, i + 1);
                }
                return None;
            },
        }
        i += 1;
    }
    assert(shape@.take(shape@.len() as int) =~= shape@);
    Some(n)
}

/// Every prefix of a countable shape is countable.
proof fn countable_prefix(shape: Seq<usize>, k: int)
    requires
        0 <= k <= shape.len(),
    ensures
        countable(shape) ==> countable(shape.take(k)),
    decreases shape.len(),
{
    if k == shape.len() {
        assert(shape.take(k) =~= shape);
    } else {
        countable_prefix(shape.drop_last(), k);
        assert(shape.drop_last().take(k) =~= shape.take(k));
    }
}

/// Where the element at row-major position `off` stands in column-major order: the last
/// index moves fastest in the former and has the largest step in the latter.
pub open spec fn column_offset(shape: Seq<usize>, off: int) -> int
    decreases shape.len(),
{
    if shape.len() == 0 {
        0
    } else {
        let d = shape.last() as int;
        (off % d) * product(shape.drop_last()) + column_offset(shape.drop_last(), off / d)
    }
}

/// Splits a position along the last dimension.
proof fn split_last(shape: Seq<usize>, off: int)
    requires
        shape.len() > 0,
        0 <= off < product(shape),
    ensures
        shape.last() > 0,
        0 <= off / shape.last() as int,
        off / (shape.last() as int) < product(shape.drop_last()),
        0 <= off % (shape.last() as int) < shape.last(),
{
    let p = product(shape.drop_last()) as int;
    let d = shape.last() as int;
    assert(d > 0) by (nonlinear_arith)
        requires
            0 <= off < p * d,
            d >= 0,
    ;
    vstd::arithmetic::div_mod::lemma_fundamental_div_mod(off, d);
    vstd::arithmetic::div_mod::lemma_mod_bound(off, d);
    let q = off / d;
    let r = off % d;
    assert(0 <= q < p) by (nonlinear_arith)
        requires
            off == d * q + r,
            0 <= r < d,
            0 <= off < p * d,
    ;
}

/// Column-major positions lie within the array.
pub proof fn column_offset_in_range(shape: Seq<usize>, off: int)
    requires
        0 <= off < product(shape),
    ensures
        0 <= column_offset(shape, off) < product(shape),
    decreases shape.len(),
{
    if shape.len() > 0 {
        split_last(shape, off);
        let rest = shape.drop_last();
        let d = shape.last() as int;
        column_offset_in_range(rest, off / d);
        let p = product(rest) as int;
        let i = off % d;
        let f = column_offset(rest, off / d);
        assert(0 <= i * p + f < p * d) by (nonlinear_arith)
            requires
                0 <= i < d,
                0 <= f < p,
        ;
    }
}

/// No two elements come from one place: reordering loses nothing.
pub proof fn column_offset_injective(shape: Seq<usize>, a: int, b: int)
    requires
        0 <= a < product(shape),
        0 <= b < product(shape),
        column_offset(shape, a) == column_offset(shape, b),
    ensures
        a == b,
    decreases shape.len(),
{
    if shape.len() > 0 {
        split_last(shape, a);
        split_last(shape, b);
        let rest = shape.drop_last();
        let d = shape.last() as int;
        let p = product(rest) as int;
        column_offset_in_range(rest, a / d);
        column_offset_in_range(rest, b / d);
        let fa = column_offset(rest, a / d);
        let fb = column_offset(rest, b / d);
        vstd::arithmetic::div_mod::lemma_fundamental_div_mod_converse(
            (a % d) * p + fa,
            p,
            a % d,
            fa,
        );
        vstd::arithmetic::div_mod::lemma_fundamental_div_mod_converse(
            (b % d) * p + fb,
            p,
            b % d,
            fb,
        );
        column_offset_injective(rest, a / d, b / d);
        vstd::arithmetic::div_mod::lemma_fundamental_div_mod(a, d);
        vstd::arithmetic::div_mod::lemma_fundamental_div_mod(b, d);
    }
}

/// Elements in row-major order, of elements in column-major order.
pub open spec fn reordered<T>(flat: Seq<T>, shape: Seq<usize>) -> Seq<T> {
    Seq::new(flat.len(), |i: int| flat[column_offset(shape, i)])
}

/// Step of each dimension in column-major order.
fn column_steps(shape: &[usize]) -> (steps: Vec<usize>)
    requires
        countable(shape@),
    ensures
        steps@.len() == shape@.len(),
        forall|d: int| 0 <= d < steps@.len() ==> #[trigger] steps@[d] == product(shape@.take(d)),
{
    let mut steps: Vec<usize> = Vec::new();
    let mut n: usize = 1;
    let mut i: usize = 0;
    assert(shape@.take(0) =~= Seq::empty());
    while i < shape.len()
        invariant
            i <= shape@.len(),
            countable(shape@),
            n == product(shape@.take(i as int)),
            steps@.len() == i,
            forall|d: int| 0 <= d < i ==> #[trigger] steps@[d] == product(shape@.take(d)),
        decreases shape@.len() - i,
    {
        steps.push(n);
        proof {
            countable_prefix(shape@, i + 1);
            assert(shape@.take(i + 1).drop_last() =~= shape@.take(i as int));
        }
        n = n * shape[i];
        i += 1;
    }
    steps
}

/// Reorders elements from column-major to row-major order.
pub fn permute_fortran_to_c<T: Copy>(flat: &Vec<T>, shape: &[usize]) -> (out: Vec<T>)
    requires
        countable(shape@),
        product(shape@) == flat@.len(),
    ensures
        out@ == reordered(flat@, shape@),
{
    let steps = column_steps(shape);
    let mut out: Vec<T> = Vec::new();
    let mut c: usize = 0;
    while c < flat.len()
        invariant
            c <= flat@.len(),
            product(shape@) == flat@.len(),
            steps@.len() == shape@.len(),
            forall|d: int| 0 <= d < steps@.len() ==> #[trigger] steps@[d] == product(shape@.take(d)),
            out@ == reordered(flat@, shape@).take(c as int),
        decreases flat@.len() - c,
    {
        let mut f: usize = 0;
        let mut rem: usize = c;
        let mut d: usize = shape.len();
        proof {
            column_offset_in_range(shape@, c as int);
            assert(shape@.take(shape@.len() as int) =~= shape@);
        }
        while d > 0
            invariant
                d <= shape@.len(),
                c < flat@.len(),
                product(shape@) == flat@.len(),
                0 <= column_offset(shape@, c as int) < flat@.len(),
                steps@.len() == shape@.len(),
                forall|d: int|
                    0 <= d < steps@.len() ==> #[trigger] steps@[d] == product(shape@.take(d)),
                0 <= rem < product(shape@.take(d as int)),
                f + column_offset(shape@.take(d as int), rem as int) == column_offset(
                    shape@,
                    c as int,
                ),
            decreases d,
        {
            let ghost cur = shape@.take(d as int);
            assert(cur.drop_last() =~= shape@.take(d - 1));
            proof {
                split_last(cur, rem as int);
            }
            d -= 1;
            let dim: usize = shape[d];
            let i: usize = rem % dim;
            rem = rem / dim;
            proof {
                column_offset_in_range(shape@.take(d as int), rem as int);
                assert(0 <= i * steps@[d as int]) by (nonlinear_arith);
            }
            assert(flat.len() == flat@.len());
            f = f + i * steps[d];
        }
        assert(shape@.take(0) =~= Seq::empty());
        out.push(flat[f]);
        assert(out@ =~= reordered(flat@, shape@).take(c + 1));
        c += 1;
    }
    assert(out@ =~= reordered(flat@, shape@));
    out
}

/// Elements in row-major order, of elements in column-major order.
pub open spec fn reordered_elems(e: NpyElems, shape: Seq<usize>) -> NpyElems {
    match e {
        NpyElems::F32(s) => NpyElems::F32(reordered(s, shape)),
        NpyElems::F64(s) => NpyElems::F64(reordered(s, shape)),
        NpyElems::Int(s) => NpyElems::Int(reordered(s, shape)),
    }
}

/// Model of a read: a shape with its elements, or an error.
pub open spec fn parsed(data: Seq<u8>) -> Result<(Seq<usize>, NpyElems), NpyFault> {
    if data.len() < 10 || data.take(6) != magic() {
        Err(NpyFault::NotNpy)
    } else if data[6] != 1 && data.len() < 12 {
        Err(NpyFault::Truncated)
    } else {
        let offset: int = if data[6] == 1 {
            10
        } else {
            12
        };
        let len = le(data, 8, (offset - 8) as nat);
        if offset + len > data.len() {
            Err(NpyFault::Truncated)
        } else if !vstd::utf8::valid_utf8(data.subrange(offset, offset + len)) {
            Err(NpyFault::NotUtf8)
        } else {
            parsed_body(
                vstd::utf8::decode_utf8(data.subrange(offset, offset + len)),
                data.skip(offset + len),
            )
        }
    }
}

/// Model of a read behind the header frame.
pub open spec fn parsed_body(h: Seq<char>, raw: Seq<u8>) -> Result<
    (Seq<usize>, NpyElems),
    NpyFault,
> {
    if str_value(h, "'descr'"@) is None {
        Err(NpyFault::NoDescr)
    } else if shape_value(h) is None {
        Err(NpyFault::NoShape)
    } else {
        let descr = str_value(h, "'descr'"@)->0;
        let shape = shape_value(h)->0;
        if dtype_of(descr) is None {
            Err(NpyFault::Dtype(descr))
        } else if !countable(shape) {
            Err(NpyFault::TooLarge)
        } else {
            let e = elems_of(raw, dtype_of(descr)->0, product(shape));
            if !shape_holds(shape, e.len()) {
                Err(NpyFault::Shape)
            } else if text::contains(h, "'fortran_order': True"@) {
                Ok((shape, reordered_elems(e, shape)))
            } else {
                Ok((shape, e))
            }
        }
    }
}

/// The magic number: a byte that is no text, then `NUMPY`.
pub open spec fn magic() -> Seq<u8> {
    seq![0x93u8, 0x4Eu8, 0x55u8, 0x4Du8, 0x50u8, 0x59u8]
}

/// Whether a file starts with the magic number.
fn has_magic(data: &[u8]) -> (r: bool)
    requires
        data@.len() >= 6,
    ensures
        r == (data@.take(6) == magic()),
{
    let r = data[0] == 0x93 && data[1] == 0x4E && data[2] == 0x55 && data[3] == 0x4D && data[4]
        == 0x50 && data[5] == 0x59;
    proof {
        if r {
            assert(data@.take(6) =~= magic());
        } else {
            let t = data@.take(6);
            let m = magic();
            assert(t[0] != m[0] || t[1] != m[1] || t[2] != m[2] || t[3] != m[3] || t[4] != m[4]
                || t[5] != m[5]);
        }
    }
    r
}

/// The elements checked against a shape and, for column-major data, reordered.
fn finish(shape: Vec<usize>, data: NpyData, fortran: bool) -> (r: Result<NpyTensor, NpyError>)
    requires
        countable(shape@),
    ensures
        match r {
            Ok(t) => {
                &&& shape_holds(shape@, data.elems().len())
                &&& t.shape@ == shape@
                &&& t.data.elems() == if fortran {
                    reordered_elems(data.elems(), shape@)
                } else {
                    data.elems()
                }
            },
            Err(e) => !shape_holds(shape@, data.elems().len()) && e is Shape,
        },
{
    match data {
        NpyData::F32(v) => match shaped(shape.as_slice(), v) {
            Ok(w) => {
                let w = if fortran {
                    permute_fortran_to_c(&w, shape.as_slice())
                } else {
                    w
                };
                Ok(NpyTensor { shape, data: NpyData::F32(w) })
            },
            Err(_) => Err(NpyError::Shape),
        },
        NpyData::F64(v) => match shaped(shape.as_slice(), v) {
            Ok(w) => {
                let w = if fortran {
                    permute_fortran_to_c(&w, shape.as_slice())
                } else {
                    w
                };
                Ok(NpyTensor { shape, data: NpyData::F64(w) })
            },
            Err(_) => Err(NpyError::Shape),
        },
        NpyData::Int(v) => match shaped(shape.as_slice(), v) {
            Ok(w) => {
                let w = if fortran {
                    permute_fortran_to_c(&w, shape.as_slice())
                } else {
                    w
                };
                Ok(NpyTensor { shape, data: NpyData::Int(w) })
            },
            Err(_) => Err(NpyError::Shape),
        },
    }
}

/// Reads a body behind its header text.
fn parse_body(header: &str, raw: &[u8]) -> (r: Result<NpyTensor, NpyError>)
    ensures
        match r {
            Ok(t) => parsed_body(header@, raw@) == Ok::<(Seq<usize>, NpyElems), NpyFault>(
                (t.shape@, t.data.elems()),
            ),
            Err(e) => parsed_body(header@, raw@) == Err::<(Seq<usize>, NpyElems), NpyFault>(
                e.fault(),
            ),
        },
{
    let h = text::chars_of(header);
    let key = text::chars_of("'descr'");
    let descr = match extract_str(h.as_slice(), key.as_slice()) {
        Some(d) => d,
        None => {
            return Err(NpyError::NoDescr);
        },
    };
    let shape = match extract_shape(h.as_slice()) {
        Some(s) => s,
        None => {
            return Err(NpyError::NoShape);
        },
    };
    let order = text::chars_of("'fortran_order': True");
    let fortran = match text::find(h.as_slice(), order.as_slice()) {
        Some(i) => {
            assert(text::contains(h@, order@));
            true
        },
        None => false,
    };
    let dtype = match parse_dtype(descr.as_slice()) {
        Some(d) => d,
        None => {
            return Err(NpyError::Dtype(descr));
        },
    };
    match count(shape.as_slice()) {
        Some(n) => {
            let data = read_elems(raw, dtype, n);
            finish(shape, data, fortran)
        },
        None => Err(NpyError::TooLarge),
    }
}

/// Reads one NPY file, versions 1.0 and later: floats of 4 and 8 bytes, truth values, and
/// signed integers of 1, 2, 4 and 8 bytes. Column-major data is reordered to row-major.
pub fn parse_npy_f32(data: &[u8]) -> (r: Result<NpyTensor, NpyError>)
    ensures
        match r {
            Ok(t) => parsed(data@) == Ok::<(Seq<usize>, NpyElems), NpyFault>(
                (t.shape@, t.data.elems()),
            ),
            Err(e) => parsed(data@) == Err::<(Seq<usize>, NpyElems), NpyFault>(e.fault()),
        },
{
    if data.len() < 10 || !has_magic(data) {
        return Err(NpyError::NotNpy);
    }
    let len: usize;
    let offset: usize;
    if data[6] == 1 {
        offset = 10;
        len = read_u16(data, 8) as usize;
    } else {
        if data.len() < 12 {
            return Err(NpyError::Truncated);
        }
        offset = 12;
        len = read_u32(data, 8) as usize;
    }
    if len > data.len() - offset {
        return Err(NpyError::Truncated);
    }
    let header = vstd::slice::slice_subrange(data, offset, offset + len);
    let raw = vstd::slice::slice_subrange(data, offset + len, data.len());
    assert(raw@ =~= data@.skip(offset + len));
    match utf8_text(header) {
        Some(h) => parse_body(h, raw),
        None => Err(NpyError::NotUtf8),
    }
}

/// The names of element types: a letter for the kind and a digit for the width in bytes, with a
/// mark for the byte order before it or none. Floating point of four and eight bytes, truth values
/// and integers of one, two, four and eight bytes are read, little end first.
pub proof fn element_types_in_full(d: Seq<char>)
    ensures
        dtype_of(d) is Some ==> {
            let n = d.len() as int;
            &&& 2 <= n <= 3
            &&& n == 3 ==> d[0] == '<' || d[0] == '|'
            &&& dtype_of(d)->0 is F4 <==> d[n - 2] == 'f' && d[n - 1] == '4'
            &&& dtype_of(d)->0 is F8 <==> d[n - 2] == 'f' && d[n - 1] == '8'
            &&& dtype_of(d)->0 is B1 <==> d[n - 2] == 'b' && d[n - 1] == '1'
            &&& dtype_of(d)->0 is I1 <==> d[n - 2] == 'i' && d[n - 1] == '1'
            &&& dtype_of(d)->0 is I2 <==> d[n - 2] == 'i' && d[n - 1] == '2'
            &&& dtype_of(d)->0 is I4 <==> d[n - 2] == 'i' && d[n - 1] == '4'
            &&& dtype_of(d)->0 is I8 <==> d[n - 2] == 'i' && d[n - 1] == '8'
        },
        d == "<f4"@ || d == "<f8"@ || d == "|b1"@ || d == "|i1"@ || d == "<i2"@ || d == "<i4"@ || d
            == "<i8"@ ==> dtype_of(d) is Some,
{
    reveal_strlit("<f4");
    reveal_strlit("f4");
    reveal_strlit("|f4");
    reveal_strlit("<f8");
    reveal_strlit("f8");
    reveal_strlit("|b1");
    reveal_strlit("b1");
    reveal_strlit("|i1");
    reveal_strlit("<i1");
    reveal_strlit("i1");
    reveal_strlit("|i2");
    reveal_strlit("<i2");
    reveal_strlit("i2");
    reveal_strlit("|i4");
    reveal_strlit("<i4");
    reveal_strlit("i4");
    reveal_strlit("|i8");
    reveal_strlit("<i8");
    reveal_strlit("i8");
}

/// The elements of a file, each from its own bytes with the lowest first. Integers are signed: one
/// whose highest bit is set stands for so much less. A truth value is 1 unless its byte is nothing.
/// An element of several bytes that the file has not got is 0, and of single bytes there are no
/// more than the file has.
pub proof fn elements_in_full(raw: Seq<u8>, n: nat, i: int)
    requires
        0 <= i < n,
    ensures
        elems_of(raw, Dtype::F4, n).len() == n,
        elems_of(raw, Dtype::F4, n)->F32_0[i] == if 4 * i + 4 <= raw.len() {
            raw[4 * i] + 0x100 * raw[4 * i + 1] + 0x1_0000 * raw[4 * i + 2] + 0x100_0000 * raw[4 * i
                + 3]
        } else {
            0
        },
        elems_of(raw, Dtype::F8, n).len() == n,
        elems_of(raw, Dtype::F8, n)->F64_0[i] == if 8 * i + 8 <= raw.len() {
            le(raw, 8 * i, 4) + 0x1_0000_0000 * le(raw, 8 * i + 4, 4)
        } else {
            0
        },
        elems_of(raw, Dtype::B1, n).len() == if n < raw.len() {
            n
        } else {
            raw.len()
        },
        i < raw.len() ==> elems_of(raw, Dtype::B1, n)->Int_0[i] == if raw[i] == 0 {
            0int
        } else {
            1
        },
        elems_of(raw, Dtype::I1, n).len() == elems_of(raw, Dtype::B1, n).len(),
        i < raw.len() ==> elems_of(raw, Dtype::I1, n)->Int_0[i] == if raw[i] < 128 {
            raw[i] as int
        } else {
            raw[i] - 256
        },
        elems_of(raw, Dtype::I2, n).len() == n,
        elems_of(raw, Dtype::I2, n)->Int_0[i] == {
            let v = raw[2 * i] + 0x100 * raw[2 * i + 1];
            if 2 * i + 2 > raw.len() {
                0
            } else if v < 0x8000 {
                v
            } else {
                v - 0x1_0000
            }
        },
        elems_of(raw, Dtype::I4, n).len() == n,
        elems_of(raw, Dtype::I4, n)->Int_0[i] == {
            let v = le(raw, 4 * i, 4);
            if 4 * i + 4 > raw.len() {
                0
            } else if v < 0x8000_0000 {
                v
            } else {
                v - 0x1_0000_0000
            }
        },
        elems_of(raw, Dtype::I8, n).len() == n,
        elems_of(raw, Dtype::I8, n)->Int_0[i] == {
            let v = le(raw, 8 * i, 8);
            if 8 * i + 8 > raw.len() {
                0
            } else if v < 0x8000_0000_0000_0000 {
                v
            } else {
                v - 0x1_0000_0000_0000_0000
            }
        },
{
    four_bytes(raw, 4 * i);
    four_bytes(raw, 8 * i);
    four_bytes(raw, 8 * i + 4);
    let a = elem(raw, 4, i);
    let b = elem(raw, 8, i);
    let c = elem(raw, 2, i);
    eight_bytes(raw, 8 * i);
    reveal_with_fuel(le, 3);
    assert(2 * i + 2 <= raw.len() ==> c == raw[2 * i] + 0x100 * raw[2 * i + 1]);
    let r = raw[i];
    assert(r as i8 as i64 == if r < 128 {
        r as int
    } else {
        r - 256
    }) by (bit_vector);
    let x = c as u16;
    assert(x as i16 as i64 == if x < 0x8000 {
        x as int
    } else {
        x - 0x1_0000
    }) by (bit_vector);
    let y = a as u32;
    assert(y as i32 as i64 == if y < 0x8000_0000 {
        y as int
    } else {
        y - 0x1_0000_0000
    }) by (bit_vector);
    let z = b as u64;
    assert(z as i64 == if z < 0x8000_0000_0000_0000 {
        z as int
    } else {
        z - 0x1_0000_0000_0000_0000
    }) by (bit_vector);
}

/// A number of four bytes.
proof fn four_bytes(raw: Seq<u8>, at: int)
    ensures
        le(raw, at, 4) == raw[at] + 0x100 * raw[at + 1] + 0x1_0000 * raw[at + 2] + 0x100_0000
            * raw[at + 3],
        0 <= le(raw, at, 4) < 0x1_0000_0000,
{
    reveal_with_fuel(le, 5);
}

/// A number of eight bytes.
proof fn eight_bytes(raw: Seq<u8>, at: int)
    ensures
        le(raw, at, 8) == le(raw, at, 4) + 0x1_0000_0000 * le(raw, at + 4, 4),
        0 <= le(raw, at, 8) < 0x1_0000_0000_0000_0000,
{
    reveal_with_fuel(le, 9);
    four_bytes(raw, at);
    four_bytes(raw, at + 4);
}

/// A matrix that is stored column by column is read row by row: what stands in row `i` and column
/// `j` of the one stands there in the other.
pub proof fn columns_become_rows<T>(flat: Seq<T>, rows: usize, cols: usize, i: int, j: int)
    requires
        flat.len() == rows * cols,
        0 <= i < rows,
        0 <= j < cols,
    ensures
        reordered(flat, seq![rows, cols])[i * cols + j] == flat[j * rows + i],
{
    let shape = seq![rows, cols];
    let k = i * cols + j;
    assert(0 <= k < rows * cols) by (nonlinear_arith)
        requires
            k == i * cols + j,
            0 <= i < rows,
            0 <= j < cols,
    ;
    vstd::arithmetic::div_mod::lemma_fundamental_div_mod_converse(k, cols as int, i, j);
    let first = shape.drop_last();
    assert(first =~= seq![rows]);
    assert(first.drop_last() =~= Seq::empty());
    assert(product(Seq::<usize>::empty()) == 1);
    assert(product(first) == rows) by {
        assert(product(first) == product(first.drop_last()) * (first.last() as nat));
        assert(1 * (rows as nat) == rows);
    }
    vstd::arithmetic::div_mod::lemma_small_mod(i as nat, rows as nat);
    assert(column_offset(first.drop_last(), i / (rows as int)) == 0);
    assert(i % (rows as int) * product(first.drop_last()) == i) by (nonlinear_arith)
        requires
            i % (rows as int) == i,
            product(first.drop_last()) == 1,
    ;
    assert(column_offset(first, i) == i);
    assert(column_offset(shape, k) == j * product(first) + i);
}

/// A file that is read starts with the mark of the format, the byte 147 and `NUMPY`.
pub proof fn files_start_with_the_mark(data: Seq<u8>)
    requires
        parsed(data) is Ok,
    ensures
        data.len() >= 10,
        data[0] == 147,
        data[1] == 'N' as u8 && data[2] == 'U' as u8 && data[3] == 'M' as u8,
        data[4] == 'P' as u8 && data[5] == 'Y' as u8,
{
    let m = data.take(6);
    assert(m == magic());
    assert(data[0] == m[0] && data[1] == m[1] && data[2] == m[2]);
    assert(data[3] == m[3] && data[4] == m[4] && data[5] == m[5]);
}

/// The value of a key in a header is what stands between the next two quotes behind the first place
/// where the key stands.
pub proof fn quoted_values_are_found(h: Seq<char>, key: Seq<char>, pos: int, open: int, close: int)
    requires
        text::occurs_at(h, key, pos),
        forall|k: int| 0 <= k < pos ==> !text::occurs_at(h, key, k),
        pos + key.len() <= open < close < h.len(),
        h[open] == '\'',
        h[close] == '\'',
        forall|k: int| pos + key.len() <= k < close && k != open ==> h[k] != '\'',
    ensures
        str_value(h, key) == Some(h.subrange(open + 1, close)),
{
    text::index_of_is(h, key, 0, pos);
    text::index_of_char_is(h, '\'', pos + key.len(), open);
    text::index_of_char_is(h, '\'', open + 1, close);
}

/// The dimensions of a header stand between the next brackets behind the first place where the
/// word for the shape stands.
pub proof fn bracketed_shapes_are_found(h: Seq<char>, pos: int, open: int, close: int)
    requires
        text::occurs_at(h, "'shape'"@, pos),
        forall|k: int| 0 <= k < pos ==> !text::occurs_at(h, "'shape'"@, k),
        pos <= open < close < h.len(),
        h[open] == '(',
        h[close] == ')',
        forall|k: int| pos <= k < open ==> h[k] != '(',
        forall|k: int| open <= k < close ==> h[k] != ')',
    ensures
        shape_inner(h) == Some(h.subrange(open + 1, close)),
{
    text::index_of_is(h, "'shape'"@, 0, pos);
    text::index_of_char_is(h, '(', pos, open);
    text::index_of_char_is(h, ')', open, close);
}

/// Of the pieces of a shape those that are numbers count, in order, with white space around them
/// or not; others count for nothing.
pub proof fn dimensions_are_the_numbers(pieces: Seq<Seq<char>>, n: int)
    requires
        0 <= n < pieces.len(),
    ensures
        ({
            let d = text::number_of(text::trimmed(pieces[n]), usize::MAX as int);
            &&& d is None ==> dims_of(pieces, n + 1) == dims_of(pieces, n)
            &&& d matches Some(v) ==> dims_of(pieces, n + 1) == dims_of(pieces, n).push(v as usize)
        }),
        dims_of(pieces, 0) == Seq::<usize>::empty(),
{
}

/// What a header has to hold. One without an element type is refused before one without a shape,
/// and an element type that is not known is named; what is read has the shape of the header and as
/// many elements as that has.
pub proof fn files_are_read_if(h: Seq<char>, raw: Seq<u8>)
    ensures
        ({
            let d = str_value(h, "'descr'"@);
            let s = shape_value(h);
            let r = parsed_body(h, raw);
            &&& d is None <==> r == Err::<(Seq<usize>, NpyElems), NpyFault>(NpyFault::NoDescr)
            &&& d is Some && s is None <==> r == Err::<(Seq<usize>, NpyElems), NpyFault>(
                NpyFault::NoShape,
            )
            &&& r is Ok ==> d is Some && s is Some && dtype_of(d->0) is Some && r->Ok_0.0 == s->0
            &&& r is Ok ==> r->Ok_0.1.len() == product(s->0)
            &&& r matches Err(NpyFault::Dtype(t)) ==> d == Some(t) && dtype_of(t) is None
        }),
{
    if str_value(h, "'descr'"@) is Some && shape_value(h) is Some {
        let t = dtype_of(str_value(h, "'descr'"@)->0);
        if t is Some {
            let e = elems_of(raw, t->0, product(shape_value(h)->0));
            assert(reordered_elems(e, shape_value(h)->0).len() == e.len());
        }
    }
}

} // verus!
