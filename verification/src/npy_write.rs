//! Writing NPY arrays, and the proof that they read back.

use crate::npy;
use crate::npy::{Dtype, NpyElems, NpyFault};
use crate::text;
use vstd::prelude::*;

verus! {

/// An array of 32-bit floats with the name that it has in an archive.
pub struct NpyArray {
    /// Name, without the `.npy` of the archive member.
    pub name: String,
    pub shape: Vec<usize>,
    /// Bits of the elements, in row-major order.
    pub data: Vec<u32>,
}

impl NpyArray {
    /// An array with one axis.
    pub fn from_tensor1(n: usize, data: Vec<u32>, name: &str) -> (r: NpyArray)
        ensures
            r.name@ == name@,
            r.shape@ == seq![n],
            r.data == data,
    {
        let mut shape: Vec<usize> = Vec::new();
        shape.push(n);
        assert(shape@ =~= seq![n]);
        NpyArray { name: text::string_of(text::chars_of(name).as_slice()), shape, data }
    }

    /// An array with two axes.
    pub fn from_tensor2(dims: [usize; 2], data: Vec<u32>, name: &str) -> (r: NpyArray)
        ensures
            r.name@ == name@,
            r.shape@ == dims@,
            r.data == data,
    {
        let mut shape: Vec<usize> = Vec::new();
        shape.push(dims[0]);
        shape.push(dims[1]);
        assert(shape@ =~= dims@);
        NpyArray { name: text::string_of(text::chars_of(name).as_slice()), shape, data }
    }

    /// An array with four axes.
    pub fn from_tensor4(dims: [usize; 4], data: Vec<u32>, name: &str) -> (r: NpyArray)
        ensures
            r.name@ == name@,
            r.shape@ == dims@,
            r.data == data,
    {
        let mut shape: Vec<usize> = Vec::new();
        shape.push(dims[0]);
        shape.push(dims[1]);
        shape.push(dims[2]);
        shape.push(dims[3]);
        assert(shape@ =~= dims@);
        NpyArray { name: text::string_of(text::chars_of(name).as_slice()), shape, data }
    }
}

/// Decimal dimensions with a comma and a space between them.
pub open spec fn dims_text(shape: Seq<usize>) -> Seq<char>
    decreases shape.len(),
{
    if shape.len() == 0 {
        Seq::empty()
    } else if shape.len() == 1 {
        text::decimal(shape[0] as nat)
    } else {
        dims_text(shape.drop_last()) + ", "@ + text::decimal(shape.last() as nat)
    }
}

/// Text of a shape: a single dimension is followed by a comma.
pub open spec fn shape_text(shape: Seq<usize>) -> Seq<char> {
    if shape.len() == 1 {
        dims_text(shape).push(',')
    } else {
        dims_text(shape)
    }
}

/// Header text up to the closing bracket of the shape.
pub open spec fn header_open(shape: Seq<usize>) -> Seq<char> {
    "{'descr': '<f4', 'fortran_order': False, 'shape': ("@ + shape_text(shape) + ")"@
}

/// Number of spaces that fill the header: ten bytes of frame, the text and the closing brace
/// together end at a multiple of 64.
pub open spec fn header_pad(shape: Seq<usize>) -> int {
    (64 - (10 + header_open(shape).len() + 1) % 64) % 64
}

/// `n` spaces.
pub open spec fn spaces(n: int) -> Seq<char> {
    Seq::new(n as nat, |i: int| ' ')
}

/// Header of an array of 32-bit floats in row-major order.
pub open spec fn header_text(shape: Seq<usize>) -> Seq<char> {
    header_open(shape) + spaces(header_pad(shape)) + "}"@
}

/// Byte `k` of a number, from the least.
pub open spec fn byte(v: int, k: int) -> u8 {
    if k == 0 {
        (v % 256) as u8
    } else if k == 1 {
        (v / 256 % 256) as u8
    } else if k == 2 {
        (v / 0x1_0000 % 256) as u8
    } else {
        (v / 0x100_0000 % 256) as u8
    }
}

/// Elements as little-endian bytes.
pub open spec fn data_bytes(data: Seq<u32>) -> Seq<u8> {
    Seq::new(4 * data.len(), |i: int| byte(data[i / 4] as int, i % 4))
}

/// Bytes of an NPY file, version 1.0.
pub open spec fn npy_bytes(shape: Seq<usize>, data: Seq<u32>) -> Seq<u8> {
    let h = vstd::utf8::encode_utf8(header_text(shape));
    npy::magic() + seq![1u8, 0u8, byte(h.len() as int, 0), byte(h.len() as int, 1)] + h
        + data_bytes(data)
}

/// Whether the header length fits the two bytes that version 1.0 has for it.
pub open spec fn header_fits(shape: Seq<usize>) -> bool {
    vstd::utf8::encode_utf8(header_text(shape)).len() <= 0xFFFF
}

/// Appends the dimensions with a comma and a space between them.
fn push_dims(h: &mut Vec<char>, shape: &[usize])
    ensures
        final(h)@ == old(h)@ + dims_text(shape@),
{
    let mut i: usize = 0;
    assert(h@ =~= old(h)@ + dims_text(shape@.take(0)));
    while i < shape.len()
        invariant
            i <= shape@.len(),
            h@ == old(h)@ + dims_text(shape@.take(i as int)),
        decreases shape@.len() - i,
    {
        let ghost next = shape@.take(i + 1);
        let ghost before = h@;
        assert(next.drop_last() =~= shape@.take(i as int));
        if i > 0 {
            text::push_text(h, ", ");
        }
        text::push_decimal(h, shape[i] as u64);
        proof {
            if i == 0 {
                assert(shape@.take(0) =~= Seq::empty());
                assert(h@ =~= old(h)@ + dims_text(next));
            } else {
                assert(h@ =~= old(h)@ + (dims_text(shape@.take(i as int)) + ", "@
                    + text::decimal(next.last() as nat)));
            }
        }
        i += 1;
    }
    assert(shape@.take(shape@.len() as int) =~= shape@);
}

/// Header of an array of 32-bit floats in row-major order.
pub fn npy_header(shape: &[usize]) -> (h: Vec<char>)
    requires
        header_open(shape@).len() + 11 <= usize::MAX,
    ensures
        h@ == header_text(shape@),
{
    let mut h: Vec<char> = Vec::new();
    text::push_text(&mut h, "{'descr': '<f4', 'fortran_order': False, 'shape': (");
    push_dims(&mut h, shape);
    if shape.len() == 1 {
        h.push(',');
    }
    text::push_text(&mut h, ")");
    assert(h@ =~= header_open(shape@));
    let pad: usize = (64 - (10 + h.len() + 1) % 64) % 64;
    let mut i: usize = 0;
    assert(h@ =~= header_open(shape@) + spaces(0));
    while i < pad
        invariant
            i <= pad,
            h@ == header_open(shape@) + spaces(i as int),
        decreases pad - i,
    {
        h.push(' ');
        assert(h@ =~= header_open(shape@) + spaces(i + 1));
        i += 1;
    }
    text::push_text(&mut h, "}");
    h
}

/// Appends bytes.
fn push_bytes(v: &mut Vec<u8>, t: &[u8])
    ensures
        final(v)@ == old(v)@ + t@,
{
    let mut i: usize = 0;
    assert(v@ =~= old(v)@ + t@.take(0));
    while i < t.len()
        invariant
            i <= t@.len(),
            v@ == old(v)@ + t@.take(i as int),
        decreases t@.len() - i,
    {
        v.push(t[i]);
        assert(v@ =~= old(v)@ + t@.take(i + 1));
        i += 1;
    }
    assert(t@.take(t@.len() as int) =~= t@);
}

/// Bytes of the NPY file of an array.
pub fn npy_file(arr: &NpyArray) -> (v: Vec<u8>)
    requires
        header_open(arr.shape@).len() + 11 <= usize::MAX,
        header_fits(arr.shape@),
    ensures
        v@ == npy_bytes(arr.shape@, arr.data@),
{
    let chars = npy_header(arr.shape.as_slice());
    let s = text::string_of(chars.as_slice());
    let h = s.as_str().as_bytes();
    let mut v: Vec<u8> = Vec::new();
    v.push(0x93);
    v.push(0x4E);
    v.push(0x55);
    v.push(0x4D);
    v.push(0x50);
    v.push(0x59);
    v.push(1);
    v.push(0);
    let n: usize = h.len();
    v.push((n % 256) as u8);
    v.push((n / 256 % 256) as u8);
    let ghost frame = npy::magic() + seq![1u8, 0u8, byte(n as int, 0), byte(n as int, 1)];
    assert(v@ =~= frame);
    push_bytes(&mut v, h);
    let ghost head = v@;
    let mut i: usize = 0;
    assert(v@ =~= head + data_bytes(arr.data@.take(0)));
    while i < arr.data.len()
        invariant
            i <= arr.data@.len(),
            v@ == head + data_bytes(arr.data@.take(i as int)),
        decreases arr.data@.len() - i,
    {
        let x: u32 = arr.data[i];
        v.push((x % 256) as u8);
        v.push((x / 256 % 256) as u8);
        v.push((x / 0x1_0000 % 256) as u8);
        v.push((x / 0x100_0000 % 256) as u8);
        proof {
            let a = data_bytes(arr.data@.take(i as int));
            let b = data_bytes(arr.data@.take(i + 1));
            assert(v@ =~= head + b) by {
                assert forall|k: int| 0 <= k < b.len() implies v@[head.len() + k] == b[k] by {
                    if k < 4 * i {
                        assert(a[k] == b[k]);
                    }
                }
            }
        }
        i += 1;
    }
    assert(arr.data@.take(arr.data@.len() as int) =~= arr.data@);
    v
}

/// The characters of the fixed start.
proof fn head_spelled()
    ensures
        head() == seq![
            '{', '\'', 'd', 'e', 's', 'c', 'r', '\'', ':', ' ', '\'', '<', 'f', '4', '\'', ',', ' ',
            '\'', 'f', 'o', 'r', 't', 'r', 'a', 'n', '_', 'o', 'r', 'd', 'e', 'r', '\'', ':', ' ',
            'F', 'a', 'l', 's', 'e', ',', ' ', '\'', 's', 'h', 'a', 'p', 'e', '\'', ':', ' ', '(',
        ],
{
    reveal_strlit("{'descr': '<f4', 'fortran_order': False, 'shape': (");
    assert(head() =~= seq![
        '{', '\'', 'd', 'e', 's', 'c', 'r', '\'', ':', ' ', '\'', '<', 'f', '4', '\'', ',', ' ',
        '\'', 'f', 'o', 'r', 't', 'r', 'a', 'n', '_', 'o', 'r', 'd', 'e', 'r', '\'', ':', ' ',
        'F', 'a', 'l', 's', 'e', ',', ' ', '\'', 's', 'h', 'a', 'p', 'e', '\'', ':', ' ', '(',
    ]);
}

/// Where the quotes of the fixed start stand.
proof fn quotes_of_head(k: int)
    requires
        0 <= k < 51,
        head()[k] == '\'',
    ensures
        k == 1 || k == 7 || k == 10 || k == 14 || k == 17 || k == 31 || k == 41 || k == 47,
{
    head_spelled();
}

/// The fixed start of every header.
spec fn head() -> Seq<char> {
    "{'descr': '<f4', 'fortran_order': False, 'shape': ("@
}

/// A character that a shape text can hold.
spec fn shape_char(c: char) -> bool {
    text::is_digit(c) || c == ',' || c == ' '
}

proof fn dims_text_chars(shape: Seq<usize>)
    ensures
        forall|i: int| 0 <= i < dims_text(shape).len() ==> shape_char(#[trigger] dims_text(shape)[i]),
    decreases shape.len(),
{
    reveal_strlit(", ");
    if shape.len() == 1 {
        text::decimal_reads_back(shape[0] as nat, usize::MAX as int);
    } else if shape.len() > 1 {
        dims_text_chars(shape.drop_last());
        text::decimal_reads_back(shape.last() as nat, usize::MAX as int);
        let a = dims_text(shape.drop_last());
        let d = text::decimal(shape.last() as nat);
        assert forall|i: int| 0 <= i < dims_text(shape).len() implies shape_char(
            #[trigger] dims_text(shape)[i],
        ) by {
            let c = dims_text(shape)[i];
            if i < a.len() {
                assert(c == a[i]);
            } else if i >= a.len() + 2 {
                assert(c == d[i - a.len() - 2]);
            }
        }
    }
}

/// Where the parts of a header stand.
proof fn header_layout(shape: Seq<usize>)
    ensures
        ({
            let h = header_text(shape);
            let st = shape_text(shape);
            &&& h.len() == 51 + st.len() as int + 1 + header_pad(shape) + 1
            &&& 0 <= header_pad(shape) < 64
            &&& forall|k: int| 0 <= k < 51 ==> h[k] == #[trigger] head()[k]
            &&& forall|k: int| 51 <= k < 51 + st.len() as int ==> shape_char(#[trigger] h[k])
            &&& h.subrange(51, 51 + st.len() as int) == st
            &&& h[51 + st.len() as int] == ')'
            &&& forall|k: int|
                51 + st.len() as int <= k < h.len() ==> ((#[trigger] h[k]) == ')' || h[k] == ' ' || h[k] == '}')
        }),
        head().len() == 51,
{
    reveal_strlit("{'descr': '<f4', 'fortran_order': False, 'shape': (");
    reveal_strlit(")");
    reveal_strlit("}");
    let h = header_text(shape);
    let st = shape_text(shape);
    dims_text_chars(shape);
    assert(h.subrange(51, 51 + st.len() as int) =~= st);
    assert forall|k: int| 51 <= k < 51 + st.len() as int implies shape_char(#[trigger] h[k]) by {
        assert(h[k] == st[k - 51]);
        if k - 51 < dims_text(shape).len() {
            assert(st[k - 51] == dims_text(shape)[k - 51]);
        }
    }
}

/// The element type of a written header.
proof fn descr_of_header(shape: Seq<usize>)
    ensures
        npy::str_value(header_text(shape), "'descr'"@) == Some("<f4"@),
{
    let h = header_text(shape);
    header_layout(shape);
    reveal_strlit("{'descr': '<f4', 'fortran_order': False, 'shape': (");
    reveal_strlit("'descr'");
    reveal_strlit("<f4");
    let key = "'descr'"@;
    assert(head()[0] == '{');
    assert(h[0] == head()[0]);
    assert(h.subrange(1, 8) =~= key);
    assert(!text::occurs_at(h, key, 0)) by {
        assert(h.subrange(0, 7)[0] == '{');
    }
    text::index_of_is(h, key, 0, 1);
    assert(h[8] == head()[8] && h[9] == head()[9] && h[10] == head()[10]);
    text::index_of_char_is(h, '\'', 8, 10);
    assert(h[11] == head()[11] && h[12] == head()[12] && h[13] == head()[13] && h[14]
        == head()[14]);
    text::index_of_char_is(h, '\'', 11, 14);
    assert(h.subrange(11, 14) =~= "<f4"@);
}

/// A written header does not claim column-major order.
proof fn order_of_header(shape: Seq<usize>)
    ensures
        !text::contains(header_text(shape), "'fortran_order': True"@),
{
    let h = header_text(shape);
    let pat = "'fortran_order': True"@;
    header_layout(shape);
    reveal_strlit("{'descr': '<f4', 'fortran_order': False, 'shape': (");
    reveal_strlit("'fortran_order': True");
    assert forall|k: int| !text::occurs_at(h, pat, k) by {
        if text::occurs_at(h, pat, k) {
            let t = h.subrange(k, k + pat.len());
            assert(t[0] == pat[0] && t[1] == pat[1] && t[17] == pat[17]);
            assert(h[k] == '\'' && h[k + 1] == 'f' && h[k + 17] == 'T');
            if k < 51 {
                assert(h[k] == head()[k]);
                if k < 50 {
                    assert(h[k + 1] == head()[k + 1]);
                }
                assert(k == 1 || k == 7 || k == 10 || k == 14 || k == 17 || k == 31 || k == 41 || k == 47) by {
                    quotes_of_head(k);
                }
                assert(k == 17);
                assert(h[34] == head()[34]);
            }
        }
    }
}

/// The shape text of a written header.
proof fn inner_of_header(shape: Seq<usize>)
    ensures
        npy::shape_inner(header_text(shape)) == Some(shape_text(shape)),
{
    let h = header_text(shape);
    let st = shape_text(shape);
    let pat = "'shape'"@;
    header_layout(shape);
    reveal_strlit("{'descr': '<f4', 'fortran_order': False, 'shape': (");
    reveal_strlit("'shape'");
    assert(h.subrange(41, 48) =~= pat);
    assert forall|k: int| 0 <= k < 41 implies !text::occurs_at(h, pat, k) by {
        if text::occurs_at(h, pat, k) {
            let t = h.subrange(k, k + pat.len());
            assert(t[0] == pat[0] && t[1] == pat[1]);
            assert(h[k] == head()[k] && h[k + 1] == head()[k + 1]);
            assert(k == 1 || k == 7 || k == 10 || k == 14 || k == 17 || k == 31 || k == 41 || k == 47) by {
                quotes_of_head(k);
            }
        }
    }
    text::index_of_is(h, pat, 0, 41);
    assert forall|k: int| 41 <= k < 50 implies h[k] != '(' by {
        assert(h[k] == head()[k]);
    }
    assert(h[50] == head()[50]);
    text::index_of_char_is(h, '(', 41, 50);
    text::index_of_char_is(h, ')', 50, 51 + st.len() as int);
}

/// The pieces of a shape text between its commas.
spec fn dim_piece(shape: Seq<usize>, i: int) -> Seq<char> {
    let d = text::decimal(shape[i] as nat);
    if i == 0 {
        d
    } else {
        seq![' '] + d
    }
}

proof fn dims_text_pieces(shape: Seq<usize>)
    requires
        shape.len() >= 1,
    ensures
        text::split(dims_text(shape), ',') == Seq::new(
            shape.len(),
            |i: int| dim_piece(shape, i),
        ),
    decreases shape.len(),
{
    let want = Seq::new(shape.len(), |i: int| dim_piece(shape, i));
    text::decimal_reads_back(shape.last() as nat, usize::MAX as int);
    let d = text::decimal(shape.last() as nat);
    if shape.len() == 1 {
        text::split_plain(d, ',');
        assert(text::split(dims_text(shape), ',') =~= want);
    } else {
        let rest = shape.drop_last();
        dims_text_pieces(rest);
        reveal_strlit(", ");
        let b = seq![' '] + d;
        assert forall|i: int| 0 <= i < b.len() implies b[i] != ',' by {
            if i > 0 {
                assert(text::is_digit(d[i - 1]));
            }
        }
        text::split_append(dims_text(rest), ',', b);
        assert(dims_text(rest).push(',') + b =~= dims_text(shape));
        assert(text::split(dims_text(shape), ',') =~= want);
    }
}

/// A piece reads as its dimension.
proof fn piece_reads(shape: Seq<usize>, i: int)
    requires
        0 <= i < shape.len(),
    ensures
        text::number_of(text::trimmed(dim_piece(shape, i)), usize::MAX as int) == Some(
            shape[i] as int,
        ),
{
    let d = text::decimal(shape[i] as nat);
    text::decimal_reads_back(shape[i] as nat, usize::MAX as int);
    assert(text::is_digit(d[0]));
    assert(text::is_digit(d[d.len() - 1]));
    text::trimmed_inner(d);
}

proof fn pieces_read(shape: Seq<usize>, pieces: Seq<Seq<char>>, n: int)
    requires
        0 <= n <= shape.len() <= pieces.len(),
        forall|i: int| 0 <= i < shape.len() ==> #[trigger] pieces[i] == dim_piece(shape, i),
    ensures
        npy::dims_of(pieces, n) == shape.take(n),
    decreases n,
{
    if n > 0 {
        pieces_read(shape, pieces, n - 1);
        piece_reads(shape, n - 1);
        assert(pieces[n - 1] == dim_piece(shape, n - 1));
        assert(shape.take(n) =~= shape.take(n - 1).push(shape[n - 1]));
    } else {
        assert(shape.take(0) =~= Seq::empty());
    }
}

/// An empty piece is no dimension.
proof fn empty_piece_skipped()
    ensures
        text::number_of(text::trimmed(Seq::empty()), usize::MAX as int) is None,
{
}

/// A written header gives its shape back.
proof fn shape_of_header(shape: Seq<usize>)
    ensures
        npy::shape_value(header_text(shape)) == Some(shape),
{
    inner_of_header(shape);
    let st = shape_text(shape);
    let pieces = text::split(st, ',');
    empty_piece_skipped();
    if shape.len() == 0 {
        assert(st =~= Seq::empty());
        text::split_plain(st, ',');
        assert(pieces =~= seq![Seq::<char>::empty()]);
        reveal_with_fuel(npy::dims_of, 2);
        assert(npy::dims_of(pieces, 1) =~= shape);
    } else if shape.len() == 1 {
        dims_text_pieces(shape);
        text::split_append(dims_text(shape), ',', Seq::empty());
        assert(dims_text(shape).push(',') + Seq::<char>::empty() =~= st);
        assert(pieces.len() == 2);
        pieces_read(shape, pieces, 1);
        assert(shape.take(1) =~= shape);
        assert(npy::dims_of(pieces, 2) == npy::dims_of(pieces, 1));
    } else {
        dims_text_pieces(shape);
        pieces_read(shape, pieces, shape.len() as int);
        assert(shape.take(shape.len() as int) =~= shape);
    }
}

/// A number is the sum of its bytes.
proof fn bytes_of_number(v: u32)
    ensures
        byte(v as int, 0) + 256 * byte(v as int, 1) + 0x1_0000 * byte(v as int, 2) + 0x100_0000 * byte(
            v as int,
            3,
        ) == v,
{
    let n = v as int;
    vstd::arithmetic::div_mod::lemma_div_denominator(n, 256, 256);
    vstd::arithmetic::div_mod::lemma_div_denominator(n, 0x1_0000, 256);
    let a = n / 256;
    let b = a / 256;
    let c = b / 256;
    assert(n == 256 * a + n % 256);
    assert(a == 256 * b + a % 256);
    assert(b == 256 * c + b % 256);
    assert(c % 256 == c);
}

/// The bytes of elements read as the elements.
proof fn data_reads_back(data: Seq<u32>)
    ensures
        npy::elems_of(data_bytes(data), Dtype::F4, data.len()) == NpyElems::F32(data),
{
    let raw = data_bytes(data);
    assert forall|i: int| 0 <= i < data.len() implies npy::elem(raw, 4, i) as u32
        == #[trigger] data[i] by {
        reveal_with_fuel(npy::le, 5);
        bytes_of_number(data[i]);
        assert((4 * i) / 4 == i && (4 * i + 1) / 4 == i && (4 * i + 2) / 4 == i && (4 * i + 3) / 4
            == i);
        assert((4 * i) % 4 == 0 && (4 * i + 1) % 4 == 1 && (4 * i + 2) % 4 == 2 && (4 * i + 3) % 4
            == 3);
        assert(npy::le(raw, 4 * i, 4) == data[i]);
    }
    assert(npy::elems_of(raw, Dtype::F4, data.len())->F32_0 =~= data);
}

/// Dimensions whose non-zero product is small can be counted.
proof fn small_shapes_countable(shape: Seq<usize>)
    requires
        npy::nonzero_product(shape) <= isize::MAX,
    ensures
        npy::countable(shape),
        npy::product(shape) <= npy::nonzero_product(shape),
    decreases shape.len(),
{
    if shape.len() > 0 {
        let rest = shape.drop_last();
        let d = shape.last() as int;
        let p = npy::product(rest) as int;
        let q = npy::nonzero_product(rest) as int;
        if d > 0 {
            assert(q <= q * d) by (nonlinear_arith)
                requires
                    d >= 1,
                    q >= 0,
            ;
        }
        small_shapes_countable(rest);
        if d > 0 {
            assert(p * d <= q * d) by (nonlinear_arith)
                requires
                    0 <= p <= q,
                    d >= 0,
            ;
        }
    }
}

/// Filling up reaches a multiple of 64.
proof fn pad_aligns(n: int)
    requires
        n >= 0,
    ensures
        (n + (64 - n % 64) % 64) % 64 == 0,
{
}

/// A header holds ASCII characters.
proof fn header_is_ascii(shape: Seq<usize>)
    ensures
        vstd::utf8::is_ascii_chars(header_text(shape)),
{
    header_layout(shape);
    let h = header_text(shape);
    assert forall|i: int| 0 <= i < h.len() implies '\0' <= #[trigger] h[i] <= '\u{7f}' by {
        if i < 51 {
            assert(h[i] == head()[i]);
            head_is_ascii(i);
        } else if i < 51 + shape_text(shape).len() {
            assert(shape_char(h[i]));
        }
    }
}

/// The header of a written file ends at a multiple of 64 bytes, as readers that map files
/// into memory expect.
pub proof fn header_is_aligned(shape: Seq<usize>)
    ensures
        (10 + vstd::utf8::encode_utf8(header_text(shape)).len()) % 64 == 0,
{
    header_is_ascii(shape);
    vstd::utf8::is_ascii_chars_encode_utf8(header_text(shape));
    let n: int = 10 + header_open(shape).len() as int + 1;
    pad_aligns(n);
    assert(header_text(shape).len() == header_open(shape).len() + header_pad(shape) + 1) by {
        reveal_strlit("}");
    }
}

/// The fixed start holds ASCII characters.
proof fn head_is_ascii(k: int)
    requires
        0 <= k < 51,
    ensures
        '\0' <= head()[k] <= '\u{7f}',
{
    head_spelled();
}

/// Reading a written file gives back the shape and every element, bit for bit, for every
/// array that can exist.
pub proof fn written_file_reads_back(shape: Seq<usize>, data: Seq<u32>)
    requires
        header_fits(shape),
        npy::shape_holds(shape, data.len()),
    ensures
        npy::parsed(npy_bytes(shape, data)) == Ok::<(Seq<usize>, NpyElems), NpyFault>(
            (shape, NpyElems::F32(data)),
        ),
{
    let d = npy_bytes(shape, data);
    let text_h = header_text(shape);
    let h = vstd::utf8::encode_utf8(text_h);
    let n = h.len() as int;
    assert(d.take(6) =~= npy::magic());
    assert(d[6] == 1 && d[8] == byte(n, 0) && d[9] == byte(n, 1));
    reveal_with_fuel(npy::le, 3);
    assert(npy::le(d, 8, 2) == n);
    assert(d.subrange(10, 10 + n) =~= h);
    assert(d.skip(10 + n) =~= data_bytes(data));
    vstd::utf8::encode_utf8_valid_utf8(text_h);
    vstd::utf8::encode_utf8_decode_utf8(text_h);
    descr_of_header(shape);
    shape_of_header(shape);
    order_of_header(shape);
    small_shapes_countable(shape);
    data_reads_back(data);
    reveal_strlit("<f4");
    assert(npy::dtype_of("<f4"@) == Some(Dtype::F4));
}

} // verus!
