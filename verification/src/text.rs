//! Text helpers on sequences of characters.

use vstd::prelude::*;

verus! {

/// `String::push`: appends one character.
pub assume_specification[ String::push ](s: &mut String, c: char)
    ensures
        final(s)@ == old(s)@.push(c),
;

/// The characters of a text.
pub fn chars_of(s: &str) -> (v: Vec<char>)
    ensures
        v@ == s@,
{
    broadcast use vstd::string::axiom_spec_iter;
    let mut v: Vec<char> = Vec::new();
    for c in it: s.chars()
        invariant
            v@ == it.seq().take(it.index() as int),
    {
        v.push(c);
    }
    v
}

/// The text of a sequence of characters.
pub fn string_of(v: &[char]) -> (s: String)
    ensures
        s@ == v@,
{
    let mut s = String::new();
    let mut i: usize = 0;
    while i < v.len()
        invariant
            i <= v@.len(),
            s@ == v@.take(i as int),
        decreases v@.len() - i,
    {
        s.push(v[i]);
        assert(s@ =~= v@.take(i + 1));
        i += 1;
    }
    assert(v@.take(v@.len() as int) =~= v@);
    s
}

/// Whether two sequences of characters are the same.
pub fn same_chars(a: &[char], b: &[char]) -> (r: bool)
    ensures
        r == (a@ == b@),
{
    if a.len() != b.len() {
        return false;
    }
    let mut i: usize = 0;
    while i < a.len()
        invariant
            i <= a@.len() == b@.len(),
            forall|k: int| 0 <= k < i ==> a@[k] == b@[k],
        decreases a@.len() - i,
    {
        if a[i] != b[i] {
            return false;
        }
        i += 1;
    }
    assert(a@ =~= b@);
    true
}

/// Whether two texts are the same.
pub fn same(a: &str, b: &str) -> (r: bool)
    ensures
        r == (a@ == b@),
{
    let x = chars_of(a);
    let y = chars_of(b);
    same_chars(x.as_slice(), y.as_slice())
}

/// Whether `pat` stands at position `i` of `s`.
pub open spec fn occurs_at(s: Seq<char>, pat: Seq<char>, i: int) -> bool {
    &&& 0 <= i
    &&& i + pat.len() <= s.len()
    &&& s.subrange(i, i + pat.len()) == pat
}

/// First position of `pat` in `s`, at or after `from`.
pub open spec fn index_of(s: Seq<char>, pat: Seq<char>, from: int) -> Option<int>
    decreases s.len() + 1 - from,
{
    if from < 0 || from > s.len() {
        None
    } else if occurs_at(s, pat, from) {
        Some(from)
    } else {
        index_of(s, pat, from + 1)
    }
}

/// Whether `pat` occurs in `s`.
pub open spec fn contains(s: Seq<char>, pat: Seq<char>) -> bool {
    exists|i: int| occurs_at(s, pat, i)
}

/// A position with no earlier occurrence is the first one.
pub proof fn index_of_is(s: Seq<char>, pat: Seq<char>, from: int, i: int)
    requires
        0 <= from <= i,
        occurs_at(s, pat, i),
        forall|k: int| from <= k < i ==> !occurs_at(s, pat, k),
    ensures
        index_of(s, pat, from) == Some(i),
    decreases i - from,
{
    if from < i {
        index_of_is(s, pat, from + 1, i);
    }
}

/// Without any occurrence there is no first one.
pub proof fn index_of_none(s: Seq<char>, pat: Seq<char>, from: int)
    requires
        0 <= from,
        forall|k: int| from <= k ==> !occurs_at(s, pat, k),
    ensures
        index_of(s, pat, from) is None,
    decreases s.len() + 1 - from,
{
    if from <= s.len() {
        index_of_none(s, pat, from + 1);
    }
}

/// Whether `pat` stands at position `i` of `s`.
fn matches_at(s: &[char], pat: &[char], i: usize) -> (r: bool)
    requires
        i + pat@.len() <= s@.len(),
    ensures
        r == occurs_at(s@, pat@, i as int),
{
    let n: usize = s.len();
    let mut k: usize = 0;
    while k < pat.len()
        invariant
            k <= pat@.len(),
            i + pat@.len() <= s@.len() == n,
            forall|x: int| 0 <= x < k ==> s@[i + x] == pat@[x],
        decreases pat@.len() - k,
    {
        if s[i + k] != pat[k] {
            assert(s@.subrange(i as int, i + pat@.len())[k as int] != pat@[k as int]);
            return false;
        }
        k += 1;
    }
    assert(s@.subrange(i as int, i + pat@.len()) =~= pat@);
    true
}

/// First position of `pat` in `s`.
pub fn find(s: &[char], pat: &[char]) -> (r: Option<usize>)
    ensures
        match r {
            Some(i) => index_of(s@, pat@, 0) == Some(i as int) && occurs_at(s@, pat@, i as int),
            None => index_of(s@, pat@, 0) is None && !contains(s@, pat@),
        },
{
    if pat.len() > s.len() {
        proof {
            index_of_none(s@, pat@, 0);
        }
        return None;
    }
    let last: usize = s.len() - pat.len();
    let mut i: usize = 0;
    while i <= last
        invariant
            last + pat@.len() == s@.len(),
            i <= last,
            forall|k: int| k < i ==> !occurs_at(s@, pat@, k),
        decreases last + 1 - i,
    {
        if matches_at(s, pat, i) {
            proof {
                index_of_is(s@, pat@, 0, i as int);
            }
            return Some(i);
        }
        if i == last {
            assert(forall|k: int| !occurs_at(s@, pat@, k));
            proof {
                index_of_none(s@, pat@, 0);
            }
            return None;
        }
        i += 1;
    }
    None
}

/// First position of character `c` in `s`, at or after `from`.
pub open spec fn index_of_char(s: Seq<char>, c: char, from: int) -> Option<int>
    decreases s.len() - from,
{
    if from < 0 || from >= s.len() {
        None
    } else if s[from] == c {
        Some(from)
    } else {
        index_of_char(s, c, from + 1)
    }
}

/// A position with no earlier occurrence is the first one.
pub proof fn index_of_char_is(s: Seq<char>, c: char, from: int, i: int)
    requires
        0 <= from <= i < s.len(),
        s[i] == c,
        forall|k: int| from <= k < i ==> s[k] != c,
    ensures
        index_of_char(s, c, from) == Some(i),
    decreases i - from,
{
    if from < i {
        index_of_char_is(s, c, from + 1, i);
    }
}

/// Where no character is `c` there is no first one.
pub proof fn index_of_char_none(s: Seq<char>, c: char, from: int)
    requires
        0 <= from,
        forall|k: int| from <= k < s.len() ==> s[k] != c,
    ensures
        index_of_char(s, c, from) is None,
    decreases s.len() - from,
{
    if from < s.len() {
        index_of_char_none(s, c, from + 1);
    }
}

/// The first position is an occurrence, and nothing before it is.
pub proof fn index_of_char_found(s: Seq<char>, c: char, from: int)
    requires
        0 <= from,
    ensures
        match index_of_char(s, c, from) {
            Some(i) => from <= i < s.len() && s[i] == c && forall|k: int|
                from <= k < i ==> s[k] != c,
            None => forall|k: int| from <= k < s.len() ==> s[k] != c,
        },
    decreases s.len() - from,
{
    if from < s.len() && s[from] != c {
        index_of_char_found(s, c, from + 1);
    }
}

/// First position of character `c` in `s`, at or after `from`.
pub fn find_char(s: &[char], c: char, from: usize) -> (r: Option<usize>)
    requires
        from <= s@.len(),
    ensures
        match r {
            Some(i) => {
                &&& index_of_char(s@, c, from as int) == Some(i as int)
                &&& from <= i < s@.len()
                &&& s@[i as int] == c
            },
            None => index_of_char(s@, c, from as int) is None,
        },
{
    let mut i: usize = from;
    while i < s.len()
        invariant
            from <= i <= s@.len(),
            forall|k: int| from <= k < i ==> s@[k] != c,
        decreases s@.len() - i,
    {
        if s[i] == c {
            proof {
                index_of_char_is(s@, c, from as int, i as int);
            }
            return Some(i);
        }
        i += 1;
    }
    proof {
        index_of_char_none(s@, c, from as int);
    }
    None
}

/// Characters with the Unicode property `White_Space`.
pub open spec fn is_white(c: char) -> bool {
    let u = c as u32;
    ||| 9 <= u <= 13
    ||| u == 0x20
    ||| u == 0x85
    ||| u == 0xA0
    ||| u == 0x1680
    ||| 0x2000 <= u <= 0x200A
    ||| u == 0x2028
    ||| u == 0x2029
    ||| u == 0x202F
    ||| u == 0x205F
    ||| u == 0x3000
}

/// Whether a character has the Unicode property `White_Space`.
pub fn white(c: char) -> (r: bool)
    ensures
        r == is_white(c),
{
    let u: u32 = c as u32;
    (9 <= u && u <= 13) || u == 0x20 || u == 0x85 || u == 0xA0 || u == 0x1680 || (0x2000 <= u && u
        <= 0x200A) || u == 0x2028 || u == 0x2029 || u == 0x202F || u == 0x205F || u == 0x3000
}

/// Without the white space at the front.
pub open spec fn trim_front(s: Seq<char>) -> Seq<char>
    decreases s.len(),
{
    if s.len() > 0 && is_white(s[0]) {
        trim_front(s.drop_first())
    } else {
        s
    }
}

/// Without the white space at the back.
pub open spec fn trim_back(s: Seq<char>) -> Seq<char>
    decreases s.len(),
{
    if s.len() > 0 && is_white(s.last()) {
        trim_back(s.drop_last())
    } else {
        s
    }
}

/// Without the white space at both ends.
pub open spec fn trimmed(s: Seq<char>) -> Seq<char> {
    trim_back(trim_front(s))
}

/// The part from `lo` to `hi`.
pub fn part(s: &[char], lo: usize, hi: usize) -> (r: Vec<char>)
    requires
        lo <= hi <= s@.len(),
    ensures
        r@ == s@.subrange(lo as int, hi as int),
{
    let mut r: Vec<char> = Vec::new();
    let mut i: usize = lo;
    while i < hi
        invariant
            lo <= i <= hi <= s@.len(),
            r@ == s@.subrange(lo as int, i as int),
        decreases hi - i,
    {
        r.push(s[i]);
        assert(r@ =~= s@.subrange(lo as int, i + 1));
        i += 1;
    }
    r
}

/// Without the white space at both ends.
pub fn trim(s: &[char]) -> (r: Vec<char>)
    ensures
        r@ == trimmed(s@),
{
    let mut lo: usize = 0;
    assert(s@.subrange(0, s@.len() as int) =~= s@);
    while lo < s.len() && white(s[lo])
        invariant
            lo <= s@.len(),
            trim_front(s@) == trim_front(s@.subrange(lo as int, s@.len() as int)),
        decreases s@.len() - lo,
    {
        assert(s@.subrange(lo as int, s@.len() as int).drop_first() =~= s@.subrange(
            lo + 1,
            s@.len() as int,
        ));
        lo += 1;
    }
    assert(trim_front(s@) == s@.subrange(lo as int, s@.len() as int));
    let mut hi: usize = s.len();
    while lo < hi && white(s[hi - 1])
        invariant
            lo <= hi <= s@.len(),
            trimmed(s@) == trim_back(s@.subrange(lo as int, hi as int)),
        decreases hi - lo,
    {
        assert(s@.subrange(lo as int, hi as int).drop_last() =~= s@.subrange(lo as int, hi - 1));
        hi -= 1;
    }
    part(s, lo, hi)
}

/// The pieces between separators.
pub open spec fn split(s: Seq<char>, sep: char) -> Seq<Seq<char>>
    decreases s.len(),
{
    if s.len() == 0 {
        seq![Seq::empty()]
    } else {
        let before = split(s.drop_last(), sep);
        if s.last() == sep {
            before.push(Seq::empty())
        } else {
            before.update(before.len() - 1, before.last().push(s.last()))
        }
    }
}

/// Views of a list of pieces.
pub open spec fn views(v: Seq<Vec<char>>) -> Seq<Seq<char>> {
    v.map_values(|p: Vec<char>| p@)
}

/// The pieces between separators.
pub fn split_at(s: &[char], sep: char) -> (r: Vec<Vec<char>>)
    ensures
        views(r@) == split(s@, sep),
        r@.len() >= 1,
{
    let mut r: Vec<Vec<char>> = Vec::new();
    let mut cur: Vec<char> = Vec::new();
    let mut i: usize = 0;
    assert(views(r@).push(cur@) =~= split(s@.take(0), sep));
    while i < s.len()
        invariant
            i <= s@.len(),
            views(r@).push(cur@) == split(s@.take(i as int), sep),
        decreases s@.len() - i,
    {
        let ghost before = views(r@).push(cur@);
        assert(s@.take(i + 1).drop_last() =~= s@.take(i as int));
        if s[i] == sep {
            r.push(cur);
            cur = Vec::new();
            assert(views(r@).push(cur@) =~= before.push(Seq::empty()));
        } else {
            let ghost old_cur = cur@;
            cur.push(s[i]);
            assert(views(r@).push(cur@) =~= before.update(
                before.len() - 1,
                before.last().push(s@[i as int]),
            ));
        }
        i += 1;
    }
    assert(s@.take(s@.len() as int) =~= s@);
    r.push(cur);
    assert(views(r@) =~= split(s@, sep));
    r
}

/// The decimal digit `d`.
pub open spec fn digit(d: int) -> char {
    (48 + d) as char
}

/// Decimal digits of a number, without leading zeros.
pub open spec fn decimal(n: nat) -> Seq<char>
    decreases n,
{
    if n < 10 {
        seq![digit(n as int)]
    } else {
        decimal(n / 10).push(digit((n % 10) as int))
    }
}

/// Appends the decimal digits of a number.
pub fn push_decimal(s: &mut Vec<char>, n: u64)
    ensures
        final(s)@ == old(s)@ + decimal(n as nat),
    decreases n,
{
    if n >= 10 {
        push_decimal(s, n / 10);
    }
    let d: u8 = (n % 10) as u8;
    s.push((48 + d) as char);
    assert(s@ =~= old(s)@ + decimal(n as nat));
}

/// Appends characters.
pub fn push_all(s: &mut Vec<char>, t: &[char])
    ensures
        final(s)@ == old(s)@ + t@,
{
    let mut i: usize = 0;
    assert(s@ =~= old(s)@ + t@.take(0));
    while i < t.len()
        invariant
            i <= t@.len(),
            s@ == old(s)@ + t@.take(i as int),
        decreases t@.len() - i,
    {
        s.push(t[i]);
        assert(s@ =~= old(s)@ + t@.take(i + 1));
        i += 1;
    }
    assert(t@.take(t@.len() as int) =~= t@);
}

/// Appends a text.
pub fn push_text(s: &mut Vec<char>, t: &str)
    ensures
        final(s)@ == old(s)@ + t@,
{
    let c = chars_of(t);
    push_all(s, c.as_slice());
}

/// Whether a character is a decimal digit.
pub open spec fn is_digit(c: char) -> bool {
    '0' <= c <= '9'
}

/// Value of a sequence of decimal digits.
pub open spec fn digits_value(s: Seq<char>) -> int
    decreases s.len(),
{
    if s.len() == 0 {
        0
    } else {
        digits_value(s.drop_last()) * 10 + (s.last() as int - 48)
    }
}

/// The number that a text stands for: decimal digits, maybe behind one plus sign, with a
/// value that fits `max`.
pub open spec fn number_of(s: Seq<char>, max: int) -> Option<int> {
    let d = without_plus(s);
    if d.len() > 0 && all_digits(d) && digits_value(d) <= max {
        Some(digits_value(d))
    } else {
        None
    }
}

/// Whether a text holds decimal digits only.
pub open spec fn all_digits(s: Seq<char>) -> bool {
    forall|i: int| 0 <= i < s.len() ==> is_digit(#[trigger] s[i])
}

/// Without one plus sign at the front.
pub open spec fn without_plus(s: Seq<char>) -> Seq<char> {
    if s.len() > 0 && s[0] == '+' {
        s.drop_first()
    } else {
        s
    }
}

/// A prefix of the digits has no greater value.
proof fn digits_value_mono(s: Seq<char>, k: int)
    requires
        0 <= k <= s.len(),
        all_digits(s),
    ensures
        0 <= digits_value(s.take(k)) <= digits_value(s),
    decreases s.len(),
{
    if k == s.len() {
        assert(s.take(k) =~= s);
        if k > 0 {
            digits_value_mono(s.drop_last(), k - 1);
            assert(is_digit(s[k - 1]));
        }
    } else {
        digits_value_mono(s.drop_last(), k);
        assert(s.drop_last().take(k) =~= s.take(k));
        assert(is_digit(s[s.len() - 1]));
    }
}

/// Reads a machine number: decimal digits, maybe behind one plus sign.
pub fn parse_usize(s: &[char]) -> (r: Option<usize>)
    ensures
        match r {
            Some(n) => number_of(s@, usize::MAX as int) == Some(n as int),
            None => number_of(s@, usize::MAX as int) is None,
        },
{
    let from: usize = if s.len() > 0 && s[0] == '+' {
        1
    } else {
        0
    };
    let ghost d = s@.subrange(from as int, s@.len() as int);
    proof {
        if from == 1 {
            assert(s@.drop_first() =~= d);
        } else {
            assert(d =~= s@);
        }
    }
    if from == s.len() {
        return None;
    }
    let mut n: usize = 0;
    let mut i: usize = from;
    assert(d.take(0) =~= Seq::empty());
    while i < s.len()
        invariant
            from <= i <= s@.len(),
            d == s@.subrange(from as int, s@.len() as int),
            d == without_plus(s@),
            n == digits_value(d.take(i - from)),
            forall|k: int| 0 <= k < i - from ==> is_digit(#[trigger] d[k]),
        decreases s@.len() - i,
    {
        let c: char = s[i];
        assert(d[i - from] == c);
        if c < '0' || c > '9' {
            assert(!is_digit(d[i - from]));
            return None;
        }
        let v: usize = (c as u32 - 48) as usize;
        assert(d.take(i + 1 - from).drop_last() =~= d.take(i - from));
        assert(digits_value(d.take(i + 1 - from)) == n * 10 + v);
        proof {
            if n * 10 + v > usize::MAX && all_digits(d) {
                digits_value_mono(d, i + 1 - from);
            }
        }
        if n > usize::MAX / 10 {
            return None;
        }
        let m: usize = n * 10;
        if v > usize::MAX - m {
            return None;
        }
        n = m + v;
        i += 1;
    }
    assert(d.take(d.len() as int) =~= d);
    Some(n)
}

/// A number written in decimal reads back as itself.
pub proof fn decimal_reads_back(n: nat, max: int)
    requires
        n <= max,
    ensures
        number_of(decimal(n), max) == Some(n as int),
        decimal(n).len() > 0,
        all_digits(decimal(n)),
        digits_value(decimal(n)) == n,
    decreases n,
{
    if n < 10 {
        assert(decimal(n).drop_last() =~= Seq::empty());
        assert(digits_value(Seq::<char>::empty()) == 0);
    } else {
        decimal_reads_back(n / 10, max);
        assert(decimal(n).drop_last() =~= decimal(n / 10));
    }
    assert(is_digit(decimal(n)[0]));
}

/// Splitting a text without separators gives the text.
pub proof fn split_plain(b: Seq<char>, sep: char)
    requires
        forall|i: int| 0 <= i < b.len() ==> b[i] != sep,
    ensures
        split(b, sep) == seq![b],
    decreases b.len(),
{
    if b.len() > 0 {
        split_plain(b.drop_last(), sep);
        assert(b.drop_last().push(b.last()) =~= b);
        assert(split(b, sep) =~= seq![b]);
    } else {
        assert(b =~= Seq::empty());
    }
}

/// A piece behind the last separator is the last piece.
pub proof fn split_append(a: Seq<char>, sep: char, b: Seq<char>)
    requires
        forall|i: int| 0 <= i < b.len() ==> b[i] != sep,
    ensures
        split(a.push(sep) + b, sep) == split(a, sep).push(b),
    decreases b.len(),
{
    let s = a.push(sep) + b;
    if b.len() == 0 {
        assert(s =~= a.push(sep));
        assert(s.drop_last() =~= a);
        assert(b =~= Seq::empty());
    } else {
        split_append(a, sep, b.drop_last());
        assert(s.drop_last() =~= a.push(sep) + b.drop_last());
        assert(s.last() == b.last());
        assert(b.drop_last().push(b.last()) =~= b);
        assert(split(s, sep) =~= split(a, sep).push(b));
    }
}

/// White space in front of a text that neither starts nor ends with white space goes away.
pub proof fn trimmed_inner(b: Seq<char>)
    requires
        b.len() > 0,
        !is_white(b[0]),
        !is_white(b.last()),
    ensures
        trimmed(b) == b,
        trimmed(seq![' '] + b) == b,
{
    let s = seq![' '] + b;
    assert(s.drop_first() =~= b);
    assert(s[0] == ' ');
    assert(is_white(' '));
    assert(trim_front(b) == b);
    assert(trim_front(s) == trim_front(s.drop_first()));
    assert(trim_back(b) == b);
}

/// A trimmed text has no white space at its ends, it is a part of the text, and only white space is
/// lost.
pub proof fn trimming_takes_white_space_alone(s: Seq<char>)
    ensures
        ({
            let t = trimmed(s);
            &&& t.len() > 0 ==> !is_white(t[0]) && !is_white(t.last())
            &&& exists|a: int, b: int|
                0 <= a <= b <= s.len() && t == #[trigger] s.subrange(a, b) && (forall|i: int|
                    0 <= i < a || b <= i < s.len() ==> is_white(#[trigger] s[i]))
        }),
{
    let f = trim_front(s);
    let a = front_trimmed(s);
    let n = back_trimmed(f);
    let t = trimmed(s);
    assert(t == s.subrange(a, a + n)) by {
        assert(f == s.skip(a));
        assert(t == f.take(n));
        assert(f.take(n) =~= s.subrange(a, a + n));
    }
    assert forall|i: int| 0 <= i < a || a + n <= i < s.len() implies is_white(#[trigger] s[i]) by {
        if a + n <= i < s.len() {
            assert(f[i - a] == s[i]);
        }
    }
    if t.len() > 0 {
        assert(t[0] == f[0]);
    }
}

proof fn front_trimmed(s: Seq<char>) -> (a: int)
    ensures
        0 <= a <= s.len(),
        trim_front(s) == s.skip(a),
        forall|i: int| 0 <= i < a ==> is_white(#[trigger] s[i]),
        trim_front(s).len() > 0 ==> !is_white(trim_front(s)[0]),
    decreases s.len(),
{
    if s.len() > 0 && is_white(s[0]) {
        let rest = s.drop_first();
        let b = front_trimmed(rest);
        assert(rest.skip(b) =~= s.skip(b + 1));
        assert forall|i: int| 0 <= i < b + 1 implies is_white(#[trigger] s[i]) by {
            if i > 0 {
                assert(rest[i - 1] == s[i]);
            }
        }
        b + 1
    } else {
        assert(s.skip(0) =~= s);
        0
    }
}

proof fn back_trimmed(s: Seq<char>) -> (n: int)
    ensures
        0 <= n <= s.len(),
        trim_back(s) == s.take(n),
        forall|i: int| n <= i < s.len() ==> is_white(#[trigger] s[i]),
        trim_back(s).len() > 0 ==> !is_white(trim_back(s).last()),
    decreases s.len(),
{
    if s.len() > 0 && is_white(s.last()) {
        let rest = s.drop_last();
        let n = back_trimmed(rest);
        assert(rest.take(n) =~= s.take(n));
        assert forall|i: int| n <= i < s.len() implies is_white(#[trigger] s[i]) by {
            if i < rest.len() {
                assert(rest[i] == s[i]);
            }
        }
        n
    } else {
        assert(s.take(s.len() as int) =~= s);
        s.len() as int
    }
}

/// Another digit behind a number makes it ten times as great and adds the digit, a sign before it
/// changes nothing, and nothing but digits is a number.
pub proof fn numbers_grow_by_digits(s: Seq<char>, d: int, max: int)
    requires
        all_digits(s),
        s.len() > 0,
        0 <= d < 10,
    ensures
        digits_value(s.push(digit(d))) == 10 * digits_value(s) + d,
        number_of(seq!['+'] + s, max) == number_of(s, max),
        number_of(s, max) is Some <==> digits_value(s) <= max,
        number_of(s, max) is Some ==> number_of(s, max) == Some(digits_value(s)),
        number_of(s.push('x'), max) is None,
        number_of(Seq::empty(), max) is None,
{
    let t = s.push(digit(d));
    assert(t.drop_last() =~= s);
    assert((seq!['+'] + s).drop_first() =~= s);
    assert(is_digit(s[0]));
    let x = s.push('x');
    assert(!is_digit(x[x.len() - 1]));
    assert(without_plus(x) == x);
}

/// White space in the first 128 characters is the blank and the five control characters from the
/// tabulator to the carriage return; no digit, sign or mark of a table is white, and the wide blank
/// of Chinese texts is.
pub proof fn white_space_in_full(c: char)
    ensures
        (c as u32) < 128 ==> (is_white(c) <==> c == ' ' || c == '\t' || c == '\n' || c as u32 == 11
            || c as u32 == 12 || c == '\r'),
        is_digit(c) || c == '+' || c == '-' || c == '.' || c == ',' ==> !is_white(c),
        is_white('\u{3000}'),
        is_white('\u{a0}'),
{
}

/// Whether a switch of the environment is on that only one word turns off.
pub open spec fn on_unless(var: Option<&str>, word: Seq<char>) -> bool {
    match var {
        Some(v) => v@ != word,
        None => true,
    }
}

/// Whether a switch of the environment is on that only one word turns on.
pub open spec fn on_only(var: Option<&str>, word: Seq<char>) -> bool {
    match var {
        Some(v) => v@ == word,
        None => false,
    }
}

/// A switch that is not set is as if it were set to any other word than its own, and the two kinds
/// of switches are opposites.
pub proof fn switches_go_by_their_word(var: Option<&str>, v: &str, word: Seq<char>)
    ensures
        on_unless(var, word) == !on_only(var, word),
        on_only(Some(v), word) <==> v@ == word,
        v@ != word ==> on_only(Some(v), word) == on_only(None, word),
        v@ != word ==> on_unless(Some(v), word) == on_unless(None, word),
        on_unless(None, word),
{
}

} // verus!
