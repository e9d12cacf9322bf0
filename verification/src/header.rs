//! Header-block parsing: locating the blank-line separator and extracting
//! the `Content-Length` field from the ASCII header lines that precede it.
//!
//! Everything here is stated over sequences of bytes; the wire format is
//! byte-oriented and `Content-Length` counts bytes, not characters.

use vstd::prelude::*;

verus! {

/// Carriage return.
pub open spec fn cr() -> u8 {
    13
}

/// Line feed.
pub open spec fn lf() -> u8 {
    10
}

/// The header/body separator `\r\n\r\n` starts at index `i` of `b`.
pub open spec fn sep_at(b: Seq<u8>, i: int) -> bool {
    &&& 0 <= i
    &&& i + 4 <= b.len()
    &&& b[i] == cr()
    &&& b[i + 1] == lf()
    &&& b[i + 2] == cr()
    &&& b[i + 3] == lf()
}

/// Index of the first separator at or after `i`, if any.
pub open spec fn first_sep_from(b: Seq<u8>, i: int) -> Option<int>
    decreases b.len() - i,
{
    if i < 0 || i + 4 > b.len() {
        None
    } else if sep_at(b, i) {
        Some(i)
    } else {
        first_sep_from(b, i + 1)
    }
}

/// Index of the first header/body separator in `b`, if any.
pub open spec fn first_sep(b: Seq<u8>) -> Option<int> {
    first_sep_from(b, 0)
}

pub proof fn lemma_first_sep_from_props(b: Seq<u8>, i: int)
    requires
        0 <= i,
    ensures
        match first_sep_from(b, i) {
            Some(p) => sep_at(b, p) && i <= p && forall|j: int| i <= j < p ==> !sep_at(b, j),
            None => forall|j: int| i <= j ==> !sep_at(b, j),
        },
    decreases b.len() - i,
{
    if i + 4 > b.len() {
        assert(forall|j: int| i <= j ==> !sep_at(b, j));
    } else if sep_at(b, i) {
    } else {
        lemma_first_sep_from_props(b, i + 1);
    }
}

/// The first separator is exactly characterized: it is a separator position
/// and no earlier position is one.
pub proof fn lemma_first_sep_is_first(b: Seq<u8>, p: int)
    requires
        sep_at(b, p),
        forall|j: int| 0 <= j < p ==> !sep_at(b, j),
    ensures
        first_sep(b) == Some(p),
{
    lemma_first_sep_from_props(b, 0);
    match first_sep(b) {
        Some(q) => {
            if q < p {
                assert(!sep_at(b, q));
            }
            if p < q {
                assert(!sep_at(b, p));
            }
        },
        None => {
            assert(!sep_at(b, p));
        },
    }
}

/// Finds the byte index of the first `\r\n\r\n` in `data`, if any.
pub fn find_separator(data: &[u8]) -> (r: Option<usize>)
    ensures
        match r {
            Some(i) => first_sep(data@) == Some(i as int),
            None => first_sep(data@) is None,
        },
{
    let n = data.len();
    if n < 4 {
        proof {
            lemma_first_sep_from_props(data@, 0);
            if first_sep(data@) is Some {
                assert(sep_at(data@, first_sep(data@)->Some_0));
            }
        }
        return None;
    }
    let mut i: usize = 0;
    while i <= n - 4
        invariant
            n == data@.len(),
            4 <= n,
            i <= n,
            forall|j: int| 0 <= j < i ==> !sep_at(data@, j),
        decreases n - i,
    {
        if data[i] == 13 && data[i + 1] == 10 && data[i + 2] == 13 && data[i + 3] == 10 {
            proof {
                lemma_first_sep_is_first(data@, i as int);
            }
            return Some(i);
        }
        i = i + 1;
    }
    proof {
        lemma_first_sep_from_props(data@, 0);
        if first_sep(data@) is Some {
            let p = first_sep(data@)->Some_0;
            assert(sep_at(data@, p));
            assert(!sep_at(data@, p));
        }
    }
    None
}

/// ASCII decimal digit.
pub open spec fn is_digit(c: u8) -> bool {
    48 <= c <= 57
}

pub open spec fn all_digits(s: Seq<u8>) -> bool {
    forall|i: int| 0 <= i < s.len() ==> is_digit(#[trigger] s[i])
}

/// The number denoted by a sequence of ASCII decimal digits.
pub open spec fn dec_value(s: Seq<u8>) -> int
    decreases s.len(),
{
    if s.len() == 0 {
        0
    } else {
        dec_value(s.drop_last()) * 10 + (s.last() - 48)
    }
}

/// `s` denotes a non-negative integer that fits in `usize`.
pub open spec fn is_valid_decimal(s: Seq<u8>) -> bool {
    s.len() > 0 && all_digits(s) && dec_value(s) <= usize::MAX
}

/// ASCII lower-casing of a single byte.
pub open spec fn to_lower(c: u8) -> u8 {
    if 65 <= c <= 90 {
        (c + 32) as u8
    } else {
        c
    }
}

/// The bytes of `content-length`, the required header field's name in
/// lower case (header names are compared case-insensitively).
pub open spec fn cl_name() -> Seq<u8> {
    seq![99u8, 111, 110, 116, 101, 110, 116, 45, 108, 101, 110, 103, 116, 104]
}

/// `line` is a `Content-Length` header line: a case-insensitive match of
/// the field name, then `": "`, then the value bytes.
pub open spec fn is_cl_line(line: Seq<u8>) -> bool {
    &&& line.len() >= 16
    &&& forall|k: int| 0 <= k < 14 ==> to_lower(#[trigger] line[k]) == cl_name()[k]
    &&& line[14] == 58
    &&& line[15] == 32
}

/// Index of the first `\r\n` at or after `from` in `h`, or `h.len()` if
/// there is none: the exclusive end of the header line starting at `from`.
pub open spec fn line_end(h: Seq<u8>, from: int) -> int
    decreases h.len() - from,
{
    if from < 0 || from >= h.len() {
        h.len() as int
    } else if from + 1 < h.len() && h[from] == cr() && h[from + 1] == lf() {
        from
    } else {
        line_end(h, from + 1)
    }
}

pub proof fn lemma_line_end_bounds(h: Seq<u8>, from: int)
    requires
        0 <= from <= h.len(),
    ensures
        from <= line_end(h, from) <= h.len(),
        line_end(h, from) < h.len() ==> line_end(h, from) + 1 < h.len() && h[line_end(h, from)]
            == cr() && h[line_end(h, from) + 1] == lf(),
    decreases h.len() - from,
{
    if from >= h.len() {
    } else if from + 1 < h.len() && h[from] == cr() && h[from + 1] == lf() {
    } else {
        lemma_line_end_bounds(h, from + 1);
    }
}

/// The value bytes of the first `Content-Length` line at or after `from`
/// in the header block `h`, if any.
pub open spec fn cl_value_from(h: Seq<u8>, from: int) -> Option<Seq<u8>>
    decreases h.len() - from when 0 <= from via cl_value_from_decreases
{
    if from >= h.len() {
        None
    } else {
        let e = line_end(h, from);
        if is_cl_line(h.subrange(from, e)) {
            Some(h.subrange(from + 16, e))
        } else if e >= h.len() {
            None
        } else {
            cl_value_from(h, e + 2)
        }
    }
}

#[via_fn]
proof fn cl_value_from_decreases(h: Seq<u8>, from: int) {
    if 0 <= from < h.len() {
        lemma_line_end_bounds(h, from);
    }
}

/// The value bytes of the first `Content-Length` line of `h`, if any.
pub open spec fn header_cl_value(h: Seq<u8>) -> Option<Seq<u8>> {
    cl_value_from(h, 0)
}

/// Finds the exclusive end of the header line starting at `from`.
pub fn line_end_exec(h: &[u8], from: usize) -> (e: usize)
    requires
        from <= h@.len(),
    ensures
        e == line_end(h@, from as int),
        from <= e <= h@.len(),
{
    let n = h.len();
    let mut i: usize = from;
    while i < n
        invariant
            n == h@.len(),
            from <= i <= n,
            line_end(h@, from as int) == line_end(h@, i as int),
        decreases n - i,
    {
        if i + 1 < n && h[i] == 13 && h[i + 1] == 10 {
            return i;
        }
        i = i + 1;
    }
    i
}

/// The expected byte of the lower-cased field name at position `k`.
fn cl_name_byte(k: usize) -> (b: u8)
    requires
        k < 14,
    ensures
        b == cl_name()[k as int],
{
    match k {
        0 => 99,
        1 => 111,
        2 => 110,
        3 => 116,
        4 => 101,
        5 => 110,
        6 => 116,
        7 => 45,
        8 => 108,
        9 => 101,
        10 => 110,
        11 => 103,
        12 => 116,
        13 => 104,
        _ => 0,
    }
}

/// Decides whether `h[from..end]` is a `Content-Length` header line.
pub fn is_cl_line_exec(h: &[u8], from: usize, end: usize) -> (r: bool)
    requires
        from <= end <= h@.len(),
    ensures
        r == is_cl_line(h@.subrange(from as int, end as int)),
{
    let ghost line = h@.subrange(from as int, end as int);
    if end - from < 16 {
        return false;
    }
    let mut k: usize = 0;
    while k < 14
        invariant
            from + 16 <= end <= h@.len(),
            k <= 14,
            line == h@.subrange(from as int, end as int),
            forall|j: int| 0 <= j < k ==> to_lower(#[trigger] line[j]) == cl_name()[j],
        decreases 14 - k,
    {
        let c = h[from + k];
        let low: u8 = if 65 <= c && c <= 90 {
            c + 32
        } else {
            c
        };
        if low != cl_name_byte(k) {
            assert(line[k as int] == h@[from + k]);
            return false;
        }
        assert(line[k as int] == h@[from + k]);
        k = k + 1;
    }
    let r = h[from + 14] == 58 && h[from + 15] == 32;
    assert(line[14] == h@[from + 14] && line[15] == h@[from + 15]);
    r
}

/// Locates the value bytes of the first `Content-Length` line at or after
/// `from`: returns their start and exclusive end within `h`.
pub fn find_cl_value_from(h: &[u8], from: usize) -> (r: Option<(usize, usize)>)
    requires
        from <= h@.len(),
    ensures
        match r {
            Some(v) => v.0 <= v.1 <= h@.len() && cl_value_from(h@, from as int) == Some(
                h@.subrange(v.0 as int, v.1 as int),
            ),
            None => cl_value_from(h@, from as int) is None,
        },
    decreases h@.len() - from,
{
    if from >= h.len() {
        return None;
    }
    let e = line_end_exec(h, from);
    if is_cl_line_exec(h, from, e) {
        assert(h@.subrange(from as int, e as int).len() >= 16);
        Some((from + 16, e))
    } else if e >= h.len() {
        None
    } else {
        proof {
            lemma_line_end_bounds(h@, from as int);
        }
        find_cl_value_from(h, e + 2)
    }
}

/// Locates the value bytes of the first `Content-Length` line of the
/// header block `h`.
pub fn find_cl_value(h: &[u8]) -> (r: Option<(usize, usize)>)
    ensures
        match r {
            Some(v) => v.0 <= v.1 <= h@.len() && header_cl_value(h@) == Some(
                h@.subrange(v.0 as int, v.1 as int),
            ),
            None => header_cl_value(h@) is None,
        },
{
    find_cl_value_from(h, 0)
}

pub proof fn lemma_dec_value_push(s: Seq<u8>, c: u8)
    ensures
        dec_value(s.push(c)) == dec_value(s) * 10 + (c - 48),
{
    assert(s.push(c).drop_last() =~= s);
    assert(s.push(c).last() == c);
}

/// Appending digits never decreases the denoted value.
pub proof fn lemma_dec_value_prefix(s: Seq<u8>, k: int)
    requires
        0 <= k <= s.len(),
        all_digits(s),
    ensures
        dec_value(s) >= dec_value(s.subrange(0, k)),
        dec_value(s) >= 0,
    decreases s.len() - k,
{
    if k == s.len() {
        assert(s.subrange(0, k) =~= s);
        lemma_dec_value_nonneg(s);
    } else {
        lemma_dec_value_prefix(s, k + 1);
        let p = s.subrange(0, k);
        let q = s.subrange(0, k + 1);
        assert(q =~= p.push(s[k]));
        lemma_dec_value_push(p, s[k]);
        lemma_dec_value_nonneg(p);
    }
}

pub proof fn lemma_dec_value_nonneg(s: Seq<u8>)
    requires
        all_digits(s),
    ensures
        dec_value(s) >= 0,
    decreases s.len(),
{
    if s.len() > 0 {
        assert(all_digits(s.drop_last())) by {
            assert(forall|i: int|
                0 <= i < s.len() - 1 ==> s.drop_last()[i] == #[trigger] s[i]);
        }
        lemma_dec_value_nonneg(s.drop_last());
    }
}

/// Parses `h[from..end]` as a non-negative decimal integer, rejecting
/// empty or non-digit input and values that do not fit in `usize`.
pub fn parse_decimal(h: &[u8], from: usize, end: usize) -> (r: Option<usize>)
    requires
        from <= end <= h@.len(),
    ensures
        ({
            let s = h@.subrange(from as int, end as int);
            match r {
                Some(v) => is_valid_decimal(s) && v == dec_value(s),
                None => !is_valid_decimal(s),
            }
        }),
{
    let ghost s = h@.subrange(from as int, end as int);
    if from == end {
        return None;
    }
    let mut acc: usize = 0;
    let mut k: usize = 0;
    while k < end - from
        invariant
            from < end <= h@.len(),
            k <= end - from,
            s == h@.subrange(from as int, end as int),
            all_digits(s.subrange(0, k as int)),
            acc == dec_value(s.subrange(0, k as int)),
        decreases end - from - k,
    {
        let c = h[from + k];
        assert(s[k as int] == h@[from + k]);
        if c < 48 || c > 57 {
            assert(!all_digits(s)) by {
                assert(!is_digit(s[k as int]));
            }
            return None;
        }
        let d = (c - 48) as usize;
        if acc > (usize::MAX - d) / 10 {
            // The value up to this digit already exceeds `usize::MAX`.
            proof {
                let p = s.subrange(0, k as int);
                let q = s.subrange(0, k as int + 1);
                assert(q =~= p.push(s[k as int]));
                lemma_dec_value_push(p, s[k as int]);
                assert(acc * 10 + d > usize::MAX) by {
                    assert(acc >= (usize::MAX - d) / 10 + 1);
                };
                if all_digits(s) {
                    lemma_dec_value_prefix(s, k as int + 1);
                }
            }
            return None;
        }
        assert(acc * 10 + d <= usize::MAX) by {
            assert(acc <= (usize::MAX - d) / 10);
        };
        proof {
            let p = s.subrange(0, k as int);
            let q = s.subrange(0, k as int + 1);
            assert(q =~= p.push(s[k as int]));
            lemma_dec_value_push(p, s[k as int]);
        }
        acc = acc * 10 + d;
        k = k + 1;
    }
    assert(s.subrange(0, (end - from) as int) =~= s);
    Some(acc)
}

} // verus!
