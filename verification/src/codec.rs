//! Encoding of outgoing frames: an outgoing body is wrapped as
//! `Content-Length: <decimal byte length>\r\n\r\n<body>`, and decoding an
//! encoded frame gives the body back unchanged (round trip).

use vstd::prelude::*;
use vstd::string::StringExecFns;
use vstd::string::StringSliceAdditionalSpecFns;
use vstd::utf8::decode_utf8;
use vstd::utf8::encode_scalar;
use vstd::utf8::encode_utf8;
use vstd::utf8::is_char_boundary;
use vstd::utf8::valid_utf8;

use crate::frame::bytes_of;
use crate::frame::frame_split;
use crate::frame::lemma_bytes_of_empty;
use crate::frame::SplitError;
use crate::header::all_digits;
use crate::header::cl_name;
use crate::header::cr;
use crate::header::dec_value;
use crate::header::is_cl_line;
use crate::header::is_valid_decimal;
use crate::header::lemma_dec_value_push;
use crate::header::lemma_first_sep_is_first;
use crate::header::line_end;

verus! {

/// The ASCII decimal digits of `n`, most significant first.
pub open spec fn dec_digits(n: int) -> Seq<u8>
    recommends
        n >= 0,
    decreases n,
{
    if n < 10 {
        seq![(48 + n) as u8]
    } else {
        dec_digits(n / 10).push((48 + n % 10) as u8)
    }
}

pub proof fn lemma_dec_digits_are_digits(n: int)
    requires
        n >= 0,
    ensures
        all_digits(dec_digits(n)),
        dec_digits(n).len() >= 1,
    decreases n,
{
    if n >= 10 {
        lemma_dec_digits_are_digits(n / 10);
    }
}

/// Rendering a number as digits and reading the digits back agree.
pub proof fn lemma_dec_digits_value(n: int)
    requires
        n >= 0,
    ensures
        dec_value(dec_digits(n)) == n,
    decreases n,
{
    if n < 10 {
        let s = dec_digits(n);
        assert(s.drop_last() =~= Seq::<u8>::empty());
        assert(dec_value(s.drop_last()) == 0);
    } else {
        lemma_dec_digits_value(n / 10);
        lemma_dec_value_push(dec_digits(n / 10), (48 + n % 10) as u8);
    }
}

/// The bytes of `Content-Length: `, the header written on every
/// outgoing frame.
pub open spec fn header_prefix() -> Seq<u8> {
    seq![67u8, 111, 110, 116, 101, 110, 116, 45, 76, 101, 110, 103, 116, 104, 58, 32]
}

/// The header/body separator `\r\n\r\n`.
pub open spec fn sep_bytes() -> Seq<u8> {
    seq![13u8, 10, 13, 10]
}

/// The exact wire bytes of a frame carrying `body`.
pub open spec fn frame_bytes(body: Seq<u8>) -> Seq<u8> {
    header_prefix() + dec_digits(body.len() as int) + sep_bytes() + body
}

/// ASCII bytes read as characters.
pub open spec fn ascii_chars_of(s: Seq<u8>) -> Seq<char> {
    s.map_values(|b: u8| b as char)
}

/// The character content of an encoded frame around `body`.
pub open spec fn encoded_frame_chars(body: Seq<char>) -> Seq<char> {
    ascii_chars_of(header_prefix() + dec_digits(bytes_of(body).len() as int) + sep_bytes()) + body
}

/// UTF-8 encoding distributes over concatenation.
pub proof fn lemma_encode_utf8_concat(a: Seq<char>, b: Seq<char>)
    ensures
        encode_utf8(a + b) == encode_utf8(a) + encode_utf8(b),
    decreases a.len(),
{
    if a.len() == 0 {
        assert(a + b =~= b);
        assert(encode_utf8(a) + encode_utf8(b) =~= encode_utf8(b));
    } else {
        lemma_encode_utf8_concat(a.drop_first(), b);
        assert((a + b).drop_first() =~= a.drop_first() + b);
        assert(encode_utf8(a) + encode_utf8(b) =~= encode_scalar(a[0] as u32) + (encode_utf8(
            a.drop_first(),
        ) + encode_utf8(b)));
    }
}

/// ASCII bytes survive the round trip through characters and UTF-8.
pub proof fn lemma_encode_ascii(s: Seq<u8>)
    requires
        forall|i: int| 0 <= i < s.len() ==> #[trigger] s[i] < 128,
    ensures
        encode_utf8(ascii_chars_of(s)) == s,
    decreases s.len(),
{
    if s.len() == 0 {
        assert(ascii_chars_of(s) =~= Seq::<char>::empty());
    } else {
        let c = ascii_chars_of(s)[0];
        let v = c as u32;
        assert(v == s[0] as u32);
        assert((v & 0x7F) == v) by (bit_vector)
            requires
                v < 128,
        ;
        assert(encode_scalar(v) =~= seq![s[0]]);
        lemma_encode_ascii(s.drop_first());
        assert(ascii_chars_of(s).drop_first() =~= ascii_chars_of(s.drop_first()));
        assert(encode_utf8(ascii_chars_of(s)) =~= s);
    }
}

/// A one-character string for each decimal digit.
fn digit_str(d: u8) -> (r: &'static str)
    requires
        d < 10,
    ensures
        r@ =~= seq![((48 + d) as u8) as char],
{
    match d {
        0 => {
            proof {
                reveal_strlit("0");
            }
            "0"
        },
        1 => {
            proof {
                reveal_strlit("1");
            }
            "1"
        },
        2 => {
            proof {
                reveal_strlit("2");
            }
            "2"
        },
        3 => {
            proof {
                reveal_strlit("3");
            }
            "3"
        },
        4 => {
            proof {
                reveal_strlit("4");
            }
            "4"
        },
        5 => {
            proof {
                reveal_strlit("5");
            }
            "5"
        },
        6 => {
            proof {
                reveal_strlit("6");
            }
            "6"
        },
        7 => {
            proof {
                reveal_strlit("7");
            }
            "7"
        },
        8 => {
            proof {
                reveal_strlit("8");
            }
            "8"
        },
        _ => {
            proof {
                reveal_strlit("9");
            }
            "9"
        },
    }
}

/// Appends the decimal rendering of `n` to `out`.
pub fn append_decimal(n: u64, out: &mut String)
    ensures
        final(out)@ == old(out)@ + ascii_chars_of(dec_digits(n as int)),
    decreases n,
{
    if n >= 10 {
        append_decimal(n / 10, out);
    }
    let d = (n % 10) as u8;
    out.append(digit_str(d));
    proof {
        if n < 10 {
            assert(ascii_chars_of(dec_digits(n as int)) =~= seq![((48 + n as int) as u8) as char]);
        } else {
            assert(dec_digits(n as int) == dec_digits(n as int / 10).push((48 + n as int % 10) as u8));
            assert(ascii_chars_of(dec_digits(n as int)) =~= ascii_chars_of(
                dec_digits(n as int / 10),
            ) + seq![((48 + d) as u8) as char]);
            assert(final(out)@ =~= old(out)@ + ascii_chars_of(dec_digits(n as int)));
        }
    }
}

/// Wraps an outgoing body in its frame: exactly
/// `Content-Length: <decimal(byte length of body)>\r\n\r\n<body>`,
/// with no trailing bytes after the body.
pub fn encode_frame(body: &str) -> (r: String)
    ensures
        r@ == encoded_frame_chars(body@),
        bytes_of(r@) == frame_bytes(bytes_of(body@)),
{
    let blen = body.as_bytes().len();
    assert(blen == bytes_of(body@).len());
    let mut out = "Content-Length: ".to_owned();
    proof {
        reveal_strlit("Content-Length: ");
        assert(out@ =~= ascii_chars_of(header_prefix()));
    }
    append_decimal(blen as u64, &mut out);
    out.append("\r\n\r\n");
    proof {
        reveal_strlit("\r\n\r\n");
        assert("\r\n\r\n"@ =~= ascii_chars_of(sep_bytes()));
    }
    out.append(body);
    proof {
        let pre = header_prefix() + dec_digits(bytes_of(body@).len() as int) + sep_bytes();
        assert(ascii_chars_of(pre) =~= ascii_chars_of(header_prefix()) + ascii_chars_of(
            dec_digits(bytes_of(body@).len() as int),
        ) + ascii_chars_of(sep_bytes()));
        assert(out@ =~= encoded_frame_chars(body@));
        lemma_encoded_frame_bytes(body@);
    }
    out
}

/// The bytes of an encoded frame's characters are exactly the frame's
/// wire bytes.
pub proof fn lemma_encoded_frame_bytes(body: Seq<char>)
    ensures
        bytes_of(encoded_frame_chars(body)) == frame_bytes(bytes_of(body)),
{
    let pre = header_prefix() + dec_digits(bytes_of(body).len() as int) + sep_bytes();
    lemma_dec_digits_are_digits(bytes_of(body).len() as int);
    assert(forall|i: int| 0 <= i < pre.len() ==> #[trigger] pre[i] < 128) by {
        assert(forall|i: int|
            0 <= i < pre.len() ==> pre[i] == if i < 16 {
                header_prefix()[i]
            } else if i < pre.len() - 4 {
                dec_digits(bytes_of(body).len() as int)[i - 16]
            } else {
                sep_bytes()[i - (pre.len() - 4)]
            });
    }
    lemma_encode_ascii(pre);
    lemma_encode_utf8_concat(ascii_chars_of(pre), body);
    assert(bytes_of(encoded_frame_chars(body)) =~= frame_bytes(bytes_of(body)));
}

proof fn lemma_line_end_no_cr(h: Seq<u8>, from: int)
    requires
        0 <= from <= h.len(),
        forall|j: int| from <= j < h.len() ==> h[j] != cr(),
    ensures
        line_end(h, from) == h.len(),
    decreases h.len() - from,
{
    if from < h.len() {
        lemma_line_end_no_cr(h, from + 1);
    }
}

/// Round trip at the byte level: for a body of any length that the
/// machine can hold, the encoded frame splits back into exactly that
/// body, with the declared length equal to the body's byte count and
/// nothing lost before or after it.
pub proof fn lemma_frame_split_of_encoded(body: Seq<u8>)
    requires
        body.len() <= usize::MAX,
    ensures
        ({
            let f = frame_bytes(body);
            let p: int = 16 + dec_digits(body.len() as int).len() as int;
            &&& frame_split(f) == Ok::<(int, int), SplitError>((p + 4, body.len() as int))
            &&& f.subrange(p + 4, f.len() as int) == body
            &&& p + 4 + body.len() == f.len()
        }),
{
    let n = body.len() as int;
    let dd = dec_digits(n);
    let f = frame_bytes(body);
    let p: int = 16 + dd.len() as int;
    lemma_dec_digits_are_digits(n);
    lemma_dec_digits_value(n);

    // Indexing into the concatenation that builds the frame.
    assert(forall|j: int|
        0 <= j < f.len() ==> f[j] == if j < 16 {
            header_prefix()[j]
        } else if j < p {
            dd[j - 16]
        } else if j < p + 4 {
            sep_bytes()[j - p]
        } else {
            body[j - (p + 4)]
        });

    // No carriage return before the separator, so the separator at `p`
    // is the first.
    assert(forall|j: int| 0 <= j < p ==> f[j] != cr()) by {
        assert(forall|k: int| 0 <= k < dd.len() ==> 48 <= #[trigger] dd[k] <= 57);
    }
    assert(crate::header::sep_at(f, p));
    assert(forall|j: int| 0 <= j < p ==> !crate::header::sep_at(f, j));
    lemma_first_sep_is_first(f, p);

    // The header block is a single `Content-Length` line.
    let h = f.subrange(0, p);
    assert(h =~= header_prefix() + dd);
    assert(forall|j: int| 0 <= j < h.len() ==> h[j] != cr()) by {
        assert(forall|k: int| 0 <= k < dd.len() ==> 48 <= #[trigger] dd[k] <= 57);
    }
    lemma_line_end_no_cr(h, 0);
    assert(h.subrange(0, h.len() as int) =~= h);
    assert(is_cl_line(h)) by {
        assert(forall|k: int|
            0 <= k < 14 ==> crate::header::to_lower(#[trigger] h[k]) == cl_name()[k]);
    }
    let v = h.subrange(16, h.len() as int);
    assert(v =~= dd);
    assert(crate::header::header_cl_value(h) == Some(v));
    assert(is_valid_decimal(v));
    assert(f.len() - (p + 4) == n);
    assert(f.subrange(p + 4, f.len() as int) =~= body);
}

/// The first byte that `encode_scalar` emits never has the shape of a
/// continuation byte.
proof fn lemma_encode_scalar_head_not_continuation(v: u32)
    requires
        vstd::utf8::is_scalar(v),
    ensures
        encode_scalar(v).len() > 0,
        !vstd::utf8::is_continuation_byte(encode_scalar(v)[0]),
{
    if vstd::utf8::has_width_1_encoding(v) {
        assert(vstd::utf8::leading_byte_width_1(v) <= 0x7f) by (bit_vector);
    } else if vstd::utf8::has_width_2_encoding(v) {
        assert(0xc0 <= vstd::utf8::leading_byte_width_2(v)) by (bit_vector);
    } else if vstd::utf8::has_width_3_encoding(v) {
        assert(0xe0 <= vstd::utf8::leading_byte_width_3(v)) by (bit_vector);
    } else {
        assert(0xf0 <= vstd::utf8::leading_byte_width_4(v)) by (bit_vector);
    }
}

/// The body of an encoded frame begins and ends on character boundaries
/// of the whole frame text: the encoded frame not only splits back into
/// the body's bytes, those bytes can be cut out of the frame as text.
pub proof fn lemma_encoded_frame_boundaries(body: Seq<char>)
    requires
        bytes_of(body).len() <= usize::MAX,
    ensures
        ({
            let f = bytes_of(encoded_frame_chars(body));
            let start = frame_split(f)->Ok_0.0;
            &&& frame_split(f) is Ok
            &&& is_char_boundary(f, start)
            &&& is_char_boundary(f.subrange(start, f.len() as int), frame_split(f)->Ok_0.1)
            &&& decode_utf8(f.subrange(start, f.len() as int)) == body
        }),
{
    broadcast use vstd::utf8::encode_utf8_valid_utf8;
    broadcast use vstd::utf8::encode_utf8_decode_utf8;
    broadcast use vstd::utf8::is_char_boundary_start_end_of_seq;
    broadcast use vstd::utf8::char_is_scalar;

    let chars = encoded_frame_chars(body);
    let f = bytes_of(chars);
    lemma_encode_decode_round_trip(body);
    let start = frame_split(f)->Ok_0.0;
    assert(valid_utf8(f));
    assert(f.subrange(start, f.len() as int) == bytes_of(body));
    if body.len() == 0 {
        lemma_bytes_of_empty(body);
        assert(start == f.len());
        assert(is_char_boundary(f, start));
    } else {
        vstd::utf8::char_is_scalar(body[0]);
        lemma_bytes_of_empty(body);
        assert(start < f.len());
        assert(f[start] == f.subrange(start, f.len() as int)[0]);
        assert(bytes_of(body)[0] == encode_scalar(body[0] as u32)[0]) by {
            assert(bytes_of(body) == encode_scalar(body[0] as u32) + encode_utf8(
                body.drop_first(),
            ));
            lemma_encode_scalar_head_not_continuation(body[0] as u32);
        }
        lemma_encode_scalar_head_not_continuation(body[0] as u32);
        vstd::utf8::is_char_boundary_iff_not_is_continuation_byte(f, start);
    }
    assert(is_char_boundary(f.subrange(start, f.len() as int), bytes_of(body).len() as int));
    assert(decode_utf8(f.subrange(start, f.len() as int)) == body) by {
        assert(decode_utf8(encode_utf8(body)) == body);
    }
}

/// Round trip through the encoder: decoding what `encode_frame` produced
/// yields the original body text, and the declared `Content-Length` is
/// its byte length.
pub proof fn lemma_encode_decode_round_trip(body: Seq<char>)
    requires
        bytes_of(body).len() <= usize::MAX,
    ensures
        ({
            let f = bytes_of(encoded_frame_chars(body));
            &&& frame_split(f) is Ok
            &&& 0 <= frame_split(f)->Ok_0.0
            &&& frame_split(f)->Ok_0.1 == bytes_of(body).len()
            &&& frame_split(f)->Ok_0.0 + frame_split(f)->Ok_0.1 == f.len()
            &&& f.subrange(frame_split(f)->Ok_0.0, f.len() as int) == bytes_of(body)
        }),
{
    lemma_encoded_frame_bytes(body);
    lemma_frame_split_of_encoded(bytes_of(body));
}

} // verus!
