//! Frame extraction: one complete header-plus-body unit from a buffer of
//! bytes read off the stream, and the per-read-cycle decision of the frame
//! reader (need more bytes, a complete frame, clean end of stream, or a
//! framing error).

use vstd::prelude::*;
use vstd::string::StringSliceAdditionalSpecFns;
use vstd::utf8::encode_utf8;
use vstd::utf8::is_char_boundary;

use crate::header::dec_value;
use crate::header::find_cl_value;
use crate::header::find_separator;
use crate::header::first_sep;
use crate::header::header_cl_value;
use crate::header::is_valid_decimal;
use crate::header::parse_decimal;
use vstd::utf8::encode_scalar;

verus! {

/// Why a buffer could not be split into a complete frame.
#[derive(Debug, Clone, Copy, PartialEq, Eq, Structural)]
pub enum SplitError {
    /// No blank-line separator `\r\n\r\n` terminates the header block.
    HeaderEndNotFound,
    /// The header block has no `Content-Length` line.
    MissingContentLength,
    /// The `Content-Length` value is not a non-negative integer that fits
    /// the machine, or it cuts the buffered text other than at a character
    /// boundary.
    InvalidContentLength,
    /// The buffered data ends before the declared body length is reached.
    UnexpectedEof,
    /// The header block exceeds the reader's lookahead bound without a
    /// separator: refused rather than buffered without limit.
    HeaderTooLarge,
}

/// The UTF-8 bytes a `String` or `&str` holds: `Content-Length` counts
/// these, not characters.
pub open spec fn bytes_of(s: Seq<char>) -> Seq<u8> {
    encode_utf8(s)
}

/// Splitting a byte buffer at its first complete frame: either the body's
/// start index and length, or the error that rules a frame out.
pub open spec fn frame_split(b: Seq<u8>) -> Result<(int, int), SplitError> {
    match first_sep(b) {
        None => Err(SplitError::HeaderEndNotFound),
        Some(i) => match header_cl_value(b.subrange(0, i)) {
            None => Err(SplitError::MissingContentLength),
            Some(v) => if !is_valid_decimal(v) {
                Err(SplitError::InvalidContentLength)
            } else if b.len() - (i + 4) < dec_value(v) {
                Err(SplitError::UnexpectedEof)
            } else {
                Ok((i + 4, dec_value(v)))
            },
        },
    }
}

/// Where the body of the first complete frame lies in the buffer.
pub struct FrameBounds {
    /// Byte index just past the header/body separator.
    pub body_start: usize,
    /// The declared `Content-Length`: the body is exactly this many bytes.
    pub body_len: usize,
}

/// Locates the first complete frame in `data`: the body starts right
/// after the first `\r\n\r\n` and runs for `Content-Length` bytes.
pub fn locate_frame(data: &[u8]) -> (r: Result<FrameBounds, SplitError>)
    ensures
        match r {
            Ok(fb) => frame_split(data@) == Ok::<(int, int), SplitError>(
                (fb.body_start as int, fb.body_len as int),
            ) && fb.body_start + fb.body_len <= data@.len(),
            Err(e) => frame_split(data@) == Err::<(int, int), SplitError>(e),
        },
{
    let i = match find_separator(data) {
        None => {
            return Err(SplitError::HeaderEndNotFound);
        },
        Some(i) => i,
    };
    proof {
        crate::header::lemma_first_sep_from_props(data@, 0);
    }
    let header = vstd::slice::slice_subrange(data, 0, i);
    let (vs, ve) = match find_cl_value(header) {
        None => {
            return Err(SplitError::MissingContentLength);
        },
        Some(v) => v,
    };
    let cl = match parse_decimal(header, vs, ve) {
        None => {
            return Err(SplitError::InvalidContentLength);
        },
        Some(cl) => cl,
    };
    if data.len() - (i + 4) < cl {
        return Err(SplitError::UnexpectedEof);
    }
    Ok(FrameBounds { body_start: i + 4, body_len: cl })
}

/// A character sequence has no UTF-8 bytes exactly when it is empty.
pub proof fn lemma_bytes_of_empty(s: Seq<char>)
    ensures
        (bytes_of(s).len() == 0) <==> (s.len() == 0),
{
    if s.len() != 0 {
        assert(encode_utf8(s) == encode_scalar(s[0] as u32) + encode_utf8(s.drop_first()));
        assert(encode_scalar(s[0] as u32).len() >= 1);
    }
}

/// How `split` answers for a given buffer, stated over the buffer's UTF-8
/// bytes: the frame is the byte prefix up to the end of the body, and it
/// exists exactly when a complete frame is found and the body ends on a
/// character boundary of the buffered text.
pub open spec fn split_spec(s: Seq<char>) -> Result<Seq<u8>, SplitError> {
    let b = bytes_of(s);
    match frame_split(b) {
        Err(e) => Err(e),
        Ok((start, len)) => if is_char_boundary(b, start + len) {
            Ok(b.subrange(0, start + len))
        } else {
            Err(SplitError::InvalidContentLength)
        },
    }
}

/// Cuts one complete frame (header block, separator, and exactly
/// `Content-Length` body bytes) off the front of the buffered data.
pub fn split(data: &String) -> (r: Result<String, SplitError>)
    ensures
        match r {
            Ok(frame) => split_spec(data@) == Ok::<Seq<u8>, SplitError>(bytes_of(frame@)),
            Err(e) => split_spec(data@) == Err::<Seq<u8>, SplitError>(e),
        },
{
    let s = data.as_str();
    let bytes = s.as_bytes();
    let fb = match locate_frame(bytes) {
        Err(e) => {
            return Err(e);
        },
        Ok(fb) => fb,
    };
    let n = bytes.len();
    assert(fb.body_start + fb.body_len <= n);
    let total = fb.body_start + fb.body_len;
    if !s.is_char_boundary(total) {
        return Err(SplitError::InvalidContentLength);
    }
    let (frame, _rest) = s.split_at(total);
    Ok(frame.to_owned())
}

/// What one read cycle of the frame reader decides from the buffered
/// bytes and whether the stream has reported end-of-input.
pub enum ReadStep {
    /// No complete frame yet and the stream is still open: read more.
    NeedMore,
    /// A complete frame, and the bytes read past its end, kept for the
    /// next cycle.
    Ready { frame: String, rest: String },
    /// End of stream on an empty buffer: clean termination.
    Closed,
    /// A fatal framing error; the connection cannot recover.
    Failed { error: SplitError },
}

/// The reader's decision, stated over the buffer's UTF-8 bytes. What a
/// `Ready` decision carries is not fixed here; `reader_step`'s own
/// contract pins the frame to the buffer's byte prefix and the rest to
/// what follows it.
pub open spec fn reader_step_spec(s: Seq<char>, eof: bool) -> ReadStep {
    match split_spec(s) {
        Ok(frame) => ReadStep::Ready {
            frame: arbitrary(),
            rest: arbitrary(),
        },
        Err(SplitError::HeaderEndNotFound) => if !eof {
            ReadStep::NeedMore
        } else if s.len() == 0 {
            ReadStep::Closed
        } else {
            ReadStep::Failed { error: SplitError::UnexpectedEof }
        },
        Err(SplitError::UnexpectedEof) => if eof {
            ReadStep::Failed { error: SplitError::UnexpectedEof }
        } else {
            ReadStep::NeedMore
        },
        Err(e) => ReadStep::Failed { error: e },
    }
}

/// One decision of the frame reader's loop over the buffered data.
///
/// A zero-length buffer at end of stream is clean termination; a partial
/// header or body at end of stream is `UnexpectedEof`; an incomplete
/// frame on an open stream asks for more bytes; bytes past the frame's
/// end are preserved in `rest` for the next cycle, never re-read.
pub fn reader_step(buf: &String, eof: bool) -> (r: ReadStep)
    ensures
        match r {
            ReadStep::Ready { frame, rest } => {
                &&& split_spec(buf@) == Ok::<Seq<u8>, SplitError>(bytes_of(frame@))
                &&& bytes_of(frame@) + bytes_of(rest@) == bytes_of(buf@)
            },
            other => other == reader_step_spec(buf@, eof),
        },
        (r is Ready) == (split_spec(buf@) is Ok),
{
    let s = buf.as_str();
    let bytes = s.as_bytes();
    let fb = match locate_frame(bytes) {
        Err(SplitError::HeaderEndNotFound) => {
            if !eof {
                return ReadStep::NeedMore;
            } else if bytes.len() == 0 {
                proof {
                    assert(bytes@ == bytes_of(buf@));
                    lemma_bytes_of_empty(buf@);
                }
                return ReadStep::Closed;
            } else {
                proof {
                    assert(bytes@ == bytes_of(buf@));
                    lemma_bytes_of_empty(buf@);
                }
                return ReadStep::Failed { error: SplitError::UnexpectedEof };
            }
        },
        Err(SplitError::UnexpectedEof) => {
            if eof {
                return ReadStep::Failed { error: SplitError::UnexpectedEof };
            } else {
                return ReadStep::NeedMore;
            }
        },
        Err(e) => {
            return ReadStep::Failed { error: e };
        },
        Ok(fb) => fb,
    };
    let n = bytes.len();
    assert(fb.body_start + fb.body_len <= n);
    let total = fb.body_start + fb.body_len;
    if !s.is_char_boundary(total) {
        return ReadStep::Failed { error: SplitError::InvalidContentLength };
    }
    let (frame, rest) = s.split_at(total);
    proof {
        assert(frame.spec_bytes() + rest.spec_bytes() =~= s.spec_bytes());
    }
    ReadStep::Ready { frame: frame.to_owned(), rest: rest.to_owned() }
}

/// The bounded reader's decision: as `reader_step_spec`, except that a
/// buffer still lacking its separator past `max_header` bytes is refused.
pub open spec fn reader_step_limited_spec(s: Seq<char>, eof: bool, max_header: int) -> ReadStep {
    if first_sep(bytes_of(s)) is None && bytes_of(s).len() > max_header {
        ReadStep::Failed { error: SplitError::HeaderTooLarge }
    } else {
        reader_step_spec(s, eof)
    }
}

/// One decision of the frame reader's loop, with a bound on how many
/// bytes the reader will buffer while looking for the header/body
/// separator: past `max_header` bytes without one, the connection is
/// refused with `HeaderTooLarge` instead of growing the buffer without
/// limit.
pub fn reader_step_limited(buf: &String, eof: bool, max_header: usize) -> (r: ReadStep)
    ensures
        match r {
            ReadStep::Ready { frame, rest } => {
                &&& split_spec(buf@) == Ok::<Seq<u8>, SplitError>(bytes_of(frame@))
                &&& bytes_of(frame@) + bytes_of(rest@) == bytes_of(buf@)
            },
            other => other == reader_step_limited_spec(buf@, eof, max_header as int),
        },
        (r is Ready) == (split_spec(buf@) is Ok),
{
    let s = buf.as_str();
    let bytes = s.as_bytes();
    if bytes.len() > max_header {
        match find_separator(bytes) {
            None => {
                return ReadStep::Failed { error: SplitError::HeaderTooLarge };
            },
            Some(_) => {},
        }
    }
    reader_step(buf, eof)
}

} // verus!
