//! Envelope classification: reading a decoded body just far enough to
//! route it — its `method`, its `id`, whether `params` is present — and
//! deciding whether it is a request, a notification or a response.
//!
//! The body is JSON text; parsing it is left to serde_json behind a few
//! trusted wrappers, each of which names what the parser computes. The
//! classification itself is verified against those names.

use vstd::prelude::*;
use vstd::string::StringSliceAdditionalSpecFns;
use vstd::utf8::decode_utf8;
use vstd::utf8::encode_utf8;
use vstd::utf8::is_char_boundary;

use crate::frame::bytes_of;
use crate::frame::frame_split;
use crate::frame::locate_frame;
use crate::frame::SplitError;

verus! {

/// Whether the text parses as JSON and the parsed document is an object.
pub uninterp spec fn is_json_object(s: Seq<char>) -> bool;

/// The string held by the top-level field `key` of the JSON object that
/// `s` parses to, if `s` parses to an object with a string there.
pub uninterp spec fn str_field(s: Seq<char>, key: Seq<char>) -> Option<Seq<char>>;

/// Whether the JSON object that `s` parses to has a top-level field
/// `key` at all.
pub uninterp spec fn has_field(s: Seq<char>, key: Seq<char>) -> bool;

/// The non-negative integer held by the top-level field `key` of the
/// JSON object that `s` parses to, if it holds one that fits in `u64`.
pub uninterp spec fn uint_field(s: Seq<char>, key: Seq<char>) -> Option<u64>;

/// Relies on serde_json::from_str::<Value> and Value::is_object: true
/// exactly when the text is valid JSON whose document is an object.
#[verifier::external_body]
fn json_is_object(s: &str) -> (r: bool)
    ensures
        r == is_json_object(s@),
{
    match serde_json::from_str::<serde_json::Value>(s) {
        Ok(v) => v.is_object(),
        Err(_) => false,
    }
}

/// Relies on serde_json::from_str::<Value>, Value::get and
/// Value::as_str: the string value of a top-level field, if the text is
/// valid JSON with such a field holding a string.
#[verifier::external_body]
fn json_str_field(s: &str, key: &str) -> (r: Option<String>)
    ensures
        match r {
            Some(v) => str_field(s@, key@) == Some(v@),
            None => str_field(s@, key@) is None,
        },
{
    match serde_json::from_str::<serde_json::Value>(s) {
        Ok(v) => match v.get(key) {
            Some(f) => f.as_str().map(|x| x.to_string()),
            None => None,
        },
        Err(_) => None,
    }
}

/// Relies on serde_json::from_str::<Value> and Value::get: whether the
/// text is valid JSON whose document has the given top-level field.
#[verifier::external_body]
fn json_has_field(s: &str, key: &str) -> (r: bool)
    ensures
        r == has_field(s@, key@),
{
    match serde_json::from_str::<serde_json::Value>(s) {
        Ok(v) => v.get(key).is_some(),
        Err(_) => false,
    }
}

/// Relies on serde_json::from_str::<Value>, Value::get and
/// Value::as_u64: the value of a top-level field when it is an integer
/// representable as `u64`.
#[verifier::external_body]
fn json_uint_field(s: &str, key: &str) -> (r: Option<u64>)
    ensures
        r == uint_field(s@, key@),
{
    match serde_json::from_str::<serde_json::Value>(s) {
        Ok(v) => match v.get(key) {
            Some(f) => f.as_u64(),
            None => None,
        },
        Err(_) => None,
    }
}

/// Why a body could not be classified.
#[derive(Debug, Clone, Copy, PartialEq, Eq, Structural)]
pub enum ClassifyError {
    /// The body is not a JSON object, its `method` is present but not a
    /// string, or it has neither `method` nor `id`.
    MalformedJson,
    /// `jsonrpc` is present and not exactly `"2.0"`.
    UnsupportedVersion,
}

/// A JSON-RPC message id as this layer reads it: a non-negative integer,
/// a string, or some other JSON value (carried only for its presence).
pub enum MessageId {
    Num(u64),
    Text(String),
    Other,
}

/// The mathematical value of a `MessageId`.
pub enum IdView {
    Num(u64),
    Text(Seq<char>),
    Other,
}

impl View for MessageId {
    type V = IdView;

    open spec fn view(&self) -> IdView {
        match self {
            MessageId::Num(n) => IdView::Num(*n),
            MessageId::Text(s) => IdView::Text(s@),
            MessageId::Other => IdView::Other,
        }
    }
}

impl MessageId {
    /// Whether two ids denote the same value; `Other` ids (present but
    /// neither integer nor string) all compare equal to one another.
    pub fn matches(&self, other: &MessageId) -> (r: bool)
        ensures
            r == (self@ == other@),
    {
        match (self, other) {
            (MessageId::Num(a), MessageId::Num(b)) => a == b,
            (MessageId::Text(a), MessageId::Text(b)) => a.eq(b),
            (MessageId::Other, MessageId::Other) => true,
            _ => false,
        }
    }
}

/// The three shapes of a JSON-RPC 2.0 message.
#[derive(Debug, Clone, Copy, PartialEq, Eq, Structural)]
pub enum MsgKind {
    /// `method` and `id` both present.
    Request,
    /// `method` present, no `id`.
    Notification,
    /// `id` present, no `method`.
    Response,
}

/// The routing-relevant view of a decoded body.
pub struct Envelope {
    pub method: Option<String>,
    pub id: Option<MessageId>,
    pub has_params: bool,
    pub kind: MsgKind,
}

/// The mathematical value of an `Envelope`.
pub struct EnvelopeView {
    pub method: Option<Seq<char>>,
    pub id: Option<IdView>,
    pub has_params: bool,
    pub kind: MsgKind,
}

impl View for Envelope {
    type V = EnvelopeView;

    open spec fn view(&self) -> EnvelopeView {
        EnvelopeView {
            method: match self.method {
                Some(m) => Some(m@),
                None => None,
            },
            id: match self.id {
                Some(i) => Some(i@),
                None => None,
            },
            has_params: self.has_params,
            kind: self.kind,
        }
    }
}

/// The id the body's `id` field denotes, if the field is present.
pub open spec fn id_view_of(s: Seq<char>) -> Option<IdView> {
    if !has_field(s, "id"@) {
        None
    } else if uint_field(s, "id"@) is Some {
        Some(IdView::Num(uint_field(s, "id"@)->Some_0))
    } else if str_field(s, "id"@) is Some {
        Some(IdView::Text(str_field(s, "id"@)->Some_0))
    } else {
        Some(IdView::Other)
    }
}

/// How a body is classified: the decode is permissive (a missing
/// `jsonrpc` is tolerated), but a present `jsonrpc` other than `"2.0"`
/// is a version error, and a body that is not a JSON object, carries a
/// non-string `method`, or has neither `method` nor `id` is malformed.
pub open spec fn classify_spec(s: Seq<char>) -> Result<EnvelopeView, ClassifyError> {
    if !is_json_object(s) {
        Err(ClassifyError::MalformedJson)
    } else if has_field(s, "jsonrpc"@) && str_field(s, "jsonrpc"@) != Some("2.0"@) {
        Err(ClassifyError::UnsupportedVersion)
    } else if has_field(s, "method"@) && str_field(s, "method"@) is None {
        Err(ClassifyError::MalformedJson)
    } else {
        let m = str_field(s, "method"@);
        let id = id_view_of(s);
        if m is Some && id is Some {
            Ok(EnvelopeView { method: m, id, has_params: has_field(s, "params"@), kind: MsgKind::Request })
        } else if m is Some {
            Ok(EnvelopeView { method: m, id, has_params: has_field(s, "params"@), kind: MsgKind::Notification })
        } else if id is Some {
            Ok(EnvelopeView { method: m, id, has_params: has_field(s, "params"@), kind: MsgKind::Response })
        } else {
            Err(ClassifyError::MalformedJson)
        }
    }
}

/// Classifies a decoded body without committing to a message schema:
/// extracts `method`, `id` and `params` presence, and names the shape.
pub fn classify(body: &str) -> (r: Result<Envelope, ClassifyError>)
    ensures
        match r {
            Ok(env) => classify_spec(body@) == Ok::<EnvelopeView, ClassifyError>(env@),
            Err(e) => classify_spec(body@) == Err::<EnvelopeView, ClassifyError>(e),
        },
{
    if !json_is_object(body) {
        return Err(ClassifyError::MalformedJson);
    }
    if json_has_field(body, "jsonrpc") {
        match json_str_field(body, "jsonrpc") {
            Some(v) => {
                if !(v == "2.0".to_owned()) {
                    return Err(ClassifyError::UnsupportedVersion);
                }
            },
            None => {
                return Err(ClassifyError::UnsupportedVersion);
            },
        }
    }
    let method = json_str_field(body, "method");
    if json_has_field(body, "method") && method.is_none() {
        return Err(ClassifyError::MalformedJson);
    }
    let id: Option<MessageId> = if json_has_field(body, "id") {
        match json_uint_field(body, "id") {
            Some(n) => Some(MessageId::Num(n)),
            None => match json_str_field(body, "id") {
                Some(t) => Some(MessageId::Text(t)),
                None => Some(MessageId::Other),
            },
        }
    } else {
        None
    };
    let has_params = json_has_field(body, "params");
    if method.is_some() && id.is_some() {
        Ok(Envelope { method, id, has_params, kind: MsgKind::Request })
    } else if method.is_some() {
        Ok(Envelope { method, id, has_params, kind: MsgKind::Notification })
    } else if id.is_some() {
        Ok(Envelope { method, id, has_params, kind: MsgKind::Response })
    } else {
        Err(ClassifyError::MalformedJson)
    }
}

/// Classification is a function of the body text alone: classifying the
/// same body twice yields the same method, id and kind.
pub proof fn lemma_classify_idempotent(
    s: Seq<char>,
    r1: Result<EnvelopeView, ClassifyError>,
    r2: Result<EnvelopeView, ClassifyError>,
)
    requires
        r1 == classify_spec(s),
        r2 == classify_spec(s),
    ensures
        r1 == r2,
{
}

/// Why a buffered message could not be decoded to a routable body.
#[derive(Debug, Clone, Copy, PartialEq, Eq, Structural)]
pub enum DecodeError {
    /// The buffer does not frame a complete body.
    Frame(SplitError),
    /// The body could not be classified.
    Classify(ClassifyError),
    /// The body classified as a response: it names no method to route by.
    MissingMethod,
}

/// How `decode_message` answers, stated over the buffer's UTF-8 bytes:
/// the frame's body is cut out by the declared `Content-Length`, then
/// classified, and the method name is returned with the body text.
pub open spec fn decode_spec(s: Seq<char>) -> Result<(Seq<char>, Seq<char>), DecodeError> {
    let b = bytes_of(s);
    match frame_split(b) {
        Err(e) => Err(DecodeError::Frame(e)),
        Ok((start, len)) => if !is_char_boundary(b, start) || !is_char_boundary(
            b.subrange(start, b.len() as int),
            len,
        ) {
            Err(DecodeError::Frame(SplitError::InvalidContentLength))
        } else {
            let body = decode_utf8(b.subrange(start, start + len));
            match classify_spec(body) {
                Err(e) => Err(DecodeError::Classify(e)),
                Ok(env) => match env.method {
                    Some(m) => Ok((m, body)),
                    None => Err(DecodeError::MissingMethod),
                },
            }
        },
    }
}

/// Round trip through the encoder at the message level: decoding an
/// encoded frame recovers the body unchanged, so the decode answers
/// exactly as the classifier answers on the body that was encoded.
pub proof fn lemma_decode_of_encoded(body: Seq<char>)
    requires
        bytes_of(body).len() <= usize::MAX,
    ensures
        decode_spec(crate::codec::encoded_frame_chars(body)) == match classify_spec(body) {
            Err(e) => Err::<(Seq<char>, Seq<char>), DecodeError>(DecodeError::Classify(e)),
            Ok(env) => match env.method {
                Some(m) => Ok::<(Seq<char>, Seq<char>), DecodeError>((m, body)),
                None => Err::<(Seq<char>, Seq<char>), DecodeError>(DecodeError::MissingMethod),
            },
        },
{
    crate::codec::lemma_encode_decode_round_trip(body);
    crate::codec::lemma_encoded_frame_boundaries(body);
    let s = crate::codec::encoded_frame_chars(body);
    let b = bytes_of(s);
    let start = frame_split(b)->Ok_0.0;
    let len = frame_split(b)->Ok_0.1;
    assert(b.subrange(start, start + len) =~= b.subrange(start, b.len() as int));
}

/// Decodes one buffered message: frames it, classifies the body, and
/// returns the method name with the body text, exactly `Content-Length`
/// bytes long.
pub fn decode_message(msg: String) -> (r: Result<(String, String), DecodeError>)
    ensures
        match r {
            Ok(p) => decode_spec(msg@) == Ok::<(Seq<char>, Seq<char>), DecodeError>((p.0@, p.1@)),
            Err(e) => decode_spec(msg@) == Err::<(Seq<char>, Seq<char>), DecodeError>(e),
        },
{
    broadcast use vstd::utf8::encode_utf8_valid_utf8;
    broadcast use vstd::utf8::encode_utf8_decode_utf8;

    let s = msg.as_str();
    let bytes = s.as_bytes();
    let fb = match locate_frame(bytes) {
        Err(e) => {
            return Err(DecodeError::Frame(e));
        },
        Ok(fb) => fb,
    };
    if !s.is_char_boundary(fb.body_start) {
        return Err(DecodeError::Frame(SplitError::InvalidContentLength));
    }
    let (_head, after) = s.split_at(fb.body_start);
    if !after.is_char_boundary(fb.body_len) {
        return Err(DecodeError::Frame(SplitError::InvalidContentLength));
    }
    let (body, _rest) = after.split_at(fb.body_len);
    proof {
        let b = bytes_of(msg@);
        assert(after.spec_bytes() =~= b.subrange(fb.body_start as int, b.len() as int));
        assert(body.spec_bytes() =~= b.subrange(
            fb.body_start as int,
            fb.body_start + fb.body_len,
        ));
        assert(decode_utf8(encode_utf8(body@)) == body@);
        assert(encode_utf8(body@) == b.subrange(fb.body_start as int, fb.body_start + fb.body_len));
        assert(body@ == decode_utf8(b.subrange(fb.body_start as int, fb.body_start + fb.body_len)));
    }
    let env = match classify(body) {
        Err(e) => {
            return Err(DecodeError::Classify(e));
        },
        Ok(env) => env,
    };
    match env.method {
        Some(m) => Ok((m, body.to_owned())),
        None => Err(DecodeError::MissingMethod),
    }
}

} // verus!
