//! Dispatch: choosing what to do with a classified message — invoke a
//! registered handler, ignore an unknown notification, answer an unknown
//! request with a `MethodNotFound` error response, or correlate a
//! response with a pending outgoing request id.

use vstd::prelude::*;
use vstd::string::StringExecFns;
use vstd::string::StringSliceAdditionalSpecFns;

use crate::codec::append_decimal;
use crate::codec::ascii_chars_of;
use crate::codec::dec_digits;
use crate::envelope::Envelope;
use crate::envelope::EnvelopeView;
use crate::envelope::IdView;
use crate::envelope::MessageId;
use crate::envelope::MsgKind;

verus! {

/// What the dispatcher decides for one classified message.
#[derive(Debug, Clone, Copy, PartialEq, Eq, Structural)]
pub enum DispatchAction {
    /// A request or notification whose method has a registered handler.
    Invoke,
    /// A notification naming no registered method: silently dropped, as
    /// notifications never receive an error response.
    Ignore,
    /// A request naming no registered method: answer with a
    /// `MethodNotFound` error response echoing the request's id.
    RespondMethodNotFound,
    /// A response whose id matches a pending outgoing request: complete
    /// that request.
    CompletePending,
    /// A response matching no pending id: a non-fatal protocol error,
    /// dropped.
    DropResponse,
}

/// Routes by exact match on the method name; responses are correlated by
/// id against the pending outgoing requests.
pub open spec fn dispatch_decision(
    env: EnvelopeView,
    methods: Seq<Seq<char>>,
    pending: Seq<IdView>,
) -> DispatchAction {
    match env.kind {
        MsgKind::Request => if env.method is Some && methods.contains(env.method->Some_0) {
            DispatchAction::Invoke
        } else {
            DispatchAction::RespondMethodNotFound
        },
        MsgKind::Notification => if env.method is Some && methods.contains(env.method->Some_0) {
            DispatchAction::Invoke
        } else {
            DispatchAction::Ignore
        },
        MsgKind::Response => if env.id is Some && pending.contains(env.id->Some_0) {
            DispatchAction::CompletePending
        } else {
            DispatchAction::DropResponse
        },
    }
}

/// Per-connection dispatch state: the handler-backed method names, and
/// the ids of server-initiated requests still awaiting a response.
pub struct Dispatcher {
    registered: Vec<String>,
    pending: Vec<MessageId>,
}

impl Dispatcher {
    /// The registered method names.
    pub closed spec fn methods(&self) -> Seq<Seq<char>> {
        self.registered@.map_values(|m: String| m@)
    }

    /// The ids of requests this endpoint sent and has not yet seen
    /// answered.
    pub closed spec fn pending_ids(&self) -> Seq<IdView> {
        self.pending@.map_values(|i: MessageId| i@)
    }

    /// A dispatcher with no handlers and nothing pending.
    pub fn new() -> (r: Dispatcher)
        ensures
            r.methods() == Seq::<Seq<char>>::empty(),
            r.pending_ids() == Seq::<IdView>::empty(),
    {
        let r = Dispatcher { registered: Vec::new(), pending: Vec::new() };
        proof {
            assert(r.methods() =~= Seq::<Seq<char>>::empty());
            assert(r.pending_ids() =~= Seq::<IdView>::empty());
        }
        r
    }

    /// Registers a handler-backed method name.
    pub fn register(&mut self, method: String)
        ensures
            final(self).methods() == old(self).methods().push(method@),
            final(self).pending_ids() == old(self).pending_ids(),
    {
        self.registered.push(method);
        proof {
            assert(final(self).methods() =~= old(self).methods().push(method@));
        }
    }

    /// Records the id of a server-initiated request awaiting a response.
    pub fn add_pending(&mut self, id: MessageId)
        ensures
            final(self).pending_ids() == old(self).pending_ids().push(id@),
            final(self).methods() == old(self).methods(),
    {
        self.pending.push(id);
        proof {
            assert(final(self).pending_ids() =~= old(self).pending_ids().push(id@));
        }
    }

    /// Whether a handler is registered for the method.
    pub fn is_registered(&self, method: &String) -> (r: bool)
        ensures
            r == self.methods().contains(method@),
    {
        let n = self.registered.len();
        let mut i: usize = 0;
        while i < n
            invariant
                n == self.registered@.len(),
                i <= n,
                forall|j: int| 0 <= j < i ==> self.methods()[j] != method@,
            decreases n - i,
        {
            if self.registered[i].eq(method) {
                assert(self.methods()[i as int] == method@);
                return true;
            }
            assert(self.methods()[i as int] != method@);
            i = i + 1;
        }
        assert(forall|j: int| 0 <= j < self.methods().len() ==> self.methods()[j] != method@);
        false
    }

    /// The position of the first pending id equal to `id`, if any.
    fn find_pending(&self, id: &MessageId) -> (r: Option<usize>)
        ensures
            match r {
                Some(i) => i < self.pending_ids().len() && self.pending_ids()[i as int] == id@
                    && forall|j: int| 0 <= j < i ==> self.pending_ids()[j] != id@,
                None => !self.pending_ids().contains(id@),
            },
    {
        let n = self.pending.len();
        let mut i: usize = 0;
        while i < n
            invariant
                n == self.pending@.len(),
                i <= n,
                forall|j: int| 0 <= j < i ==> self.pending_ids()[j] != id@,
            decreases n - i,
        {
            if self.pending[i].matches(id) {
                assert(self.pending_ids()[i as int] == id@);
                return Some(i);
            }
            assert(self.pending_ids()[i as int] != id@);
            i = i + 1;
        }
        assert(forall|j: int| 0 <= j < self.pending_ids().len() ==> self.pending_ids()[j] != id@);
        None
    }

    /// Decides how one classified message is routed. A completed
    /// response retires the first matching pending id; nothing else
    /// changes the dispatcher's state.
    pub fn dispatch(&mut self, env: &Envelope) -> (r: DispatchAction)
        ensures
            r == dispatch_decision(env@, old(self).methods(), old(self).pending_ids()),
            final(self).methods() == old(self).methods(),
            r != DispatchAction::CompletePending ==> final(self).pending_ids() == old(
                self,
            ).pending_ids(),
            r == DispatchAction::CompletePending ==> exists|i: int|
                {
                    &&& 0 <= i < old(self).pending_ids().len()
                    &&& old(self).pending_ids()[i] == env@.id->Some_0
                    &&& (forall|j: int| 0 <= j < i ==> old(self).pending_ids()[j] != env@.id->Some_0)
                    &&& final(self).pending_ids() == old(self).pending_ids().remove(i)
                },
    {
        match env.kind {
            MsgKind::Request => match &env.method {
                Some(m) => if self.is_registered(m) {
                    DispatchAction::Invoke
                } else {
                    DispatchAction::RespondMethodNotFound
                },
                None => DispatchAction::RespondMethodNotFound,
            },
            MsgKind::Notification => match &env.method {
                Some(m) => if self.is_registered(m) {
                    DispatchAction::Invoke
                } else {
                    DispatchAction::Ignore
                },
                None => DispatchAction::Ignore,
            },
            MsgKind::Response => match &env.id {
                Some(id) => match self.find_pending(id) {
                    Some(i) => {
                        self.pending.remove(i);
                        proof {
                            assert(final(self).pending_ids() =~= old(self).pending_ids().remove(
                                i as int,
                            ));
                        }
                        DispatchAction::CompletePending
                    },
                    None => DispatchAction::DropResponse,
                },
                None => DispatchAction::DropResponse,
            },
        }
    }
}

/// The hexadecimal digit character for `d`.
pub open spec fn hex_char(d: u8) -> char
    recommends
        d < 16,
{
    if d < 10 {
        ((48 + d) as u8) as char
    } else {
        ((87 + d) as u8) as char
    }
}

/// How one character appears inside a JSON string literal: quote and
/// backslash are escaped, control characters become `\u00XX`, everything
/// else stands for itself.
pub open spec fn escape_char(c: char) -> Seq<char> {
    if c == '"' {
        seq!['\\', '"']
    } else if c == '\\' {
        seq!['\\', '\\']
    } else if (c as u32) < 32 {
        seq!['\\', 'u', '0', '0', hex_char((c as u32 / 16) as u8), hex_char((c as u32 % 16) as u8)]
    } else {
        seq![c]
    }
}

/// The body of a JSON string literal holding `s`.
pub open spec fn json_escaped(s: Seq<char>) -> Seq<char>
    decreases s.len(),
{
    if s.len() == 0 {
        Seq::empty()
    } else {
        escape_char(s[0]) + json_escaped(s.drop_first())
    }
}

proof fn lemma_json_escaped_snoc(t: Seq<char>, c: char)
    ensures
        json_escaped(t.push(c)) == json_escaped(t) + escape_char(c),
    decreases t.len(),
{
    assert(t.push(c).len() == t.len() + 1);
    if t.len() == 0 {
        assert(t.push(c).drop_first() =~= Seq::<char>::empty());
        assert(t.push(c)[0] == c);
        assert(json_escaped(t.push(c)) == escape_char(c) + json_escaped(t.push(c).drop_first()));
        assert(json_escaped(Seq::<char>::empty()) == Seq::<char>::empty());
        assert(json_escaped(t.push(c)) =~= json_escaped(t) + escape_char(c));
    } else {
        lemma_json_escaped_snoc(t.drop_first(), c);
        assert(t.push(c).drop_first() =~= t.drop_first().push(c));
        assert(t.push(c)[0] == t[0]);
        assert(json_escaped(t.push(c)) == escape_char(t[0]) + json_escaped(t.drop_first().push(c)));
        assert(json_escaped(t) == escape_char(t[0]) + json_escaped(t.drop_first()));
        assert(json_escaped(t.push(c)) =~= json_escaped(t) + escape_char(c));
    }
}

/// A one-character string for each hexadecimal digit.
fn hex_str(d: u8) -> (r: &'static str)
    requires
        d < 16,
    ensures
        r@ =~= seq![hex_char(d)],
{
    match d {
        0 => {
            proof {
                reveal_strlit("0");
            }
            "0"
        },
        1 => {
            proof {
                reveal_strlit("1");
            }
            "1"
        },
        2 => {
            proof {
                reveal_strlit("2");
            }
            "2"
        },
        3 => {
            proof {
                reveal_strlit("3");
            }
            "3"
        },
        4 => {
            proof {
                reveal_strlit("4");
            }
            "4"
        },
        5 => {
            proof {
                reveal_strlit("5");
            }
            "5"
        },
        6 => {
            proof {
                reveal_strlit("6");
            }
            "6"
        },
        7 => {
            proof {
                reveal_strlit("7");
            }
            "7"
        },
        8 => {
            proof {
                reveal_strlit("8");
            }
            "8"
        },
        9 => {
            proof {
                reveal_strlit("9");
            }
            "9"
        },
        10 => {
            proof {
                reveal_strlit("a");
            }
            "a"
        },
        11 => {
            proof {
                reveal_strlit("b");
            }
            "b"
        },
        12 => {
            proof {
                reveal_strlit("c");
            }
            "c"
        },
        13 => {
            proof {
                reveal_strlit("d");
            }
            "d"
        },
        14 => {
            proof {
                reveal_strlit("e");
            }
            "e"
        },
        _ => {
            proof {
                reveal_strlit("f");
            }
            "f"
        },
    }
}

/// Escapes `s` for inclusion in a JSON string literal.
pub fn escape_json(s: &str) -> (r: String)
    ensures
        r@ == json_escaped(s@),
{
    let n = s.unicode_len();
    let mut out = String::new();
    let mut i: usize = 0;
    while i < n
        invariant
            n == s@.len(),
            i <= n,
            out@ == json_escaped(s@.subrange(0, i as int)),
        decreases n - i,
    {
        let c = s.get_char(i);
        if c == '"' {
            out.append("\\\"");
            proof {
                reveal_strlit("\\\"");
                assert("\\\""@ =~= escape_char(c));
            }
        } else if c == '\\' {
            out.append("\\\\");
            proof {
                reveal_strlit("\\\\");
                assert("\\\\"@ =~= escape_char(c));
            }
        } else if (c as u32) < 32 {
            let v = (c as u32) as u8;
            out.append("\\u00");
            out.append(hex_str(v / 16));
            out.append(hex_str(v % 16));
            proof {
                reveal_strlit("\\u00");
                assert("\\u00"@ + seq![hex_char((v / 16) as u8)] + seq![hex_char((v % 16) as u8)]
                    =~= escape_char(c));
            }
        } else {
            out.append(s.substring_char(i, i + 1));
            proof {
                assert(s@.subrange(i as int, i as int + 1) =~= seq![s@[i as int]]);
                assert(seq![s@[i as int]] =~= escape_char(c));
            }
        }
        proof {
            lemma_json_escaped_snoc(s@.subrange(0, i as int), c);
            assert(s@.subrange(0, i as int + 1) =~= s@.subrange(0, i as int).push(c));
            assert(out@ =~= json_escaped(s@.subrange(0, i as int + 1)));
        }
        i = i + 1;
    }
    assert(s@.subrange(0, n as int) =~= s@);
    out
}

/// The id as it appears in a response body: an integer in decimal, a
/// string quoted and escaped, `null` where the id was missing or of a
/// shape this layer does not echo.
pub open spec fn id_json_chars(id: Option<IdView>) -> Seq<char> {
    match id {
        Some(IdView::Num(n)) => ascii_chars_of(dec_digits(n as int)),
        Some(IdView::Text(t)) => seq!['"'] + json_escaped(t) + seq!['"'],
        Some(IdView::Other) => "null"@,
        None => "null"@,
    }
}

/// The exact body of the error response sent for a request whose method
/// has no handler: JSON-RPC error code -32601, echoing the request's id.
pub open spec fn method_not_found_chars(id: Option<IdView>) -> Seq<char> {
    "{\"jsonrpc\":\"2.0\",\"id\":"@ + id_json_chars(id)
        + ",\"error\":{\"code\":-32601,\"message\":\"Method not found\"}}"@
}

/// Builds the `MethodNotFound` error response body for a request that
/// carried `id`.
pub fn method_not_found_body(id: &Option<MessageId>) -> (r: String)
    ensures
        r@ == method_not_found_chars(match *id {
            Some(ref i) => Some(i@),
            None => None,
        }),
{
    let mut out = "{\"jsonrpc\":\"2.0\",\"id\":".to_owned();
    match id {
        Some(MessageId::Num(n)) => {
            append_decimal(*n, &mut out);
        },
        Some(MessageId::Text(t)) => {
            out.append("\"");
            let esc = escape_json(t.as_str());
            out.append(esc.as_str());
            out.append("\"");
            proof {
                reveal_strlit("\"");
                assert("\""@ =~= seq!['"']);
            }
        },
        Some(MessageId::Other) => {
            out.append("null");
        },
        None => {
            out.append("null");
        },
    }
    out.append(",\"error\":{\"code\":-32601,\"message\":\"Method not found\"}}");
    proof {
        assert(out@ =~= method_not_found_chars(match *id {
            Some(ref i) => Some(i@),
            None => None,
        }));
    }
    out
}

} // verus!
