//! The message relay: the one backend exchange the shell forwards for its
//! UI. The request is a JSON object with the fields `apiKey`, `context`,
//! `message`, `model`; the reply is a JSON object with a `content` string
//! and a `memories` array of strings. This module encodes the request,
//! parses the reply, and turns one HTTP outcome — performed by the caller
//! that owns the network — into the result handed back to the UI.

use vstd::prelude::*;

use crate::json::is_plain_byte;
use crate::json::lemma_parse_escaped;
use crate::json::lemma_parse_rendered_elements;
use crate::json::lemma_spec_escape_plain;
use crate::json::parse_elements;
use crate::json::parse_elements_exec;
use crate::json::parse_string_body;
use crate::json::parse_string_body_exec;
use crate::json::skip_ws;
use crate::json::skip_ws_exec;
use crate::json::spec_escape;
use crate::json::spec_render_elements;
use crate::json::spec_render_string;
use crate::json::spec_render_string_array;
use crate::json::push_escaped;

verus! {

/// The parsed backend reply: the content to show and the ordered memories
/// that came with it.
#[derive(Debug, PartialEq, Eq)]
pub struct MessageResponse {
    pub content: Vec<u8>,
    pub memories: Vec<Vec<u8>>,
}

/// What one HTTP round trip came to, as reported by the caller that
/// performed it: a status line with the raw body, or a transport failure
/// with its description.
pub enum HttpOutcome {
    Response { status: u16, body: Vec<u8> },
    TransportFailure { detail: Vec<u8> },
}

/// A status code the relay accepts as success.
pub open spec fn is_success_status(status: u16) -> bool {
    200 <= status <= 299
}

// --- request encoding ---

/// The bytes `{"apiKey":"`.
pub open spec fn spec_request_open() -> Seq<u8> {
    seq![0x7B, 0x22, 0x61, 0x70, 0x69, 0x4B, 0x65, 0x79, 0x22, 0x3A, 0x22]
}

/// The bytes `","context":"`.
pub open spec fn spec_request_sep_context() -> Seq<u8> {
    seq![0x22, 0x2C, 0x22, 0x63, 0x6F, 0x6E, 0x74, 0x65, 0x78, 0x74, 0x22, 0x3A, 0x22]
}

/// The bytes `","message":"`.
pub open spec fn spec_request_sep_message() -> Seq<u8> {
    seq![0x22, 0x2C, 0x22, 0x6D, 0x65, 0x73, 0x73, 0x61, 0x67, 0x65, 0x22, 0x3A, 0x22]
}

/// The bytes `","model":"`.
pub open spec fn spec_request_sep_model() -> Seq<u8> {
    seq![0x22, 0x2C, 0x22, 0x6D, 0x6F, 0x64, 0x65, 0x6C, 0x22, 0x3A, 0x22]
}

/// The bytes `"}`.
pub open spec fn spec_request_close() -> Seq<u8> {
    seq![0x22, 0x7D]
}

/// The whole relay request: a JSON object with the four fields in the fixed
/// order `apiKey`, `context`, `message`, `model`, every value escaped.
pub open spec fn spec_request_body(
    api_key: Seq<u8>,
    message: Seq<u8>,
    context: Seq<u8>,
    model: Seq<u8>,
) -> Seq<u8> {
    spec_request_open() + spec_escape(api_key) + spec_request_sep_context() + spec_escape(context)
        + spec_request_sep_message() + spec_escape(message) + spec_request_sep_model()
        + spec_escape(model) + spec_request_close()
}

fn push_request_open(out: &mut Vec<u8>)
    ensures
        final(out)@ == old(out)@ + spec_request_open(),
{
    out.push(0x7B);
    out.push(0x22);
    out.push(0x61);
    out.push(0x70);
    out.push(0x69);
    out.push(0x4B);
    out.push(0x65);
    out.push(0x79);
    out.push(0x22);
    out.push(0x3A);
    out.push(0x22);
    proof {
        assert(out@ =~= old(out)@ + spec_request_open());
    }
}

fn push_request_sep_context(out: &mut Vec<u8>)
    ensures
        final(out)@ == old(out)@ + spec_request_sep_context(),
{
    out.push(0x22);
    out.push(0x2C);
    out.push(0x22);
    out.push(0x63);
    out.push(0x6F);
    out.push(0x6E);
    out.push(0x74);
    out.push(0x65);
    out.push(0x78);
    out.push(0x74);
    out.push(0x22);
    out.push(0x3A);
    out.push(0x22);
    proof {
        assert(out@ =~= old(out)@ + spec_request_sep_context());
    }
}

fn push_request_sep_message(out: &mut Vec<u8>)
    ensures
        final(out)@ == old(out)@ + spec_request_sep_message(),
{
    out.push(0x22);
    out.push(0x2C);
    out.push(0x22);
    out.push(0x6D);
    out.push(0x65);
    out.push(0x73);
    out.push(0x73);
    out.push(0x61);
    out.push(0x67);
    out.push(0x65);
    out.push(0x22);
    out.push(0x3A);
    out.push(0x22);
    proof {
        assert(out@ =~= old(out)@ + spec_request_sep_message());
    }
}

fn push_request_sep_model(out: &mut Vec<u8>)
    ensures
        final(out)@ == old(out)@ + spec_request_sep_model(),
{
    out.push(0x22);
    out.push(0x2C);
    out.push(0x22);
    out.push(0x6D);
    out.push(0x6F);
    out.push(0x64);
    out.push(0x65);
    out.push(0x6C);
    out.push(0x22);
    out.push(0x3A);
    out.push(0x22);
    proof {
        assert(out@ =~= old(out)@ + spec_request_sep_model());
    }
}

/// Encodes the relay request for the backend.
pub fn encode_request(api_key: &[u8], message: &[u8], context: &[u8], model: &[u8]) -> (r: Vec<
    u8,
>)
    ensures
        r@ == spec_request_body(api_key@, message@, context@, model@),
{
    let mut out: Vec<u8> = Vec::new();
    push_request_open(&mut out);
    push_escaped(&mut out, api_key);
    push_request_sep_context(&mut out);
    push_escaped(&mut out, context);
    push_request_sep_message(&mut out);
    push_escaped(&mut out, message);
    push_request_sep_model(&mut out);
    push_escaped(&mut out, model);
    out.push(0x22);
    out.push(0x7D);
    proof {
        assert(out@ =~= spec_request_body(api_key@, message@, context@, model@));
    }
    out
}

// --- response parsing ---

/// The key bytes `content`.
pub open spec fn spec_content_key() -> Seq<u8> {
    seq![0x63, 0x6F, 0x6E, 0x74, 0x65, 0x6E, 0x74]
}

/// The key bytes `memories`.
pub open spec fn spec_memories_key() -> Seq<u8> {
    seq![0x6D, 0x65, 0x6D, 0x6F, 0x72, 0x69, 0x65, 0x73]
}

/// One decoded member of the reply object.
pub enum ResponseField {
    Content(Seq<u8>),
    Memories(Seq<Seq<u8>>),
}

/// The remainder of a JSON array of strings, the opening bracket consumed:
/// either the closing bracket at once, or one element and onward.
pub open spec fn spec_parse_array_tail(s: Seq<u8>, i: int) -> Option<(Seq<Seq<u8>>, int)>
    recommends
        0 <= i <= s.len(),
{
    let j: int = skip_ws(s, i);
    if j < s.len() && s[j] == 0x5D {
        Some((Seq::empty(), j + 1))
    } else {
        parse_elements(s, i, Seq::empty())
    }
}

/// One `"key": value` member whose key is one of the two known fields:
/// `content` with a string value, `memories` with an array of strings.
/// Any other key refuses the reply.
pub open spec fn spec_parse_field(s: Seq<u8>, i: int) -> Option<(ResponseField, int)>
    recommends
        0 <= i <= s.len(),
{
    let j: int = skip_ws(s, i);
    if j < s.len() && s[j] == 0x22 {
        match parse_string_body(s, j + 1, Seq::empty()) {
            None => None,
            Some((key, k)) => {
                let m: int = skip_ws(s, k);
                if m < s.len() && s[m] == 0x3A {
                    let v: int = skip_ws(s, m + 1);
                    if key == spec_content_key() {
                        if v < s.len() && s[v] == 0x22 {
                            match parse_string_body(s, v + 1, Seq::empty()) {
                                None => None,
                                Some((c, w)) => Some((ResponseField::Content(c), w)),
                            }
                        } else {
                            None
                        }
                    } else if key == spec_memories_key() {
                        if v < s.len() && s[v] == 0x5B {
                            match spec_parse_array_tail(s, v + 1) {
                                None => None,
                                Some((a, w)) => Some((ResponseField::Memories(a), w)),
                            }
                        } else {
                            None
                        }
                    } else {
                        None
                    }
                } else {
                    None
                }
            },
        }
    } else {
        None
    }
}

/// The whole reply document: a JSON object holding exactly one `content`
/// member (a string) and one `memories` member (an array of strings), in
/// either order, with nothing but whitespace after the closing brace.
pub open spec fn spec_parse_response(s: Seq<u8>) -> Option<(Seq<u8>, Seq<Seq<u8>>)> {
    let i: int = skip_ws(s, 0);
    if i < s.len() && s[i] == 0x7B {
        match spec_parse_field(s, i + 1) {
            None => None,
            Some((f1, j)) => {
                let k: int = skip_ws(s, j);
                if k < s.len() && s[k] == 0x2C {
                    match spec_parse_field(s, k + 1) {
                        None => None,
                        Some((f2, m)) => {
                            let e: int = skip_ws(s, m);
                            if e < s.len() && s[e] == 0x7D && skip_ws(s, e + 1) == s.len() {
                                match (f1, f2) {
                                    (
                                        ResponseField::Content(c),
                                        ResponseField::Memories(a),
                                    ) => Some((c, a)),
                                    (
                                        ResponseField::Memories(a),
                                        ResponseField::Content(c),
                                    ) => Some((c, a)),
                                    _ => None,
                                }
                            } else {
                                None
                            }
                        },
                    }
                } else {
                    None
                }
            },
        }
    } else {
        None
    }
}

/// The canonical rendering of a reply document: no whitespace, `content`
/// first, then `memories`.
pub open spec fn spec_render_response(content: Seq<u8>, memories: Seq<Seq<u8>>) -> Seq<u8> {
    seq![0x7B] + spec_render_string(spec_content_key()) + seq![0x3A] + spec_render_string(
        content,
    ) + seq![0x2C] + spec_render_string(spec_memories_key()) + seq![0x3A]
        + spec_render_string_array(memories) + seq![0x7D]
}

/// Law: a canonically rendered reply document parses back to exactly its
/// content and memories. Together with the string-level law this ties the
/// reply grammar to the documented shape of the backend's answer: the
/// parser accepts every such reply and decodes it unchanged.
#[verifier::rlimit(100)]
pub proof fn lemma_render_response_round_trip(content: Seq<u8>, memories: Seq<Seq<u8>>)
    ensures
        spec_parse_response(spec_render_response(content, memories)) == Some(
            (content, memories),
        ),
{
    let b = spec_render_response(content, memories);
    let k1 = spec_content_key();
    let k2 = spec_memories_key();
    let ec: int = spec_escape(content).len() as int;
    let arr = spec_render_string_array(memories);
    let al: int = arr.len() as int;
    assert(forall|k: int| 0 <= k < k1.len() ==> is_plain_byte(#[trigger] k1[k]));
    assert(forall|k: int| 0 <= k < k2.len() ==> is_plain_byte(#[trigger] k2[k]));
    lemma_spec_escape_plain(k1);
    lemma_spec_escape_plain(k2);
    assert(spec_render_string(k1).len() == 9);
    assert(spec_render_string(k2).len() == 10);
    assert(spec_render_string(content).len() == ec + 2);
    assert(b.len() == 26 + ec + al);
    assert(b[0] == 0x7B);
    assert(b[1] == 0x22);
    assert(b.subrange(2, 10) =~= k1.push(0x22));
    assert(b[10] == 0x3A);
    assert(b[11] == 0x22);
    assert(b.subrange(12, 13 + ec) =~= spec_escape(content).push(0x22));
    assert(b[13 + ec] == 0x2C);
    assert(b[14 + ec] == 0x22);
    assert(b.subrange(15 + ec, 24 + ec) =~= k2.push(0x22));
    assert(b[24 + ec] == 0x3A);
    assert(b[25 + ec] == 0x5B);
    assert(b[25 + ec + al] == 0x7D);
    lemma_parse_escaped(b, 2, 10, k1, Seq::empty());
    lemma_parse_escaped(b, 12, 13 + ec, content, Seq::empty());
    lemma_parse_escaped(b, 15 + ec, 24 + ec, k2, Seq::empty());
    assert(Seq::<u8>::empty() + k1 =~= k1);
    assert(Seq::<u8>::empty() + content =~= content);
    assert(Seq::<u8>::empty() + k2 =~= k2);
    assert(skip_ws(b, 0) == 0);
    assert(skip_ws(b, 1) == 1);
    assert(skip_ws(b, 10) == 10);
    assert(skip_ws(b, 11) == 11);
    assert(skip_ws(b, 13 + ec) == 13 + ec);
    assert(skip_ws(b, 14 + ec) == 14 + ec);
    assert(skip_ws(b, 24 + ec) == 24 + ec);
    assert(skip_ws(b, 25 + ec) == 25 + ec);
    assert(skip_ws(b, 25 + ec + al) == 25 + ec + al);
    assert(skip_ws(b, 26 + ec + al) == 26 + ec + al);
    assert(k2 != k1) by {
        assert(k1.len() == 7);
        assert(k2.len() == 8);
    }
    assert(spec_parse_field(b, 1) == Some((ResponseField::Content(content), 13 + ec)));
    if memories.len() == 0 {
        assert(arr =~= seq![0x5B, 0x5D]);
        assert(b[26 + ec] == 0x5D);
        assert(skip_ws(b, 26 + ec) == 26 + ec);
        assert(memories =~= Seq::<Seq<u8>>::empty());
        assert(spec_parse_array_tail(b, 26 + ec) == Some((memories, 27 + ec)));
    } else {
        let re = spec_render_elements(memories);
        let rl: int = re.len() as int;
        assert(al == rl + 2);
        if memories.len() == 1 {
            assert(re[0] == 0x22);
        } else {
            assert(re[0] == 0x22);
        }
        assert(b.subrange(26 + ec, 27 + ec + rl) =~= re.push(0x5D)) by {
            assert(forall|t: int|
                0 <= t < rl + 1 ==> #[trigger] b.subrange(26 + ec, 27 + ec + rl)[t] == arr[1
                    + t]);
        }
        assert(b[26 + ec] == 0x22) by {
            assert(b.subrange(26 + ec, 27 + ec + rl)[0] == re[0]);
        }
        assert(skip_ws(b, 26 + ec) == 26 + ec);
        lemma_parse_rendered_elements(b, 26 + ec, 27 + ec + rl, memories, Seq::empty());
        assert(Seq::<Seq<u8>>::empty() + memories =~= memories);
        assert(spec_parse_array_tail(b, 26 + ec) == Some((memories, 25 + ec + al)));
    }
    assert(spec_parse_field(b, 14 + ec) == Some(
        (ResponseField::Memories(memories), 25 + ec + al),
    ));
    assert(spec_parse_response(b) == Some((content, memories)));
}

enum FieldValue {
    Content(Vec<u8>),
    Memories(Vec<Vec<u8>>),
}

fn is_content_key(k: &Vec<u8>) -> (r: bool)
    ensures
        r == (k@ == spec_content_key()),
{
    if k.len() != 7 {
        return false;
    }
    let r: bool = k[0] == 0x63 && k[1] == 0x6F && k[2] == 0x6E && k[3] == 0x74 && k[4] == 0x65
        && k[5] == 0x6E && k[6] == 0x74;
    proof {
        if r {
            assert(k@ =~= spec_content_key());
        }
    }
    r
}

fn is_memories_key(k: &Vec<u8>) -> (r: bool)
    ensures
        r == (k@ == spec_memories_key()),
{
    if k.len() != 8 {
        return false;
    }
    let r: bool = k[0] == 0x6D && k[1] == 0x65 && k[2] == 0x6D && k[3] == 0x6F && k[4] == 0x72
        && k[5] == 0x69 && k[6] == 0x65 && k[7] == 0x73;
    proof {
        if r {
            assert(k@ =~= spec_memories_key());
        }
    }
    r
}

fn parse_field_exec(s: &[u8], i: usize) -> (r: Option<(FieldValue, usize)>)
    requires
        i <= s@.len(),
    ensures
        match r {
            Some(p) => i < p.1 <= s@.len() && match p.0 {
                FieldValue::Content(c) => spec_parse_field(s@, i as int) == Some(
                    (ResponseField::Content(c@), p.1 as int),
                ),
                FieldValue::Memories(a) => spec_parse_field(s@, i as int) == Some(
                    (ResponseField::Memories(a.deep_view()), p.1 as int),
                ),
            },
            None => spec_parse_field(s@, i as int) is None,
        },
{
    let j = skip_ws_exec(s, i);
    if j < s.len() && s[j] == 0x22 {
        match parse_string_body_exec(s, j + 1) {
            None => None,
            Some((key, k)) => {
                let m = skip_ws_exec(s, k);
                if m < s.len() && s[m] == 0x3A {
                    let v = skip_ws_exec(s, m + 1);
                    if is_content_key(&key) {
                        if v < s.len() && s[v] == 0x22 {
                            match parse_string_body_exec(s, v + 1) {
                                None => None,
                                Some((c, w)) => Some((FieldValue::Content(c), w)),
                            }
                        } else {
                            None
                        }
                    } else if is_memories_key(&key) {
                        if v < s.len() && s[v] == 0x5B {
                            let t = skip_ws_exec(s, v + 1);
                            if t < s.len() && s[t] == 0x5D {
                                let empty: Vec<Vec<u8>> = Vec::new();
                                proof {
                                    assert(empty.deep_view() =~= Seq::<Seq<u8>>::empty());
                                }
                                Some((FieldValue::Memories(empty), t + 1))
                            } else {
                                match parse_elements_exec(s, v + 1) {
                                    None => None,
                                    Some((a, w)) => Some((FieldValue::Memories(a), w)),
                                }
                            }
                        } else {
                            None
                        }
                    } else {
                        None
                    }
                } else {
                    None
                }
            },
        }
    } else {
        None
    }
}

/// Parses the backend reply document.
pub fn parse_response(s: &[u8]) -> (r: Option<MessageResponse>)
    ensures
        match r {
            Some(m) => spec_parse_response(s@) == Some((m.content@, m.memories.deep_view())),
            None => spec_parse_response(s@) is None,
        },
{
    let i = skip_ws_exec(s, 0);
    if i < s.len() && s[i] == 0x7B {
        match parse_field_exec(s, i + 1) {
            None => None,
            Some((f1, j)) => {
                let k = skip_ws_exec(s, j);
                if k < s.len() && s[k] == 0x2C {
                    match parse_field_exec(s, k + 1) {
                        None => None,
                        Some((f2, m)) => {
                            let e = skip_ws_exec(s, m);
                            if e < s.len() && s[e] == 0x7D {
                                let tail = skip_ws_exec(s, e + 1);
                                if tail == s.len() {
                                    match (f1, f2) {
                                        (
                                            FieldValue::Content(c),
                                            FieldValue::Memories(a),
                                        ) => Some(MessageResponse { content: c, memories: a }),
                                        (
                                            FieldValue::Memories(a),
                                            FieldValue::Content(c),
                                        ) => Some(MessageResponse { content: c, memories: a }),
                                        _ => None,
                                    }
                                } else {
                                    None
                                }
                            } else {
                                None
                            }
                        },
                    }
                } else {
                    None
                }
            },
        }
    } else {
        None
    }
}

// --- the relay decision ---

/// The bytes `API Error: `.
pub open spec fn spec_api_error_prefix() -> Seq<u8> {
    seq![0x41, 0x50, 0x49, 0x20, 0x45, 0x72, 0x72, 0x6F, 0x72, 0x3A, 0x20]
}

/// The bytes `invalid response body`, the relay's wording for a success
/// reply it cannot decode.
pub open spec fn spec_decode_error_message() -> Seq<u8> {
    seq![
        0x69, 0x6E, 0x76, 0x61, 0x6C, 0x69, 0x64, 0x20, 0x72, 0x65, 0x73, 0x70, 0x6F, 0x6E,
        0x73, 0x65, 0x20, 0x62, 0x6F, 0x64, 0x79,
    ]
}

fn push_api_error_prefix(out: &mut Vec<u8>)
    ensures
        final(out)@ == old(out)@ + spec_api_error_prefix(),
{
    out.push(0x41);
    out.push(0x50);
    out.push(0x49);
    out.push(0x20);
    out.push(0x45);
    out.push(0x72);
    out.push(0x72);
    out.push(0x6F);
    out.push(0x72);
    out.push(0x3A);
    out.push(0x20);
    proof {
        assert(out@ =~= old(out)@ + spec_api_error_prefix());
    }
}

fn decode_error_message() -> (r: Vec<u8>)
    ensures
        r@ == spec_decode_error_message(),
{
    let mut out: Vec<u8> = Vec::new();
    out.push(0x69);
    out.push(0x6E);
    out.push(0x76);
    out.push(0x61);
    out.push(0x6C);
    out.push(0x69);
    out.push(0x64);
    out.push(0x20);
    out.push(0x72);
    out.push(0x65);
    out.push(0x73);
    out.push(0x70);
    out.push(0x6F);
    out.push(0x6E);
    out.push(0x73);
    out.push(0x65);
    out.push(0x20);
    out.push(0x62);
    out.push(0x6F);
    out.push(0x64);
    out.push(0x79);
    proof {
        assert(out@ =~= spec_decode_error_message());
    }
    out
}

/// Decides what the UI gets from one HTTP round trip: the parsed reply on a
/// success status with a well-formed body; on a non-success status an error
/// carrying the raw body after `API Error: `; on a transport failure an
/// error carrying the failure's description; on a success status with a
/// body the relay cannot decode, an error saying so.
pub fn process_message(outcome: HttpOutcome) -> (r: Result<MessageResponse, Vec<u8>>)
    ensures
        match outcome {
            HttpOutcome::TransportFailure { detail } => r matches Err(e) && e@ == detail@,
            HttpOutcome::Response { status, body } => {
                if !is_success_status(status) {
                    r matches Err(e) && e@ == spec_api_error_prefix() + body@
                } else {
                    match spec_parse_response(body@) {
                        Some(p) => r matches Ok(m) && m.content@ == p.0
                            && m.memories.deep_view() == p.1,
                        None => r matches Err(e) && e@ == spec_decode_error_message(),
                    }
                }
            },
        },
{
    match outcome {
        HttpOutcome::TransportFailure { detail } => Err(detail),
        HttpOutcome::Response { status, body } => {
            if !(200 <= status && status <= 299) {
                let mut msg: Vec<u8> = Vec::new();
                push_api_error_prefix(&mut msg);
                let mut raw = body;
                msg.append(&mut raw);
                Err(msg)
            } else {
                match parse_response(body.as_slice()) {
                    Some(m) => Ok(m),
                    None => Err(decode_error_message()),
                }
            }
        },
    }
}

} // verus!
