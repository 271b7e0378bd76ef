//! The envelope message: the tagged union carried by every frame, its exact
//! JSON wire form, and the proof that decoding inverts encoding.
//!
//! The wire contract is the canonical serialization produced by
//! [`encode_envelope`]: fixed key order, no inter-token whitespace,
//! optional members omitted when absent, strings escaped as in
//! [`crate::jsontext::esc`].  Both sides of a connection speak exactly this
//! form — a plugin implementation in any language must emit it — and
//! [`decode_envelope`] accepts exactly this form, so that what a frame
//! means never depends on an unverified parser.

use vstd::prelude::*;
use vstd::utf8::{encode_utf8, valid_utf8, decode_utf8};
use vstd::utf8::{encode_utf8_valid_utf8, encode_utf8_decode_utf8};

use crate::jsontext::{QUOTE, esc, unesc, dec_digits, parse_dec};
use crate::jsontext::{escape_into, unescape_from, push_dec, parse_dec_from};
use crate::jsontext::{lemma_unesc_esc, lemma_parse_dec_digits};
use crate::errors::ProtocolError;

verus! {

/// Byte value of `{`.
pub const LBRACE: u8 = 123;

/// Byte value of `}`.
pub const RBRACE: u8 = 125;

/// Byte value of `:`.
pub const COLON: u8 = 58;

/// Byte value of `,`.
pub const COMMA: u8 = 44;

/// Data carried by a lifecycle `init` message.
#[derive(Debug, Clone)]
pub struct InitPayload {
    pub instance_id: String,
    pub plugin_socket: String,
    pub log_path: String,
}

/// Specification-level value of an [`InitPayload`].
pub struct InitPayloadV {
    pub instance_id: Seq<char>,
    pub plugin_socket: Seq<char>,
    pub log_path: Seq<char>,
}

impl View for InitPayload {
    type V = InitPayloadV;

    open spec fn view(&self) -> InitPayloadV {
        InitPayloadV {
            instance_id: self.instance_id@,
            plugin_socket: self.plugin_socket@,
            log_path: self.log_path@,
        }
    }
}

/// Action of a lifecycle message.
#[derive(Debug, Clone, Copy, PartialEq, Eq, Structural)]
pub enum LifecycleAction {
    Init,
    Shutdown,
}

/// Operation of a key/value request.
#[derive(Debug, Clone, Copy, PartialEq, Eq, Structural)]
pub enum KvAction {
    Get,
    Put,
    Delete,
}

/// One framed message.  `request_id` correlates `http` and `kv` requests
/// with their responses; lifecycle messages carry none.
#[derive(Debug, Clone)]
pub enum Envelope {
    Lifecycle { action: LifecycleAction, payload: Option<InitPayload> },
    HttpRequest {
        request_id: String,
        method: String,
        path: String,
        headers: Vec<(String, String)>,
        body: Option<String>,
    },
    HttpResponse {
        request_id: String,
        status: u16,
        headers: Vec<(String, String)>,
        body: Option<String>,
    },
    KvRequest { request_id: String, op: KvAction, key: String, value: Option<String> },
    KvResponse { request_id: String, value: Option<String> },
}

/// Specification-level value of an [`Envelope`].
pub enum EnvelopeV {
    Lifecycle { action: LifecycleAction, payload: Option<InitPayloadV> },
    HttpRequest {
        request_id: Seq<char>,
        method: Seq<char>,
        path: Seq<char>,
        headers: Seq<(Seq<char>, Seq<char>)>,
        body: Option<Seq<char>>,
    },
    HttpResponse {
        request_id: Seq<char>,
        status: u16,
        headers: Seq<(Seq<char>, Seq<char>)>,
        body: Option<Seq<char>>,
    },
    KvRequest { request_id: Seq<char>, op: KvAction, key: Seq<char>, value: Option<Seq<char>> },
    KvResponse { request_id: Seq<char>, value: Option<Seq<char>> },
}

/// Specification-level view of a header list.
pub open spec fn headers_view(hs: Seq<(String, String)>) -> Seq<(Seq<char>, Seq<char>)> {
    hs.map_values(|p: (String, String)| (p.0@, p.1@))
}

/// Specification-level view of an optional string.
pub open spec fn opt_view(o: Option<String>) -> Option<Seq<char>> {
    match o {
        None => None,
        Some(s) => Some(s@),
    }
}

impl View for Envelope {
    type V = EnvelopeV;

    open spec fn view(&self) -> EnvelopeV {
        match self {
            Envelope::Lifecycle { action, payload } => EnvelopeV::Lifecycle {
                action: *action,
                payload: match payload {
                    None => None,
                    Some(p) => Some(p@),
                },
            },
            Envelope::HttpRequest { request_id, method, path, headers, body } =>
                EnvelopeV::HttpRequest {
                request_id: request_id@,
                method: method@,
                path: path@,
                headers: headers_view(headers@),
                body: opt_view(*body),
            },
            Envelope::HttpResponse { request_id, status, headers, body } =>
                EnvelopeV::HttpResponse {
                request_id: request_id@,
                status: *status,
                headers: headers_view(headers@),
                body: opt_view(*body),
            },
            Envelope::KvRequest { request_id, op, key, value } => EnvelopeV::KvRequest {
                request_id: request_id@,
                op: *op,
                key: key@,
                value: opt_view(*value),
            },
            Envelope::KvResponse { request_id, value } => EnvelopeV::KvResponse {
                request_id: request_id@,
                value: opt_view(*value),
            },
        }
    }
}

/// Wire name of a lifecycle action.
pub open spec fn lifecycle_action_name(a: LifecycleAction) -> Seq<char> {
    match a {
        LifecycleAction::Init => "init"@,
        LifecycleAction::Shutdown => "shutdown"@,
    }
}

/// Wire name of a key/value operation.
pub open spec fn kv_action_name(a: KvAction) -> Seq<char> {
    match a {
        KvAction::Get => "get"@,
        KvAction::Put => "set"@,
        KvAction::Delete => "delete"@,
    }
}

/// JSON string form of `x`: quote, escaped UTF-8 bytes, quote.
pub open spec fn jstr(x: Seq<char>) -> Seq<u8> {
    seq![QUOTE] + esc(encode_utf8(x)) + seq![QUOTE]
}

/// JSON object member: key string, colon, encoded value.
pub open spec fn jfield(k: Seq<char>, v: Seq<u8>) -> Seq<u8> {
    jstr(k) + seq![COLON] + v
}

/// One header pair on the wire.
pub open spec fn hpair(p: (Seq<char>, Seq<char>)) -> Seq<u8> {
    jstr(p.0) + seq![COLON] + jstr(p.1)
}

/// Comma-separated header pairs.
pub open spec fn spec_headers(hs: Seq<(Seq<char>, Seq<char>)>) -> Seq<u8>
    decreases hs.len(),
{
    if hs.len() == 0 {
        Seq::empty()
    } else if hs.len() == 1 {
        hpair(hs[0])
    } else {
        hpair(hs[0]) + seq![COMMA] + spec_headers(hs.drop_first())
    }
}

/// The headers object on the wire.
pub open spec fn spec_headers_obj(hs: Seq<(Seq<char>, Seq<char>)>) -> Seq<u8> {
    seq![LBRACE] + spec_headers(hs) + seq![RBRACE]
}

/// The optional trailing `body` member of an `http` payload.
pub open spec fn spec_body_suffix(b: Option<Seq<char>>) -> Seq<u8> {
    match b {
        None => Seq::empty(),
        Some(x) => seq![COMMA] + jfield("body"@, jstr(x)),
    }
}

/// The optional trailing `value` member of a `kv` request payload.
pub open spec fn spec_value_suffix(v: Option<Seq<char>>) -> Seq<u8> {
    match v {
        None => Seq::empty(),
        Some(x) => seq![COMMA] + jfield("value"@, jstr(x)),
    }
}

/// The optional nested payload of a lifecycle message.
pub open spec fn spec_init_suffix(p: Option<InitPayloadV>) -> Seq<u8> {
    match p {
        None => Seq::empty(),
        Some(ip) => seq![COMMA] + jfield(
            "payload"@,
            seq![LBRACE] + jfield("instance_id"@, jstr(ip.instance_id)) + seq![COMMA] + jfield(
                "plugin_socket"@,
                jstr(ip.plugin_socket),
            ) + seq![COMMA] + jfield("log_path"@, jstr(ip.log_path)) + seq![RBRACE],
        ),
    }
}

/// Canonical wire form of an envelope.
pub open spec fn spec_encode(e: EnvelopeV) -> Seq<u8> {
    match e {
        EnvelopeV::Lifecycle { action, payload } => seq![LBRACE] + jfield(
            "message_type"@,
            jstr("lifecycle"@),
        ) + seq![COMMA] + jfield(
            "payload"@,
            seq![LBRACE] + jfield("action"@, jstr(lifecycle_action_name(action)))
                + spec_init_suffix(payload) + seq![RBRACE],
        ) + seq![RBRACE],
        EnvelopeV::HttpRequest { request_id, method, path, headers, body } => seq![LBRACE]
            + jfield("message_type"@, jstr("http"@)) + seq![COMMA] + jfield(
            "request_id"@,
            jstr(request_id),
        ) + seq![COMMA] + jfield(
            "payload"@,
            seq![LBRACE] + jfield("method"@, jstr(method)) + seq![COMMA] + jfield(
                "path"@,
                jstr(path),
            ) + seq![COMMA] + jfield("headers"@, spec_headers_obj(headers)) + spec_body_suffix(
                body,
            ) + seq![RBRACE],
        ) + seq![RBRACE],
        EnvelopeV::HttpResponse { request_id, status, headers, body } => seq![LBRACE] + jfield(
            "message_type"@,
            jstr("http"@),
        ) + seq![COMMA] + jfield("request_id"@, jstr(request_id)) + seq![COMMA] + jfield(
            "payload"@,
            seq![LBRACE] + jfield("status"@, dec_digits(status as nat)) + seq![COMMA] + jfield(
                "headers"@,
                spec_headers_obj(headers),
            ) + spec_body_suffix(body) + seq![RBRACE],
        ) + seq![RBRACE],
        EnvelopeV::KvRequest { request_id, op, key, value } => seq![LBRACE] + jfield(
            "message_type"@,
            jstr("kv"@),
        ) + seq![COMMA] + jfield("request_id"@, jstr(request_id)) + seq![COMMA] + jfield(
            "payload"@,
            seq![LBRACE] + jfield("op"@, jstr(kv_action_name(op))) + seq![COMMA] + jfield(
                "key"@,
                jstr(key),
            ) + spec_value_suffix(value) + seq![RBRACE],
        ) + seq![RBRACE],
        EnvelopeV::KvResponse { request_id, value } => seq![LBRACE] + jfield(
            "message_type"@,
            jstr("kv"@),
        ) + seq![COMMA] + jfield("request_id"@, jstr(request_id)) + seq![COMMA] + jfield(
            "payload"@,
            seq![LBRACE] + (match value {
                None => Seq::<u8>::empty(),
                Some(x) => jfield("value"@, jstr(x)),
            }) + seq![RBRACE],
        ) + seq![RBRACE],
    }
}

fn push_byte(out: &mut Vec<u8>, b: u8)
    ensures
        final(out)@ == old(out)@ + seq![b],
{
    out.push(b);
    proof {
        assert(old(out)@.push(b) =~= old(out)@ + seq![b]);
    }
}

fn push_jstr(out: &mut Vec<u8>, s: &str)
    ensures
        final(out)@ == old(out)@ + jstr(s@),
{
    push_byte(out, QUOTE);
    escape_into(out, s.as_bytes());
    push_byte(out, QUOTE);
    proof {
        assert(old(out)@ + seq![QUOTE] + esc(encode_utf8(s@)) + seq![QUOTE] =~= old(out)@ + jstr(
            s@,
        ));
    }
}

fn push_key(out: &mut Vec<u8>, k: &str)
    ensures
        final(out)@ == old(out)@ + jstr(k@) + seq![COLON],
{
    push_jstr(out, k);
    push_byte(out, COLON);
}

fn push_str_field(out: &mut Vec<u8>, k: &str, v: &str)
    ensures
        final(out)@ == old(out)@ + jfield(k@, jstr(v@)),
{
    push_key(out, k);
    push_jstr(out, v);
    proof {
        assert(old(out)@ + jstr(k@) + seq![COLON] + jstr(v@) =~= old(out)@ + jfield(
            k@,
            jstr(v@),
        ));
    }
}

proof fn lemma_spec_headers_snoc(hs: Seq<(Seq<char>, Seq<char>)>, p: (Seq<char>, Seq<char>))
    ensures
        spec_headers(hs.push(p)) == if hs.len() == 0 {
            hpair(p)
        } else {
            spec_headers(hs) + seq![COMMA] + hpair(p)
        },
    decreases hs.len(),
{
    if hs.len() == 0 {
        assert(hs.push(p) =~= seq![p]);
        assert(spec_headers(seq![p]) == hpair(p));
    } else if hs.len() == 1 {
        assert(hs.push(p).drop_first() =~= seq![p]);
        assert(hs.push(p)[0] == hs[0]);
        assert(spec_headers(seq![p]) == hpair(p));
    } else {
        assert(hs.push(p).drop_first() =~= hs.drop_first().push(p));
        assert(hs.push(p)[0] == hs[0]);
        lemma_spec_headers_snoc(hs.drop_first(), p);
        assert(spec_headers(hs.push(p)) =~= spec_headers(hs) + seq![COMMA] + hpair(p));
    }
}

fn push_headers_obj(out: &mut Vec<u8>, hs: &Vec<(String, String)>)
    ensures
        final(out)@ == old(out)@ + spec_headers_obj(headers_view(hs@)),
{
    let ghost orig = old(out)@;
    push_byte(out, LBRACE);
    let ghost hv = headers_view(hs@);
    proof {
        assert(headers_view(hs@.take(0)) =~= hv.take(0));
        assert(hv.take(0) =~= Seq::<(Seq<char>, Seq<char>)>::empty());
        assert(out@ =~= orig + seq![LBRACE] + spec_headers(hv.take(0)));
    }
    let mut i: usize = 0;
    while i < hs.len()
        invariant
            i <= hs@.len(),
            hv == headers_view(hs@),
            out@ == orig + seq![LBRACE] + spec_headers(hv.take(i as int)),
        decreases hs@.len() - i,
    {
        if i > 0 {
            push_byte(out, COMMA);
        }
        let ghost before = out@;
        push_jstr(out, hs[i].0.as_str());
        push_byte(out, COLON);
        push_jstr(out, hs[i].1.as_str());
        proof {
            let p = hv[i as int];
            assert(p == (hs@[i as int].0@, hs@[i as int].1@));
            assert(out@ =~= before + hpair(p));
            assert(hv.take(i + 1) =~= hv.take(i as int).push(p));
            lemma_spec_headers_snoc(hv.take(i as int), p);
            if i == 0 {
                assert(out@ =~= orig + seq![LBRACE] + spec_headers(hv.take(i + 1)));
            } else {
                assert(out@ =~= orig + seq![LBRACE] + spec_headers(hv.take(i + 1)));
            }
        }
        i = i + 1;
    }
    push_byte(out, RBRACE);
    proof {
        assert(hv.take(hs@.len() as int) =~= hv);
        assert(out@ =~= orig + spec_headers_obj(hv));
    }
}

#[verifier::rlimit(60)]
fn enc_lifecycle(action: &LifecycleAction, payload: &Option<InitPayload>) -> (out: Vec<u8>)
    ensures
        out@ == spec_encode(
            EnvelopeV::Lifecycle {
                action: *action,
                payload: match payload {
                    None => None,
                    Some(p) => Some(p@),
                },
            },
        ),
{
    let mut out: Vec<u8> = Vec::new();
    push_byte(&mut out, LBRACE);
    let name = match action {
        LifecycleAction::Init => "init",
        LifecycleAction::Shutdown => "shutdown",
    };
    push_str_field(&mut out, "message_type", "lifecycle");
    push_byte(&mut out, COMMA);
    push_key(&mut out, "payload");
    push_byte(&mut out, LBRACE);
    push_str_field(&mut out, "action", name);
    match payload {
        None => {},
        Some(ip) => {
            push_byte(&mut out, COMMA);
            push_key(&mut out, "payload");
            push_byte(&mut out, LBRACE);
            push_str_field(&mut out, "instance_id", ip.instance_id.as_str());
            push_byte(&mut out, COMMA);
            push_str_field(&mut out, "plugin_socket", ip.plugin_socket.as_str());
            push_byte(&mut out, COMMA);
            push_str_field(&mut out, "log_path", ip.log_path.as_str());
            push_byte(&mut out, RBRACE);
        },
    }
    push_byte(&mut out, RBRACE);
    push_byte(&mut out, RBRACE);
    proof {
        let e = EnvelopeV::Lifecycle {
            action: *action,
            payload: match payload {
                None => None,
                Some(p) => Some(p@),
            },
        };
        assert(out@ =~= spec_encode(e));
    }
    out
}

#[verifier::rlimit(60)]
fn enc_http_request(
    request_id: &String,
    method: &String,
    path: &String,
    headers: &Vec<(String, String)>,
    body: &Option<String>,
) -> (out: Vec<u8>)
    ensures
        out@ == spec_encode(
            EnvelopeV::HttpRequest {
                request_id: request_id@,
                method: method@,
                path: path@,
                headers: headers_view(headers@),
                body: opt_view(*body),
            },
        ),
{
    let mut out: Vec<u8> = Vec::new();
    push_byte(&mut out, LBRACE);
    push_str_field(&mut out, "message_type", "http");
    push_byte(&mut out, COMMA);
    push_str_field(&mut out, "request_id", request_id.as_str());
    push_byte(&mut out, COMMA);
    push_key(&mut out, "payload");
    push_byte(&mut out, LBRACE);
    push_str_field(&mut out, "method", method.as_str());
    push_byte(&mut out, COMMA);
    push_str_field(&mut out, "path", path.as_str());
    push_byte(&mut out, COMMA);
    push_key(&mut out, "headers");
    push_headers_obj(&mut out, headers);
    match body {
        None => {},
        Some(b) => {
            push_byte(&mut out, COMMA);
            push_str_field(&mut out, "body", b.as_str());
        },
    }
    push_byte(&mut out, RBRACE);
    push_byte(&mut out, RBRACE);
    proof {
        let e = EnvelopeV::HttpRequest {
            request_id: request_id@,
            method: method@,
            path: path@,
            headers: headers_view(headers@),
            body: opt_view(*body),
        };
        assert(out@ =~= spec_encode(e));
    }
    out
}

#[verifier::rlimit(60)]
fn enc_http_response(
    request_id: &String,
    status: u16,
    headers: &Vec<(String, String)>,
    body: &Option<String>,
) -> (out: Vec<u8>)
    ensures
        out@ == spec_encode(
            EnvelopeV::HttpResponse {
                request_id: request_id@,
                status: status,
                headers: headers_view(headers@),
                body: opt_view(*body),
            },
        ),
{
    let mut out: Vec<u8> = Vec::new();
    push_byte(&mut out, LBRACE);
    push_str_field(&mut out, "message_type", "http");
    push_byte(&mut out, COMMA);
    push_str_field(&mut out, "request_id", request_id.as_str());
    push_byte(&mut out, COMMA);
    push_key(&mut out, "payload");
    push_byte(&mut out, LBRACE);
    push_key(&mut out, "status");
    push_dec(&mut out, status as u64);
    push_byte(&mut out, COMMA);
    push_key(&mut out, "headers");
    push_headers_obj(&mut out, headers);
    match body {
        None => {},
        Some(b) => {
            push_byte(&mut out, COMMA);
            push_str_field(&mut out, "body", b.as_str());
        },
    }
    push_byte(&mut out, RBRACE);
    push_byte(&mut out, RBRACE);
    proof {
        let e = EnvelopeV::HttpResponse {
            request_id: request_id@,
            status: status,
            headers: headers_view(headers@),
            body: opt_view(*body),
        };
        assert(out@ =~= spec_encode(e));
    }
    out
}

#[verifier::rlimit(60)]
fn enc_kv_request(
    request_id: &String,
    op: &KvAction,
    key: &String,
    value: &Option<String>,
) -> (out: Vec<u8>)
    ensures
        out@ == spec_encode(
            EnvelopeV::KvRequest {
                request_id: request_id@,
                op: *op,
                key: key@,
                value: opt_view(*value),
            },
        ),
{
    let mut out: Vec<u8> = Vec::new();
    push_byte(&mut out, LBRACE);
    let name = match op {
        KvAction::Get => "get",
        KvAction::Put => "set",
        KvAction::Delete => "delete",
    };
    push_str_field(&mut out, "message_type", "kv");
    push_byte(&mut out, COMMA);
    push_str_field(&mut out, "request_id", request_id.as_str());
    push_byte(&mut out, COMMA);
    push_key(&mut out, "payload");
    push_byte(&mut out, LBRACE);
    push_str_field(&mut out, "op", name);
    push_byte(&mut out, COMMA);
    push_str_field(&mut out, "key", key.as_str());
    match value {
        None => {},
        Some(v) => {
            push_byte(&mut out, COMMA);
            push_str_field(&mut out, "value", v.as_str());
        },
    }
    push_byte(&mut out, RBRACE);
    push_byte(&mut out, RBRACE);
    proof {
        let e = EnvelopeV::KvRequest {
            request_id: request_id@,
            op: *op,
            key: key@,
            value: opt_view(*value),
        };
        assert(out@ =~= spec_encode(e));
    }
    out
}

#[verifier::rlimit(60)]
fn enc_kv_response(request_id: &String, value: &Option<String>) -> (out: Vec<u8>)
    ensures
        out@ == spec_encode(
            EnvelopeV::KvResponse { request_id: request_id@, value: opt_view(*value) },
        ),
{
    let mut out: Vec<u8> = Vec::new();
    push_byte(&mut out, LBRACE);
    push_str_field(&mut out, "message_type", "kv");
    push_byte(&mut out, COMMA);
    push_str_field(&mut out, "request_id", request_id.as_str());
    push_byte(&mut out, COMMA);
    push_key(&mut out, "payload");
    push_byte(&mut out, LBRACE);
    match value {
        None => {},
        Some(v) => {
            push_str_field(&mut out, "value", v.as_str());
        },
    }
    push_byte(&mut out, RBRACE);
    push_byte(&mut out, RBRACE);
    proof {
        let e = EnvelopeV::KvResponse { request_id: request_id@, value: opt_view(*value) };
        assert(out@ =~= spec_encode(e));
    }
    out
}

/// Encode an envelope into its canonical wire form.
pub fn encode_envelope(e: &Envelope) -> (out: Vec<u8>)
    ensures
        out@ == spec_encode(e@),
{
    match e {
        Envelope::Lifecycle { action, payload } => enc_lifecycle(action, payload),
        Envelope::HttpRequest { request_id, method, path, headers, body } => enc_http_request(
            request_id,
            method,
            path,
            headers,
            body,
        ),
        Envelope::HttpResponse { request_id, status, headers, body } => enc_http_response(
            request_id,
            *status,
            headers,
            body,
        ),
        Envelope::KvRequest { request_id, op, key, value } => enc_kv_request(
            request_id,
            op,
            key,
            value,
        ),
        Envelope::KvResponse { request_id, value } => enc_kv_response(request_id, value),
    }
}

/// Consume one expected byte.
pub open spec fn dec_lit(s: Seq<u8>, b: u8) -> Option<Seq<u8>> {
    if s.len() > 0 && s[0] == b {
        Some(s.drop_first())
    } else {
        None
    }
}

/// Consume a JSON string and decode it to characters.
pub open spec fn dec_jstr(s: Seq<u8>) -> Option<(Seq<char>, Seq<u8>)> {
    match dec_lit(s, QUOTE) {
        None => None,
        Some(s1) => match unesc(s1) {
            None => None,
            Some((d, r)) => if valid_utf8(d) {
                Some((decode_utf8(d), r))
            } else {
                None
            },
        },
    }
}

/// Consume the given key string and its colon.
pub open spec fn dec_key(s: Seq<u8>, k: Seq<char>) -> Option<Seq<u8>> {
    match dec_jstr(s) {
        None => None,
        Some((x, r)) => if x == k {
            dec_lit(r, COLON)
        } else {
            None
        },
    }
}

/// Consume a `"key":"value"` member with the given key.
pub open spec fn dec_str_member(s: Seq<u8>, k: Seq<char>) -> Option<(Seq<char>, Seq<u8>)> {
    match dec_key(s, k) {
        None => None,
        Some(r) => dec_jstr(r),
    }
}

/// Consume header pairs up to and including the object's closing brace.
pub open spec fn dec_headers(s: Seq<u8>) -> Option<(Seq<(Seq<char>, Seq<char>)>, Seq<u8>)>
    decreases s.len(),
{
    match dec_lit(s, RBRACE) {
        Some(r) => Some((Seq::empty(), r)),
        None => match dec_jstr(s) {
            None => None,
            Some((k, r1)) => match dec_lit(r1, COLON) {
                None => None,
                Some(r2) => match dec_jstr(r2) {
                    None => None,
                    Some((v, r3)) => match dec_lit(r3, COMMA) {
                        Some(r4) => if r4.len() < s.len() {
                            match dec_headers(r4) {
                                None => None,
                                Some((hs, r5)) => Some((seq![(k, v)] + hs, r5)),
                            }
                        } else {
                            None
                        },
                        None => match dec_lit(r3, RBRACE) {
                            Some(r4) => Some((seq![(k, v)], r4)),
                            None => None,
                        },
                    },
                },
            },
        },
    }
}

/// Consume an optional trailing `,"key":"value"` member and then the
/// enclosing object's closing brace.
pub open spec fn dec_opt_member(s: Seq<u8>, k: Seq<char>) -> Option<(Option<Seq<char>>, Seq<u8>)> {
    match dec_lit(s, COMMA) {
        Some(r1) => match dec_str_member(r1, k) {
            None => None,
            Some((v, r2)) => match dec_lit(r2, RBRACE) {
                None => None,
                Some(r3) => Some((Some(v), r3)),
            },
        },
        None => match dec_lit(s, RBRACE) {
            None => None,
            Some(r) => Some((None, r)),
        },
    }
}

/// Consume a lifecycle init payload object.
pub open spec fn dec_init_obj(s: Seq<u8>) -> Option<(InitPayloadV, Seq<u8>)> {
    match dec_lit(s, LBRACE) {
        None => None,
        Some(r0) => match dec_str_member(r0, "instance_id"@) {
            None => None,
            Some((v1, r1)) => match dec_lit(r1, COMMA) {
                None => None,
                Some(r2) => match dec_str_member(r2, "plugin_socket"@) {
                    None => None,
                    Some((v2, r3)) => match dec_lit(r3, COMMA) {
                        None => None,
                        Some(r4) => match dec_str_member(r4, "log_path"@) {
                            None => None,
                            Some((v3, r5)) => match dec_lit(r5, RBRACE) {
                                None => None,
                                Some(r6) => Some(
                                    (
                                        InitPayloadV {
                                            instance_id: v1,
                                            plugin_socket: v2,
                                            log_path: v3,
                                        },
                                        r6,
                                    ),
                                ),
                            },
                        },
                    },
                },
            },
        },
    }
}

/// Decode the remainder of a lifecycle envelope, after its message type.
pub open spec fn dec_lifecycle(s: Seq<u8>) -> Option<EnvelopeV> {
    match dec_lit(s, COMMA) {
        None => None,
        Some(r0) => match dec_key(r0, "payload"@) {
            None => None,
            Some(r1) => match dec_lit(r1, LBRACE) {
                None => None,
                Some(r2) => match dec_str_member(r2, "action"@) {
                    None => None,
                    Some((act, r3)) => {
                        let action = if act == "init"@ {
                            Some(LifecycleAction::Init)
                        } else if act == "shutdown"@ {
                            Some(LifecycleAction::Shutdown)
                        } else {
                            None
                        };
                        match action {
                            None => None,
                            Some(a) => match dec_lit(r3, COMMA) {
                                Some(r4) => match dec_key(r4, "payload"@) {
                                    None => None,
                                    Some(r5) => match dec_init_obj(r5) {
                                        None => None,
                                        Some((ip, r6)) => match dec_lit(r6, RBRACE) {
                                            None => None,
                                            Some(r7) => match dec_lit(r7, RBRACE) {
                                                None => None,
                                                Some(r8) => if r8.len() == 0 {
                                                    Some(
                                                        EnvelopeV::Lifecycle {
                                                            action: a,
                                                            payload: Some(ip),
                                                        },
                                                    )
                                                } else {
                                                    None
                                                },
                                            },
                                        },
                                    },
                                },
                                None => match dec_lit(r3, RBRACE) {
                                    None => None,
                                    Some(r4) => match dec_lit(r4, RBRACE) {
                                        None => None,
                                        Some(r5) => if r5.len() == 0 {
                                            Some(
                                                EnvelopeV::Lifecycle { action: a, payload: None },
                                            )
                                        } else {
                                            None
                                        },
                                    },
                                },
                            },
                        }
                    },
                },
            },
        },
    }
}

/// Decode the remainder of an `http` envelope, after its message type.
pub open spec fn dec_http(s: Seq<u8>) -> Option<EnvelopeV> {
    match dec_lit(s, COMMA) {
        None => None,
        Some(r0) => match dec_str_member(r0, "request_id"@) {
            None => None,
            Some((rid, r1)) => match dec_lit(r1, COMMA) {
                None => None,
                Some(r2) => match dec_key(r2, "payload"@) {
                    None => None,
                    Some(r3) => match dec_lit(r3, LBRACE) {
                        None => None,
                        Some(r4) => match dec_jstr(r4) {
                            None => None,
                            Some((k1, r5)) => if k1 == "method"@ {
                                dec_http_request(rid, r5)
                            } else if k1 == "status"@ {
                                dec_http_response(rid, r5)
                            } else {
                                None
                            },
                        },
                    },
                },
            },
        },
    }
}

/// Decode an `http` request payload after its `method` key.
pub open spec fn dec_http_request(rid: Seq<char>, s: Seq<u8>) -> Option<EnvelopeV> {
    match dec_lit(s, COLON) {
        None => None,
        Some(r0) => match dec_jstr(r0) {
            None => None,
            Some((m, r1)) => match dec_lit(r1, COMMA) {
                None => None,
                Some(r2) => match dec_str_member(r2, "path"@) {
                    None => None,
                    Some((p, r3)) => match dec_lit(r3, COMMA) {
                        None => None,
                        Some(r4) => match dec_key(r4, "headers"@) {
                            None => None,
                            Some(r5) => match dec_lit(r5, LBRACE) {
                                None => None,
                                Some(r6) => match dec_headers(r6) {
                                    None => None,
                                    Some((hs, r7)) => match dec_opt_member(r7, "body"@) {
                                        None => None,
                                        Some((b, r8)) => match dec_lit(r8, RBRACE) {
                                            None => None,
                                            Some(r9) => if r9.len() == 0 {
                                                Some(
                                                    EnvelopeV::HttpRequest {
                                                        request_id: rid,
                                                        method: m,
                                                        path: p,
                                                        headers: hs,
                                                        body: b,
                                                    },
                                                )
                                            } else {
                                                None
                                            },
                                        },
                                    },
                                },
                            },
                        },
                    },
                },
            },
        },
    }
}

/// Decode an `http` response payload after its `status` key.
pub open spec fn dec_http_response(rid: Seq<char>, s: Seq<u8>) -> Option<EnvelopeV> {
    match dec_lit(s, COLON) {
        None => None,
        Some(r0) => match parse_dec(r0) {
            None => None,
            Some((v, r1)) => if v <= 65535 {
                match dec_lit(r1, COMMA) {
                    None => None,
                    Some(r2) => match dec_key(r2, "headers"@) {
                        None => None,
                        Some(r3) => match dec_lit(r3, LBRACE) {
                            None => None,
                            Some(r4) => match dec_headers(r4) {
                                None => None,
                                Some((hs, r5)) => match dec_opt_member(r5, "body"@) {
                                    None => None,
                                    Some((b, r6)) => match dec_lit(r6, RBRACE) {
                                        None => None,
                                        Some(r7) => if r7.len() == 0 {
                                            Some(
                                                EnvelopeV::HttpResponse {
                                                    request_id: rid,
                                                    status: v as u16,
                                                    headers: hs,
                                                    body: b,
                                                },
                                            )
                                        } else {
                                            None
                                        },
                                    },
                                },
                            },
                        },
                    },
                }
            } else {
                None
            },
        },
    }
}

/// Decode the remainder of a `kv` envelope, after its message type.
pub open spec fn dec_kv(s: Seq<u8>) -> Option<EnvelopeV> {
    match dec_lit(s, COMMA) {
        None => None,
        Some(r0) => match dec_str_member(r0, "request_id"@) {
            None => None,
            Some((rid, r1)) => match dec_lit(r1, COMMA) {
                None => None,
                Some(r2) => match dec_key(r2, "payload"@) {
                    None => None,
                    Some(r3) => match dec_lit(r3, LBRACE) {
                        None => None,
                        Some(r4) => match dec_lit(r4, RBRACE) {
                            Some(r5) => match dec_lit(r5, RBRACE) {
                                None => None,
                                Some(r6) => if r6.len() == 0 {
                                    Some(EnvelopeV::KvResponse { request_id: rid, value: None })
                                } else {
                                    None
                                },
                            },
                            None => match dec_jstr(r4) {
                                None => None,
                                Some((k1, r5)) => if k1 == "op"@ {
                                    dec_kv_request(rid, r5)
                                } else if k1 == "value"@ {
                                    dec_kv_response(rid, r5)
                                } else {
                                    None
                                },
                            },
                        },
                    },
                },
            },
        },
    }
}

/// Decode a `kv` request payload after its `op` key.
pub open spec fn dec_kv_request(rid: Seq<char>, s: Seq<u8>) -> Option<EnvelopeV> {
    match dec_lit(s, COLON) {
        None => None,
        Some(r0) => match dec_jstr(r0) {
            None => None,
            Some((opname, r1)) => {
                let op = if opname == "get"@ {
                    Some(KvAction::Get)
                } else if opname == "set"@ {
                    Some(KvAction::Put)
                } else if opname == "delete"@ {
                    Some(KvAction::Delete)
                } else {
                    None
                };
                match op {
                    None => None,
                    Some(o) => match dec_lit(r1, COMMA) {
                        None => None,
                        Some(r2) => match dec_str_member(r2, "key"@) {
                            None => None,
                            Some((k, r3)) => match dec_opt_member(r3, "value"@) {
                                None => None,
                                Some((v, r4)) => match dec_lit(r4, RBRACE) {
                                    None => None,
                                    Some(r5) => if r5.len() == 0 {
                                        Some(
                                            EnvelopeV::KvRequest {
                                                request_id: rid,
                                                op: o,
                                                key: k,
                                                value: v,
                                            },
                                        )
                                    } else {
                                        None
                                    },
                                },
                            },
                        },
                    },
                }
            },
        },
    }
}

/// Decode a `kv` response payload after its `value` key.
pub open spec fn dec_kv_response(rid: Seq<char>, s: Seq<u8>) -> Option<EnvelopeV> {
    match dec_lit(s, COLON) {
        None => None,
        Some(r0) => match dec_jstr(r0) {
            None => None,
            Some((v, r1)) => match dec_lit(r1, RBRACE) {
                None => None,
                Some(r2) => match dec_lit(r2, RBRACE) {
                    None => None,
                    Some(r3) => if r3.len() == 0 {
                        Some(EnvelopeV::KvResponse { request_id: rid, value: Some(v) })
                    } else {
                        None
                    },
                },
            },
        },
    }
}

/// Deterministic decoder for a whole frame payload: the canonical wire form
/// of exactly one envelope, with nothing following it.
pub open spec fn spec_decode(s: Seq<u8>) -> Option<EnvelopeV> {
    match dec_lit(s, LBRACE) {
        None => None,
        Some(r0) => match dec_str_member(r0, "message_type"@) {
            None => None,
            Some((mt, r1)) => if mt == "lifecycle"@ {
                dec_lifecycle(r1)
            } else if mt == "http"@ {
                dec_http(r1)
            } else if mt == "kv"@ {
                dec_kv(r1)
            } else {
                None
            },
        },
    }
}

proof fn lemma_dec_lit(b: u8, r: Seq<u8>)
    ensures
        dec_lit(seq![b] + r, b) == Some(r),
{
    let s = seq![b] + r;
    assert(s[0] == b);
    assert(s.drop_first() =~= r);
}

proof fn lemma_dec_jstr(x: Seq<char>, r: Seq<u8>)
    ensures
        dec_jstr(jstr(x) + r) == Some((x, r)),
{
    let s = jstr(x) + r;
    let inner = esc(encode_utf8(x)) + seq![QUOTE] + r;
    assert(s =~= seq![QUOTE] + inner);
    lemma_dec_lit(QUOTE, inner);
    lemma_unesc_esc(encode_utf8(x), r);
    encode_utf8_valid_utf8(x);
    encode_utf8_decode_utf8(x);
}

proof fn lemma_dec_key(k: Seq<char>, r: Seq<u8>)
    ensures
        dec_key(jstr(k) + seq![COLON] + r, k) == Some(r),
{
    let s = jstr(k) + seq![COLON] + r;
    assert(s =~= jstr(k) + (seq![COLON] + r));
    lemma_dec_jstr(k, seq![COLON] + r);
    lemma_dec_lit(COLON, r);
}

proof fn lemma_dec_str_member(k: Seq<char>, x: Seq<char>, r: Seq<u8>)
    ensures
        dec_str_member(jfield(k, jstr(x)) + r, k) == Some((x, r)),
{
    let s = jfield(k, jstr(x)) + r;
    assert(s =~= jstr(k) + seq![COLON] + (jstr(x) + r));
    lemma_dec_key(k, jstr(x) + r);
    lemma_dec_jstr(x, r);
}

proof fn lemma_jstr_starts_quote(x: Seq<char>, r: Seq<u8>)
    ensures
        (jstr(x) + r)[0] == QUOTE,
        (jstr(x) + r).len() > 0,
{
}

proof fn lemma_dec_headers(hs: Seq<(Seq<char>, Seq<char>)>, r: Seq<u8>)
    ensures
        dec_headers(spec_headers(hs) + seq![RBRACE] + r) == Some((hs, r)),
    decreases hs.len(),
{
    let s = spec_headers(hs) + seq![RBRACE] + r;
    if hs.len() == 0 {
        assert(s =~= seq![RBRACE] + r);
        lemma_dec_lit(RBRACE, r);
        assert(hs =~= Seq::<(Seq<char>, Seq<char>)>::empty());
    } else {
        let p = hs[0];
        if hs.len() == 1 {
            let t3 = seq![RBRACE] + r;
            assert(s =~= jstr(p.0) + (seq![COLON] + (jstr(p.1) + t3)));
            lemma_jstr_starts_quote(p.0, seq![COLON] + (jstr(p.1) + t3));
            assert(dec_lit(s, RBRACE) is None);
            lemma_dec_jstr(p.0, seq![COLON] + (jstr(p.1) + t3));
            lemma_dec_lit(COLON, jstr(p.1) + t3);
            lemma_dec_jstr(p.1, t3);
            assert(t3[0] == RBRACE);
            assert(dec_lit(t3, COMMA) is None);
            lemma_dec_lit(RBRACE, r);
            assert(p == (p.0, p.1));
            assert(seq![(p.0, p.1)] =~= hs);
        } else {
            let srest = spec_headers(hs.drop_first()) + seq![RBRACE] + r;
            let t3 = seq![COMMA] + srest;
            assert(s =~= jstr(p.0) + (seq![COLON] + (jstr(p.1) + t3)));
            lemma_jstr_starts_quote(p.0, seq![COLON] + (jstr(p.1) + t3));
            assert(dec_lit(s, RBRACE) is None);
            lemma_dec_jstr(p.0, seq![COLON] + (jstr(p.1) + t3));
            lemma_dec_lit(COLON, jstr(p.1) + t3);
            lemma_dec_jstr(p.1, t3);
            lemma_dec_lit(COMMA, srest);
            assert(srest.len() < s.len());
            lemma_dec_headers(hs.drop_first(), r);
            assert(p == (p.0, p.1));
            assert(seq![(p.0, p.1)] + hs.drop_first() =~= hs);
        }
    }
}

proof fn lemma_dec_opt_member(k: Seq<char>, o: Option<Seq<char>>, suffix: Seq<u8>, r: Seq<u8>)
    requires
        suffix == match o {
            None => Seq::<u8>::empty(),
            Some(x) => seq![COMMA] + jfield(k, jstr(x)),
        },
    ensures
        dec_opt_member(suffix + seq![RBRACE] + r, k) == Some((o, r)),
{
    let s = suffix + seq![RBRACE] + r;
    match o {
        None => {
            assert(s =~= seq![RBRACE] + r);
            assert(s[0] == RBRACE);
            assert(dec_lit(s, COMMA) is None);
            lemma_dec_lit(RBRACE, r);
        },
        Some(x) => {
            assert(s =~= seq![COMMA] + (jfield(k, jstr(x)) + (seq![RBRACE] + r)));
            lemma_dec_lit(COMMA, jfield(k, jstr(x)) + (seq![RBRACE] + r));
            lemma_dec_str_member(k, x, seq![RBRACE] + r);
            lemma_dec_lit(RBRACE, r);
        },
    }
}

#[verifier::rlimit(80)]
proof fn lemma_rt_lifecycle(a: LifecycleAction, p: Option<InitPayloadV>)
    ensures
        spec_decode(spec_encode(EnvelopeV::Lifecycle { action: a, payload: p })) == Some(
            EnvelopeV::Lifecycle { action: a, payload: p },
        ),
{
    let e = EnvelopeV::Lifecycle { action: a, payload: p };
    let name = lifecycle_action_name(a);
    let enc = spec_encode(e);
    let s5 = spec_init_suffix(p) + seq![RBRACE] + seq![RBRACE];
    let s4 = jfield("action"@, jstr(name)) + s5;
    let s3 = seq![LBRACE] + s4;
    let s2 = jstr("payload"@) + seq![COLON] + s3;
    let s1 = seq![COMMA] + s2;
    let s0 = jfield("message_type"@, jstr("lifecycle"@)) + s1;
    assert(enc =~= seq![LBRACE] + s0);
    lemma_dec_lit(LBRACE, s0);
    assert(s0 =~= jfield("message_type"@, jstr("lifecycle"@)) + s1);
    lemma_dec_str_member("message_type"@, "lifecycle"@, s1);
    lemma_dec_lit(COMMA, s2);
    assert(s2 =~= jstr("payload"@) + seq![COLON] + s3);
    lemma_dec_key("payload"@, s3);
    lemma_dec_lit(LBRACE, s4);
    lemma_dec_str_member("action"@, name, s5);
    proof_lifecycle_names();
    match p {
        None => {
            assert(s5 =~= seq![RBRACE] + seq![RBRACE]);
            assert(s5[0] == RBRACE);
            assert(dec_lit(s5, COMMA) is None);
            lemma_dec_lit(RBRACE, seq![RBRACE]);
            lemma_dec_lit(RBRACE, Seq::<u8>::empty());
        },
        Some(ip) => {
            let io = seq![LBRACE] + jfield("instance_id"@, jstr(ip.instance_id)) + seq![COMMA]
                + jfield("plugin_socket"@, jstr(ip.plugin_socket)) + seq![COMMA] + jfield(
                "log_path"@,
                jstr(ip.log_path),
            ) + seq![RBRACE];
            let u7 = seq![RBRACE] + seq![RBRACE];
            let u1 = io + u7;
            let u0 = jstr("payload"@) + seq![COLON] + u1;
            assert(s5 =~= seq![COMMA] + u0);
            lemma_dec_lit(COMMA, u0);
            assert(u0 =~= jstr("payload"@) + seq![COLON] + u1);
            lemma_dec_key("payload"@, u1);
            let w3 = seq![RBRACE] + u7;
            let w2 = jfield("log_path"@, jstr(ip.log_path)) + w3;
            let w1b = seq![COMMA] + w2;
            let w1 = jfield("plugin_socket"@, jstr(ip.plugin_socket)) + w1b;
            let w0b = seq![COMMA] + w1;
            let w0 = jfield("instance_id"@, jstr(ip.instance_id)) + w0b;
            assert(u1 =~= seq![LBRACE] + w0);
            lemma_dec_lit(LBRACE, w0);
            assert(w0 =~= jfield("instance_id"@, jstr(ip.instance_id)) + w0b);
            lemma_dec_str_member("instance_id"@, ip.instance_id, w0b);
            lemma_dec_lit(COMMA, w1);
            assert(w1 =~= jfield("plugin_socket"@, jstr(ip.plugin_socket)) + w1b);
            lemma_dec_str_member("plugin_socket"@, ip.plugin_socket, w1b);
            lemma_dec_lit(COMMA, w2);
            assert(w2 =~= jfield("log_path"@, jstr(ip.log_path)) + w3);
            lemma_dec_str_member("log_path"@, ip.log_path, w3);
            lemma_dec_lit(RBRACE, u7);
            lemma_dec_lit(RBRACE, seq![RBRACE]);
            lemma_dec_lit(RBRACE, Seq::<u8>::empty());
            assert(ip == InitPayloadV {
                instance_id: ip.instance_id,
                plugin_socket: ip.plugin_socket,
                log_path: ip.log_path,
            });
        },
    }
}

proof fn proof_lifecycle_names()
    ensures
        "lifecycle"@ != "http"@,
        "lifecycle"@ != "kv"@,
        "http"@ != "kv"@,
        "init"@ != "shutdown"@,
{
    reveal_strlit("lifecycle");
    reveal_strlit("http");
    reveal_strlit("kv");
    reveal_strlit("init");
    reveal_strlit("shutdown");
    assert("lifecycle"@.len() == 9);
    assert("http"@.len() == 4);
    assert("kv"@.len() == 2);
    assert("init"@.len() == 4);
    assert("shutdown"@.len() == 8);
}

proof fn proof_http_keys()
    ensures
        "method"@ != "status"@,
        "http"@ != "lifecycle"@,
        "http"@ != "kv"@,
{
    reveal_strlit("method");
    reveal_strlit("status");
    reveal_strlit("lifecycle");
    reveal_strlit("http");
    reveal_strlit("kv");
    assert("method"@[0] == 'm');
    assert("status"@[0] == 's');
    assert("http"@.len() == 4);
    assert("lifecycle"@.len() == 9);
    assert("kv"@.len() == 2);
}

proof fn proof_kv_keys()
    ensures
        "op"@ != "value"@,
        "kv"@ != "lifecycle"@,
        "kv"@ != "http"@,
        "get"@ != "set"@,
        "get"@ != "delete"@,
        "set"@ != "delete"@,
{
    reveal_strlit("op");
    reveal_strlit("value");
    reveal_strlit("lifecycle");
    reveal_strlit("http");
    reveal_strlit("kv");
    reveal_strlit("get");
    reveal_strlit("set");
    reveal_strlit("delete");
    assert("op"@.len() == 2);
    assert("value"@.len() == 5);
    assert("kv"@.len() == 2);
    assert("lifecycle"@.len() == 9);
    assert("http"@.len() == 4);
    assert("get"@[0] == 'g');
    assert("set"@[0] == 's');
    assert("get"@.len() == 3);
    assert("set"@.len() == 3);
    assert("delete"@.len() == 6);
}

#[verifier::rlimit(80)]
proof fn lemma_rt_http_req_payload(
    rid: Seq<char>,
    m: Seq<char>,
    pth: Seq<char>,
    hs: Seq<(Seq<char>, Seq<char>)>,
    b: Option<Seq<char>>,
)
    ensures
        dec_http_request(
            rid,
            seq![COLON] + (jstr(m) + (seq![COMMA] + (jfield("path"@, jstr(pth)) + (seq![COMMA] + (
            jstr("headers"@) + seq![COLON] + (seq![LBRACE] + spec_headers(hs) + seq![RBRACE] + (
            spec_body_suffix(b) + seq![RBRACE] + seq![RBRACE]))))))),
        ) == Some(
            EnvelopeV::HttpRequest {
                request_id: rid,
                method: m,
                path: pth,
                headers: hs,
                body: b,
            },
        ),
{
    let s9 = spec_body_suffix(b) + seq![RBRACE] + seq![RBRACE];
    let s8 = seq![LBRACE] + spec_headers(hs) + seq![RBRACE] + s9;
    let s7 = jstr("headers"@) + seq![COLON] + s8;
    let s6 = seq![COMMA] + s7;
    let s5 = jfield("path"@, jstr(pth)) + s6;
    let s4b = seq![COMMA] + s5;
    let s4a = jstr(m) + s4b;
    let s4 = seq![COLON] + s4a;
    lemma_dec_lit(COLON, s4a);
    lemma_dec_jstr(m, s4b);
    lemma_dec_lit(COMMA, s5);
    lemma_dec_str_member("path"@, pth, s6);
    lemma_dec_lit(COMMA, s7);
    lemma_dec_key("headers"@, s8);
    let s8b = spec_headers(hs) + seq![RBRACE] + s9;
    assert(s8 =~= seq![LBRACE] + s8b);
    lemma_dec_lit(LBRACE, s8b);
    lemma_dec_headers(hs, s9);
    lemma_dec_opt_member("body"@, b, spec_body_suffix(b), seq![RBRACE] + Seq::<u8>::empty());
    assert(s9 =~= spec_body_suffix(b) + seq![RBRACE] + (seq![RBRACE] + Seq::<u8>::empty()));
    lemma_dec_lit(RBRACE, Seq::<u8>::empty());
}

#[verifier::rlimit(80)]
proof fn lemma_rt_http_request(
    rid: Seq<char>,
    m: Seq<char>,
    pth: Seq<char>,
    hs: Seq<(Seq<char>, Seq<char>)>,
    b: Option<Seq<char>>,
)
    ensures
        spec_decode(
            spec_encode(
                EnvelopeV::HttpRequest {
                    request_id: rid,
                    method: m,
                    path: pth,
                    headers: hs,
                    body: b,
                },
            ),
        ) == Some(
            EnvelopeV::HttpRequest {
                request_id: rid,
                method: m,
                path: pth,
                headers: hs,
                body: b,
            },
        ),
{
    let e = EnvelopeV::HttpRequest { request_id: rid, method: m, path: pth, headers: hs, body: b };
    let enc = spec_encode(e);
    let s4 = seq![COLON] + (jstr(m) + (seq![COMMA] + (jfield("path"@, jstr(pth)) + (seq![COMMA] + (
    jstr("headers"@) + seq![COLON] + (seq![LBRACE] + spec_headers(hs) + seq![RBRACE] + (
    spec_body_suffix(b) + seq![RBRACE] + seq![RBRACE])))))));
    let s3 = jstr("method"@) + s4;
    let s2 = seq![LBRACE] + s3;
    let s1c = jstr("payload"@) + seq![COLON] + s2;
    let s1b = seq![COMMA] + s1c;
    let s1 = jfield("request_id"@, jstr(rid)) + s1b;
    let s0b = seq![COMMA] + s1;
    let s0 = jfield("message_type"@, jstr("http"@)) + s0b;
    assert(enc =~= seq![LBRACE] + s0);
    lemma_dec_lit(LBRACE, s0);
    assert(s0 =~= jfield("message_type"@, jstr("http"@)) + s0b);
    lemma_dec_str_member("message_type"@, "http"@, s0b);
    proof_http_keys();
    lemma_dec_lit(COMMA, s1);
    assert(s1 =~= jfield("request_id"@, jstr(rid)) + s1b);
    lemma_dec_str_member("request_id"@, rid, s1b);
    lemma_dec_lit(COMMA, s1c);
    assert(s1c =~= jstr("payload"@) + seq![COLON] + s2);
    lemma_dec_key("payload"@, s2);
    lemma_dec_lit(LBRACE, s3);
    assert(s3 =~= jstr("method"@) + s4);
    lemma_dec_jstr("method"@, s4);
    lemma_rt_http_req_payload(rid, m, pth, hs, b);
}

#[verifier::rlimit(80)]
proof fn lemma_rt_http_response(
    rid: Seq<char>,
    st: u16,
    hs: Seq<(Seq<char>, Seq<char>)>,
    b: Option<Seq<char>>,
)
    ensures
        spec_decode(
            spec_encode(
                EnvelopeV::HttpResponse { request_id: rid, status: st, headers: hs, body: b },
            ),
        ) == Some(EnvelopeV::HttpResponse { request_id: rid, status: st, headers: hs, body: b }),
{
    let e = EnvelopeV::HttpResponse { request_id: rid, status: st, headers: hs, body: b };
    let enc = spec_encode(e);
    let s9 = spec_body_suffix(b) + seq![RBRACE] + seq![RBRACE];
    let s8 = seq![LBRACE] + spec_headers(hs) + seq![RBRACE] + s9;
    let s7 = jstr("headers"@) + seq![COLON] + s8;
    let s6 = seq![COMMA] + s7;
    let s4a = dec_digits(st as nat) + s6;
    let s4 = seq![COLON] + s4a;
    let s3 = jstr("status"@) + s4;
    let s2 = seq![LBRACE] + s3;
    let s1c = jstr("payload"@) + seq![COLON] + s2;
    let s1b = seq![COMMA] + s1c;
    let s1 = jfield("request_id"@, jstr(rid)) + s1b;
    let s0b = seq![COMMA] + s1;
    let s0 = jfield("message_type"@, jstr("http"@)) + s0b;
    assert(enc =~= seq![LBRACE] + s0);
    lemma_dec_lit(LBRACE, s0);
    assert(s0 =~= jfield("message_type"@, jstr("http"@)) + s0b);
    lemma_dec_str_member("message_type"@, "http"@, s0b);
    proof_http_keys();
    lemma_dec_lit(COMMA, s1);
    assert(s1 =~= jfield("request_id"@, jstr(rid)) + s1b);
    lemma_dec_str_member("request_id"@, rid, s1b);
    lemma_dec_lit(COMMA, s1c);
    assert(s1c =~= jstr("payload"@) + seq![COLON] + s2);
    lemma_dec_key("payload"@, s2);
    lemma_dec_lit(LBRACE, s3);
    assert(s3 =~= jstr("status"@) + s4);
    lemma_dec_jstr("status"@, s4);
    lemma_dec_lit(COLON, s4a);
    assert(s4a =~= dec_digits(st as nat) + s6);
    assert(s6[0] == COMMA);
    lemma_parse_dec_digits(st as nat, s6);
    lemma_dec_lit(COMMA, s7);
    assert(s7 =~= jstr("headers"@) + seq![COLON] + s8);
    lemma_dec_key("headers"@, s8);
    let s8b = spec_headers(hs) + seq![RBRACE] + s9;
    assert(s8 =~= seq![LBRACE] + s8b);
    lemma_dec_lit(LBRACE, s8b);
    lemma_dec_headers(hs, s9);
    lemma_dec_opt_member(
        "body"@,
        b,
        spec_body_suffix(b),
        seq![RBRACE] + Seq::<u8>::empty(),
    );
    assert(s9 =~= spec_body_suffix(b) + seq![RBRACE] + (seq![RBRACE] + Seq::<u8>::empty()));
    lemma_dec_lit(RBRACE, Seq::<u8>::empty());
}

#[verifier::rlimit(80)]
proof fn lemma_rt_kv_request(rid: Seq<char>, op: KvAction, k: Seq<char>, v: Option<Seq<char>>)
    ensures
        spec_decode(
            spec_encode(EnvelopeV::KvRequest { request_id: rid, op: op, key: k, value: v }),
        ) == Some(EnvelopeV::KvRequest { request_id: rid, op: op, key: k, value: v }),
{
    let e = EnvelopeV::KvRequest { request_id: rid, op: op, key: k, value: v };
    let name = kv_action_name(op);
    let enc = spec_encode(e);
    let s7 = spec_value_suffix(v) + seq![RBRACE] + seq![RBRACE];
    let s6 = jfield("key"@, jstr(k)) + s7;
    let s5 = seq![COMMA] + s6;
    let s4b = jstr(name) + s5;
    let s4 = seq![COLON] + s4b;
    let s3 = jstr("op"@) + s4;
    let s2 = seq![LBRACE] + s3;
    let s1c = jstr("payload"@) + seq![COLON] + s2;
    let s1b = seq![COMMA] + s1c;
    let s1 = jfield("request_id"@, jstr(rid)) + s1b;
    let s0b = seq![COMMA] + s1;
    let s0 = jfield("message_type"@, jstr("kv"@)) + s0b;
    assert(enc =~= seq![LBRACE] + s0);
    lemma_dec_lit(LBRACE, s0);
    assert(s0 =~= jfield("message_type"@, jstr("kv"@)) + s0b);
    lemma_dec_str_member("message_type"@, "kv"@, s0b);
    proof_kv_keys();
    lemma_dec_lit(COMMA, s1);
    assert(s1 =~= jfield("request_id"@, jstr(rid)) + s1b);
    lemma_dec_str_member("request_id"@, rid, s1b);
    lemma_dec_lit(COMMA, s1c);
    assert(s1c =~= jstr("payload"@) + seq![COLON] + s2);
    lemma_dec_key("payload"@, s2);
    lemma_dec_lit(LBRACE, s3);
    lemma_jstr_starts_quote("op"@, s4);
    assert(dec_lit(s3, RBRACE) is None);
    assert(s3 =~= jstr("op"@) + s4);
    lemma_dec_jstr("op"@, s4);
    lemma_dec_lit(COLON, s4b);
    assert(s4b =~= jstr(name) + s5);
    lemma_dec_jstr(name, s5);
    lemma_dec_lit(COMMA, s6);
    assert(s6 =~= jfield("key"@, jstr(k)) + s7);
    lemma_dec_str_member("key"@, k, s7);
    lemma_dec_opt_member(
        "value"@,
        v,
        spec_value_suffix(v),
        seq![RBRACE] + Seq::<u8>::empty(),
    );
    assert(s7 =~= spec_value_suffix(v) + seq![RBRACE] + (seq![RBRACE] + Seq::<u8>::empty()));
    lemma_dec_lit(RBRACE, Seq::<u8>::empty());
}

#[verifier::rlimit(80)]
proof fn lemma_rt_kv_response(rid: Seq<char>, v: Option<Seq<char>>)
    ensures
        spec_decode(spec_encode(EnvelopeV::KvResponse { request_id: rid, value: v })) == Some(
            EnvelopeV::KvResponse { request_id: rid, value: v },
        ),
{
    let e = EnvelopeV::KvResponse { request_id: rid, value: v };
    let enc = spec_encode(e);
    let s3 = (match v {
        None => Seq::<u8>::empty(),
        Some(x) => jfield("value"@, jstr(x)),
    }) + seq![RBRACE] + seq![RBRACE];
    let s2 = seq![LBRACE] + s3;
    let s1c = jstr("payload"@) + seq![COLON] + s2;
    let s1b = seq![COMMA] + s1c;
    let s1 = jfield("request_id"@, jstr(rid)) + s1b;
    let s0b = seq![COMMA] + s1;
    let s0 = jfield("message_type"@, jstr("kv"@)) + s0b;
    assert(enc =~= seq![LBRACE] + s0);
    lemma_dec_lit(LBRACE, s0);
    assert(s0 =~= jfield("message_type"@, jstr("kv"@)) + s0b);
    lemma_dec_str_member("message_type"@, "kv"@, s0b);
    proof_kv_keys();
    lemma_dec_lit(COMMA, s1);
    assert(s1 =~= jfield("request_id"@, jstr(rid)) + s1b);
    lemma_dec_str_member("request_id"@, rid, s1b);
    lemma_dec_lit(COMMA, s1c);
    assert(s1c =~= jstr("payload"@) + seq![COLON] + s2);
    lemma_dec_key("payload"@, s2);
    lemma_dec_lit(LBRACE, s3);
    match v {
        None => {
            assert(s3 =~= seq![RBRACE] + seq![RBRACE]);
            lemma_dec_lit(RBRACE, seq![RBRACE]);
            lemma_dec_lit(RBRACE, Seq::<u8>::empty());
        },
        Some(x) => {
            let u0 = seq![COLON] + (jstr(x) + (seq![RBRACE] + seq![RBRACE]));
            assert(s3 =~= jstr("value"@) + u0);
            lemma_jstr_starts_quote("value"@, u0);
            assert(dec_lit(s3, RBRACE) is None);
            lemma_dec_jstr("value"@, u0);
            lemma_dec_lit(COLON, jstr(x) + (seq![RBRACE] + seq![RBRACE]));
            lemma_dec_jstr(x, seq![RBRACE] + seq![RBRACE]);
            lemma_dec_lit(RBRACE, seq![RBRACE]);
            lemma_dec_lit(RBRACE, Seq::<u8>::empty());
        },
    }
}

/// Decoding the canonical wire form of any envelope yields that envelope:
/// encode then decode is the identity.
pub proof fn lemma_decode_encode(e: EnvelopeV)
    ensures
        spec_decode(spec_encode(e)) == Some(e),
{
    match e {
        EnvelopeV::Lifecycle { action, payload } => lemma_rt_lifecycle(action, payload),
        EnvelopeV::HttpRequest { request_id, method, path, headers, body } => lemma_rt_http_request(
            request_id,
            method,
            path,
            headers,
            body,
        ),
        EnvelopeV::HttpResponse { request_id, status, headers, body } => lemma_rt_http_response(
            request_id,
            status,
            headers,
            body,
        ),
        EnvelopeV::KvRequest { request_id, op, key, value } => lemma_rt_kv_request(
            request_id,
            op,
            key,
            value,
        ),
        EnvelopeV::KvResponse { request_id, value } => lemma_rt_kv_response(request_id, value),
    }
}

/// Relies on `String::from_utf8`: it succeeds exactly on valid UTF-8 and
/// the returned string has exactly the given bytes.
#[verifier::external_body]
fn bytes_to_string(v: Vec<u8>) -> (r: Option<String>)
    ensures
        r is Some <==> valid_utf8(v@),
        r matches Some(s) ==> encode_utf8(s@) == v@,
{
    String::from_utf8(v).ok()
}

fn take_lit(s: &Vec<u8>, i: usize, b: u8) -> (r: Option<usize>)
    requires
        i <= s@.len(),
    ensures
        match dec_lit(s@.skip(i as int), b) {
            None => r is None,
            Some(rem) => {
                &&& r matches Some(j)
                &&& j == i + 1
                &&& j <= s@.len()
                &&& s@.skip(j as int) == rem
            },
        },
{
    let ghost suff = s@.skip(i as int);
    if i < s.len() && s[i] == b {
        proof {
            assert(suff[0] == b);
            assert(suff.drop_first() =~= s@.skip(i + 1));
        }
        Some(i + 1)
    } else {
        proof {
            if suff.len() > 0 {
                assert(suff[0] == s@[i as int]);
            }
        }
        None
    }
}

fn take_jstr(s: &Vec<u8>, i: usize) -> (r: Option<(String, usize)>)
    requires
        i <= s@.len(),
    ensures
        match dec_jstr(s@.skip(i as int)) {
            None => r is None,
            Some((x, rem)) => {
                &&& r matches Some((st, j))
                &&& st@ == x
                &&& i < j <= s@.len()
                &&& s@.skip(j as int) == rem
            },
        },
{
    let ghost suff = s@.skip(i as int);
    if i < s.len() && s[i] == QUOTE {
        proof {
            assert(suff[0] == QUOTE);
            assert(suff.drop_first() =~= s@.skip(i + 1));
        }
        match unescape_from(s, i + 1) {
            None => None,
            Some((bytes, j)) => {
                let ghost d = bytes@;
                match bytes_to_string(bytes) {
                    None => None,
                    Some(st) => {
                        proof {
                            encode_utf8_valid_utf8(st@);
                            encode_utf8_decode_utf8(st@);
                        }
                        Some((st, j))
                    },
                }
            },
        }
    } else {
        proof {
            if suff.len() > 0 {
                assert(suff[0] == s@[i as int]);
            }
        }
        None
    }
}

fn take_key(s: &Vec<u8>, i: usize, k: &str) -> (r: Option<usize>)
    requires
        i <= s@.len(),
    ensures
        match dec_key(s@.skip(i as int), k@) {
            None => r is None,
            Some(rem) => {
                &&& r matches Some(j)
                &&& i < j <= s@.len()
                &&& s@.skip(j as int) == rem
            },
        },
{
    match take_jstr(s, i) {
        None => None,
        Some((st, j1)) => {
            if st == String::from_str(k) {
                take_lit(s, j1, COLON)
            } else {
                None
            }
        },
    }
}

fn take_str_member(s: &Vec<u8>, i: usize, k: &str) -> (r: Option<(String, usize)>)
    requires
        i <= s@.len(),
    ensures
        match dec_str_member(s@.skip(i as int), k@) {
            None => r is None,
            Some((x, rem)) => {
                &&& r matches Some((st, j))
                &&& st@ == x
                &&& i < j <= s@.len()
                &&& s@.skip(j as int) == rem
            },
        },
{
    match take_key(s, i, k) {
        None => None,
        Some(j1) => take_jstr(s, j1),
    }
}

fn take_opt_member(s: &Vec<u8>, i: usize, k: &str) -> (r: Option<(Option<String>, usize)>)
    requires
        i <= s@.len(),
    ensures
        match dec_opt_member(s@.skip(i as int), k@) {
            None => r is None,
            Some((o, rem)) => {
                &&& r matches Some((ov, j))
                &&& opt_view(ov) == o
                &&& i < j <= s@.len()
                &&& s@.skip(j as int) == rem
            },
        },
{
    match take_lit(s, i, COMMA) {
        Some(j1) => match take_str_member(s, j1, k) {
            None => None,
            Some((v, j2)) => match take_lit(s, j2, RBRACE) {
                None => None,
                Some(j3) => Some((Some(v), j3)),
            },
        },
        None => match take_lit(s, i, RBRACE) {
            None => None,
            Some(j1) => Some((None, j1)),
        },
    }
}

/// Prepend already-parsed pairs to a header-decoder outcome.
spec fn hdrs_prepend(
    acc: Seq<(Seq<char>, Seq<char>)>,
    o: Option<(Seq<(Seq<char>, Seq<char>)>, Seq<u8>)>,
) -> Option<(Seq<(Seq<char>, Seq<char>)>, Seq<u8>)> {
    match o {
        None => None,
        Some((hs, r)) => Some((acc + hs, r)),
    }
}

proof fn lemma_hdrs_prepend_assoc(
    a: Seq<(Seq<char>, Seq<char>)>,
    c: Seq<(Seq<char>, Seq<char>)>,
    o: Option<(Seq<(Seq<char>, Seq<char>)>, Seq<u8>)>,
)
    ensures
        hdrs_prepend(a, hdrs_prepend(c, o)) == hdrs_prepend(a + c, o),
{
    match o {
        None => {},
        Some((d, r)) => {
            assert(a + (c + d) =~= (a + c) + d);
        },
    }
}

proof fn lemma_headers_view_push(hs: Seq<(String, String)>, p: (String, String))
    ensures
        headers_view(hs.push(p)) == headers_view(hs).push((p.0@, p.1@)),
{
    assert(headers_view(hs.push(p)) =~= headers_view(hs).push((p.0@, p.1@)));
}

#[verifier::rlimit(80)]
fn take_headers(s: &Vec<u8>, i: usize) -> (r: Option<(Vec<(String, String)>, usize)>)
    requires
        i <= s@.len(),
    ensures
        match dec_headers(s@.skip(i as int)) {
            None => r is None,
            Some((hs, rem)) => {
                &&& r matches Some((hv, j))
                &&& headers_view(hv@) == hs
                &&& i <= j <= s@.len()
                &&& s@.skip(j as int) == rem
            },
        },
{
    let mut acc: Vec<(String, String)> = Vec::new();
    let mut pos = i;
    proof {
        assert(headers_view(acc@) =~= Seq::<(Seq<char>, Seq<char>)>::empty());
        match dec_headers(s@.skip(i as int)) {
            None => {},
            Some((hs, rem)) => {
                assert(headers_view(acc@) + hs =~= hs);
            },
        }
    }
    loop
        invariant
            i <= pos <= s@.len(),
            dec_headers(s@.skip(i as int)) == hdrs_prepend(
                headers_view(acc@),
                dec_headers(s@.skip(pos as int)),
            ),
        decreases s@.len() - pos,
    {
        let ghost suff = s@.skip(pos as int);
        if pos < s.len() && s[pos] == RBRACE {
            proof {
                assert(suff[0] == RBRACE);
                assert(suff.drop_first() =~= s@.skip(pos + 1));
                match dec_headers(s@.skip(pos + 1)) {
                    _ => {},
                }
                assert(headers_view(acc@) + Seq::<(Seq<char>, Seq<char>)>::empty() =~= headers_view(
                    acc@,
                ));
            }
            return Some((acc, pos + 1));
        }
        proof {
            if suff.len() > 0 {
                assert(suff[0] == s@[pos as int]);
            }
            assert(dec_lit(suff, RBRACE) is None);
        }
        let kj = take_jstr(s, pos);
        let (k, j1) = match kj {
            Some(x) => x,
            None => {
                return None;
            },
        };
        let j2 = match take_lit(s, j1, COLON) {
            Some(x) => x,
            None => {
                return None;
            },
        };
        let vj = take_jstr(s, j2);
        let (v, j3) = match vj {
            Some(x) => x,
            None => {
                return None;
            },
        };
        if j3 < s.len() && s[j3] == COMMA {
            let ghost rest3 = s@.skip(j3 as int);
            let ghost a0 = headers_view(acc@);
            let ghost pv = (k@, v@);
            acc.push((k, v));
            proof {
                assert(rest3[0] == COMMA);
                assert(rest3.drop_first() =~= s@.skip(j3 + 1));
                assert(s@.skip(j3 + 1).len() < suff.len());
                assert(dec_headers(suff) == hdrs_prepend(
                    seq![pv],
                    dec_headers(s@.skip(j3 + 1)),
                ));
                lemma_hdrs_prepend_assoc(a0, seq![pv], dec_headers(s@.skip(j3 + 1)));
                lemma_headers_view_push(acc@.drop_last(), (k, v));
                assert(acc@.drop_last().push((k, v)) =~= acc@);
                assert(a0 + seq![pv] =~= headers_view(acc@));
            }
            pos = j3 + 1;
        } else if j3 < s.len() && s[j3] == RBRACE {
            let ghost rest3 = s@.skip(j3 as int);
            let ghost a0 = headers_view(acc@);
            let ghost pv = (k@, v@);
            acc.push((k, v));
            proof {
                assert(rest3[0] == RBRACE);
                assert(dec_lit(rest3, COMMA) is None);
                assert(rest3.drop_first() =~= s@.skip(j3 + 1));
                assert(dec_headers(suff) == Some((seq![pv], s@.skip(j3 + 1))));
                lemma_headers_view_push(acc@.drop_last(), (k, v));
                assert(acc@.drop_last().push((k, v)) =~= acc@);
                assert(a0 + seq![pv] =~= headers_view(acc@));
            }
            return Some((acc, j3 + 1));
        } else {
            proof {
                let rest3 = s@.skip(j3 as int);
                if rest3.len() > 0 {
                    assert(rest3[0] == s@[j3 as int]);
                }
                assert(dec_lit(rest3, COMMA) is None);
                assert(dec_lit(rest3, RBRACE) is None);
            }
            return None;
        }
    }
}

fn take_init_obj(s: &Vec<u8>, i: usize) -> (r: Option<(InitPayload, usize)>)
    requires
        i <= s@.len(),
    ensures
        match dec_init_obj(s@.skip(i as int)) {
            None => r is None,
            Some((ip, rem)) => {
                &&& r matches Some((pv, j))
                &&& pv@ == ip
                &&& i < j <= s@.len()
                &&& s@.skip(j as int) == rem
            },
        },
{
    let j0 = match take_lit(s, i, LBRACE) {
        Some(x) => x,
        None => {
            return None;
        },
    };
    let (v1, j1) = match take_str_member(s, j0, "instance_id") {
        Some(x) => x,
        None => {
            return None;
        },
    };
    let j2 = match take_lit(s, j1, COMMA) {
        Some(x) => x,
        None => {
            return None;
        },
    };
    let (v2, j3) = match take_str_member(s, j2, "plugin_socket") {
        Some(x) => x,
        None => {
            return None;
        },
    };
    let j4 = match take_lit(s, j3, COMMA) {
        Some(x) => x,
        None => {
            return None;
        },
    };
    let (v3, j5) = match take_str_member(s, j4, "log_path") {
        Some(x) => x,
        None => {
            return None;
        },
    };
    let j6 = match take_lit(s, j5, RBRACE) {
        Some(x) => x,
        None => {
            return None;
        },
    };
    Some((InitPayload { instance_id: v1, plugin_socket: v2, log_path: v3 }, j6))
}

#[verifier::rlimit(80)]
fn take_lifecycle(s: &Vec<u8>, i: usize) -> (r: Result<Envelope, ProtocolError>)
    requires
        i <= s@.len(),
    ensures
        match dec_lifecycle(s@.skip(i as int)) {
            None => r == Err::<Envelope, ProtocolError>(ProtocolError::MalformedEnvelope),
            Some(v) => {
                &&& r matches Ok(env)
                &&& env@ == v
            },
        },
{
    let j0 = match take_lit(s, i, COMMA) {
        Some(x) => x,
        None => {
            return Err(ProtocolError::MalformedEnvelope);
        },
    };
    let j1 = match take_key(s, j0, "payload") {
        Some(x) => x,
        None => {
            return Err(ProtocolError::MalformedEnvelope);
        },
    };
    let j2 = match take_lit(s, j1, LBRACE) {
        Some(x) => x,
        None => {
            return Err(ProtocolError::MalformedEnvelope);
        },
    };
    let (act, j3) = match take_str_member(s, j2, "action") {
        Some(x) => x,
        None => {
            return Err(ProtocolError::MalformedEnvelope);
        },
    };
    let action: LifecycleAction = if act == String::from_str("init") {
        LifecycleAction::Init
    } else if act == String::from_str("shutdown") {
        LifecycleAction::Shutdown
    } else {
        return Err(ProtocolError::MalformedEnvelope);
    };
    match take_lit(s, j3, COMMA) {
        Some(j4) => {
            let j5 = match take_key(s, j4, "payload") {
                Some(x) => x,
                None => {
                    return Err(ProtocolError::MalformedEnvelope);
                },
            };
            let (ip, j6) = match take_init_obj(s, j5) {
                Some(x) => x,
                None => {
                    return Err(ProtocolError::MalformedEnvelope);
                },
            };
            let j7 = match take_lit(s, j6, RBRACE) {
                Some(x) => x,
                None => {
                    return Err(ProtocolError::MalformedEnvelope);
                },
            };
            let j8 = match take_lit(s, j7, RBRACE) {
                Some(x) => x,
                None => {
                    return Err(ProtocolError::MalformedEnvelope);
                },
            };
            if j8 == s.len() {
                Ok(Envelope::Lifecycle { action, payload: Some(ip) })
            } else {
                Err(ProtocolError::MalformedEnvelope)
            }
        },
        None => {
            let j4 = match take_lit(s, j3, RBRACE) {
                Some(x) => x,
                None => {
                    return Err(ProtocolError::MalformedEnvelope);
                },
            };
            let j5 = match take_lit(s, j4, RBRACE) {
                Some(x) => x,
                None => {
                    return Err(ProtocolError::MalformedEnvelope);
                },
            };
            if j5 == s.len() {
                Ok(Envelope::Lifecycle { action, payload: None })
            } else {
                Err(ProtocolError::MalformedEnvelope)
            }
        },
    }
}

#[verifier::rlimit(80)]
fn take_http_request(s: &Vec<u8>, i: usize, rid: String) -> (r: Result<Envelope, ProtocolError>)
    requires
        i <= s@.len(),
    ensures
        match dec_http_request(rid@, s@.skip(i as int)) {
            None => r == Err::<Envelope, ProtocolError>(ProtocolError::MalformedEnvelope),
            Some(v) => {
                &&& r matches Ok(env)
                &&& env@ == v
            },
        },
{
    let j0 = match take_lit(s, i, COLON) {
        Some(x) => x,
        None => {
            return Err(ProtocolError::MalformedEnvelope);
        },
    };
    let (m, j1) = match take_jstr(s, j0) {
        Some(x) => x,
        None => {
            return Err(ProtocolError::MalformedEnvelope);
        },
    };
    let j2 = match take_lit(s, j1, COMMA) {
        Some(x) => x,
        None => {
            return Err(ProtocolError::MalformedEnvelope);
        },
    };
    let (p, j3) = match take_str_member(s, j2, "path") {
        Some(x) => x,
        None => {
            return Err(ProtocolError::MalformedEnvelope);
        },
    };
    let j4 = match take_lit(s, j3, COMMA) {
        Some(x) => x,
        None => {
            return Err(ProtocolError::MalformedEnvelope);
        },
    };
    let j5 = match take_key(s, j4, "headers") {
        Some(x) => x,
        None => {
            return Err(ProtocolError::MalformedEnvelope);
        },
    };
    let j6 = match take_lit(s, j5, LBRACE) {
        Some(x) => x,
        None => {
            return Err(ProtocolError::MalformedEnvelope);
        },
    };
    let (hs, j7) = match take_headers(s, j6) {
        Some(x) => x,
        None => {
            return Err(ProtocolError::MalformedEnvelope);
        },
    };
    let (b, j8) = match take_opt_member(s, j7, "body") {
        Some(x) => x,
        None => {
            return Err(ProtocolError::MalformedEnvelope);
        },
    };
    let j9 = match take_lit(s, j8, RBRACE) {
        Some(x) => x,
        None => {
            return Err(ProtocolError::MalformedEnvelope);
        },
    };
    if j9 == s.len() {
        Ok(Envelope::HttpRequest { request_id: rid, method: m, path: p, headers: hs, body: b })
    } else {
        Err(ProtocolError::MalformedEnvelope)
    }
}

#[verifier::rlimit(80)]
fn take_http_response(s: &Vec<u8>, i: usize, rid: String) -> (r: Result<Envelope, ProtocolError>)
    requires
        i <= s@.len(),
    ensures
        match dec_http_response(rid@, s@.skip(i as int)) {
            None => r == Err::<Envelope, ProtocolError>(ProtocolError::MalformedEnvelope),
            Some(v) => {
                &&& r matches Ok(env)
                &&& env@ == v
            },
        },
{
    let j0 = match take_lit(s, i, COLON) {
        Some(x) => x,
        None => {
            return Err(ProtocolError::MalformedEnvelope);
        },
    };
    let (st, j1) = match parse_dec_from(s, j0, 65535) {
        Some(x) => x,
        None => {
            return Err(ProtocolError::MalformedEnvelope);
        },
    };
    let j2 = match take_lit(s, j1, COMMA) {
        Some(x) => x,
        None => {
            return Err(ProtocolError::MalformedEnvelope);
        },
    };
    let j3 = match take_key(s, j2, "headers") {
        Some(x) => x,
        None => {
            return Err(ProtocolError::MalformedEnvelope);
        },
    };
    let j4 = match take_lit(s, j3, LBRACE) {
        Some(x) => x,
        None => {
            return Err(ProtocolError::MalformedEnvelope);
        },
    };
    let (hs, j5) = match take_headers(s, j4) {
        Some(x) => x,
        None => {
            return Err(ProtocolError::MalformedEnvelope);
        },
    };
    let (b, j6) = match take_opt_member(s, j5, "body") {
        Some(x) => x,
        None => {
            return Err(ProtocolError::MalformedEnvelope);
        },
    };
    let j7 = match take_lit(s, j6, RBRACE) {
        Some(x) => x,
        None => {
            return Err(ProtocolError::MalformedEnvelope);
        },
    };
    if j7 == s.len() {
        Ok(
            Envelope::HttpResponse {
                request_id: rid,
                status: st as u16,
                headers: hs,
                body: b,
            },
        )
    } else {
        Err(ProtocolError::MalformedEnvelope)
    }
}

#[verifier::rlimit(80)]
fn take_kv_request(s: &Vec<u8>, i: usize, rid: String) -> (r: Result<Envelope, ProtocolError>)
    requires
        i <= s@.len(),
    ensures
        match dec_kv_request(rid@, s@.skip(i as int)) {
            None => r == Err::<Envelope, ProtocolError>(ProtocolError::MalformedEnvelope),
            Some(v) => {
                &&& r matches Ok(env)
                &&& env@ == v
            },
        },
{
    let j0 = match take_lit(s, i, COLON) {
        Some(x) => x,
        None => {
            return Err(ProtocolError::MalformedEnvelope);
        },
    };
    let (opname, j1) = match take_jstr(s, j0) {
        Some(x) => x,
        None => {
            return Err(ProtocolError::MalformedEnvelope);
        },
    };
    let op: KvAction = if opname == String::from_str("get") {
        KvAction::Get
    } else if opname == String::from_str("set") {
        KvAction::Put
    } else if opname == String::from_str("delete") {
        KvAction::Delete
    } else {
        return Err(ProtocolError::MalformedEnvelope);
    };
    let j2 = match take_lit(s, j1, COMMA) {
        Some(x) => x,
        None => {
            return Err(ProtocolError::MalformedEnvelope);
        },
    };
    let (k, j3) = match take_str_member(s, j2, "key") {
        Some(x) => x,
        None => {
            return Err(ProtocolError::MalformedEnvelope);
        },
    };
    let (v, j4) = match take_opt_member(s, j3, "value") {
        Some(x) => x,
        None => {
            return Err(ProtocolError::MalformedEnvelope);
        },
    };
    let j5 = match take_lit(s, j4, RBRACE) {
        Some(x) => x,
        None => {
            return Err(ProtocolError::MalformedEnvelope);
        },
    };
    if j5 == s.len() {
        Ok(Envelope::KvRequest { request_id: rid, op, key: k, value: v })
    } else {
        Err(ProtocolError::MalformedEnvelope)
    }
}

fn take_kv_response(s: &Vec<u8>, i: usize, rid: String) -> (r: Result<Envelope, ProtocolError>)
    requires
        i <= s@.len(),
    ensures
        match dec_kv_response(rid@, s@.skip(i as int)) {
            None => r == Err::<Envelope, ProtocolError>(ProtocolError::MalformedEnvelope),
            Some(v) => {
                &&& r matches Ok(env)
                &&& env@ == v
            },
        },
{
    let j0 = match take_lit(s, i, COLON) {
        Some(x) => x,
        None => {
            return Err(ProtocolError::MalformedEnvelope);
        },
    };
    let (v, j1) = match take_jstr(s, j0) {
        Some(x) => x,
        None => {
            return Err(ProtocolError::MalformedEnvelope);
        },
    };
    let j2 = match take_lit(s, j1, RBRACE) {
        Some(x) => x,
        None => {
            return Err(ProtocolError::MalformedEnvelope);
        },
    };
    let j3 = match take_lit(s, j2, RBRACE) {
        Some(x) => x,
        None => {
            return Err(ProtocolError::MalformedEnvelope);
        },
    };
    if j3 == s.len() {
        Ok(Envelope::KvResponse { request_id: rid, value: Some(v) })
    } else {
        Err(ProtocolError::MalformedEnvelope)
    }
}

#[verifier::rlimit(80)]
fn take_http(s: &Vec<u8>, i: usize) -> (r: Result<Envelope, ProtocolError>)
    requires
        i <= s@.len(),
    ensures
        match dec_http(s@.skip(i as int)) {
            None => r == Err::<Envelope, ProtocolError>(ProtocolError::MalformedEnvelope),
            Some(v) => {
                &&& r matches Ok(env)
                &&& env@ == v
            },
        },
{
    let j0 = match take_lit(s, i, COMMA) {
        Some(x) => x,
        None => {
            return Err(ProtocolError::MalformedEnvelope);
        },
    };
    let (rid, j1) = match take_str_member(s, j0, "request_id") {
        Some(x) => x,
        None => {
            return Err(ProtocolError::MalformedEnvelope);
        },
    };
    let j2 = match take_lit(s, j1, COMMA) {
        Some(x) => x,
        None => {
            return Err(ProtocolError::MalformedEnvelope);
        },
    };
    let j3 = match take_key(s, j2, "payload") {
        Some(x) => x,
        None => {
            return Err(ProtocolError::MalformedEnvelope);
        },
    };
    let j4 = match take_lit(s, j3, LBRACE) {
        Some(x) => x,
        None => {
            return Err(ProtocolError::MalformedEnvelope);
        },
    };
    let (k1, j5) = match take_jstr(s, j4) {
        Some(x) => x,
        None => {
            return Err(ProtocolError::MalformedEnvelope);
        },
    };
    if k1 == String::from_str("method") {
        take_http_request(s, j5, rid)
    } else if k1 == String::from_str("status") {
        take_http_response(s, j5, rid)
    } else {
        Err(ProtocolError::MalformedEnvelope)
    }
}

#[verifier::rlimit(80)]
fn take_kv(s: &Vec<u8>, i: usize) -> (r: Result<Envelope, ProtocolError>)
    requires
        i <= s@.len(),
    ensures
        match dec_kv(s@.skip(i as int)) {
            None => r == Err::<Envelope, ProtocolError>(ProtocolError::MalformedEnvelope),
            Some(v) => {
                &&& r matches Ok(env)
                &&& env@ == v
            },
        },
{
    let j0 = match take_lit(s, i, COMMA) {
        Some(x) => x,
        None => {
            return Err(ProtocolError::MalformedEnvelope);
        },
    };
    let (rid, j1) = match take_str_member(s, j0, "request_id") {
        Some(x) => x,
        None => {
            return Err(ProtocolError::MalformedEnvelope);
        },
    };
    let j2 = match take_lit(s, j1, COMMA) {
        Some(x) => x,
        None => {
            return Err(ProtocolError::MalformedEnvelope);
        },
    };
    let j3 = match take_key(s, j2, "payload") {
        Some(x) => x,
        None => {
            return Err(ProtocolError::MalformedEnvelope);
        },
    };
    let j4 = match take_lit(s, j3, LBRACE) {
        Some(x) => x,
        None => {
            return Err(ProtocolError::MalformedEnvelope);
        },
    };
    match take_lit(s, j4, RBRACE) {
        Some(j5) => {
            let j6 = match take_lit(s, j5, RBRACE) {
                Some(x) => x,
                None => {
                    return Err(ProtocolError::MalformedEnvelope);
                },
            };
            if j6 == s.len() {
                Ok(Envelope::KvResponse { request_id: rid, value: None })
            } else {
                Err(ProtocolError::MalformedEnvelope)
            }
        },
        None => {
            let (k1, j5) = match take_jstr(s, j4) {
                Some(x) => x,
                None => {
                    return Err(ProtocolError::MalformedEnvelope);
                },
            };
            if k1 == String::from_str("op") {
                take_kv_request(s, j5, rid)
            } else if k1 == String::from_str("value") {
                take_kv_response(s, j5, rid)
            } else {
                Err(ProtocolError::MalformedEnvelope)
            }
        },
    }
}

/// Decode a frame payload into an envelope.  Succeeds exactly when the
/// payload is the canonical wire form of one envelope, and then returns it.
pub fn decode_envelope(buf: &Vec<u8>) -> (r: Result<Envelope, ProtocolError>)
    ensures
        match spec_decode(buf@) {
            None => r == Err::<Envelope, ProtocolError>(ProtocolError::MalformedEnvelope),
            Some(v) => {
                &&& r matches Ok(env)
                &&& env@ == v
            },
        },
{
    proof {
        assert(buf@.skip(0) =~= buf@);
    }
    let j0 = match take_lit(buf, 0, LBRACE) {
        Some(x) => x,
        None => {
            return Err(ProtocolError::MalformedEnvelope);
        },
    };
    let (mt, j1) = match take_str_member(buf, j0, "message_type") {
        Some(x) => x,
        None => {
            return Err(ProtocolError::MalformedEnvelope);
        },
    };
    if mt == String::from_str("lifecycle") {
        take_lifecycle(buf, j1)
    } else if mt == String::from_str("http") {
        take_http(buf, j1)
    } else if mt == String::from_str("kv") {
        take_kv(buf, j1)
    } else {
        Err(ProtocolError::MalformedEnvelope)
    }
}

} // verus!