//! Route dispatch and the forwarder's decisions.
//!
//! An inbound path of the form `<segment>[/<remainder>]` is split on its
//! first `/`; the segment is validated and looked up against the routes of
//! enabled plugins; the plugin-side path is rebuilt from the remainder and
//! the query string exactly.  A request envelope carries a fresh request
//! id, and a reply is accepted only when it is a response carrying the
//! same id.

use vstd::prelude::*;
use vstd::string::StrSliceExecFns;

use crate::envelope::{Envelope, EnvelopeV, headers_view, opt_view};
use crate::errors::{ForwardError, ProtocolError};
use crate::registry::contains_dotdot;
use crate::registry::check_contains_dotdot;
use crate::supervisor::PluginSupervisor;

verus! {

/// Deadline for one forwarded round trip, in milliseconds.
pub const FORWARD_TIMEOUT_MS: u64 = 30000;

/// How many times to poll for a plugin's socket file after a spawn.
pub const SOCKET_POLL_ATTEMPTS: u32 = 10;

/// Pause between two socket polls, in milliseconds.
pub const SOCKET_POLL_INTERVAL_MS: u64 = 100;

/// How long a kill waits for the child to exit before giving up, in
/// milliseconds; the signal has been sent either way.
pub const KILL_WAIT_MS: u64 = 5000;

/// Why a dispatched path did not reach a plugin.
#[derive(Debug, Clone, PartialEq, Eq, Structural)]
pub enum DispatchError {
    /// The route segment is malformed; surfaces as status 400.
    BadRequest,
    /// No enabled plugin owns the route; surfaces as status 404.
    NotFound,
}

/// The part of `s` before its first `/`, or all of `s`.
pub open spec fn seg_of(s: Seq<char>) -> Seq<char>
    decreases s.len(),
{
    if s.len() == 0 {
        s
    } else if s[0] == '/' {
        Seq::empty()
    } else {
        seq![s[0]] + seg_of(s.drop_first())
    }
}

/// The part of `s` after its first `/`, or empty.
pub open spec fn rest_of(s: Seq<char>) -> Seq<char>
    decreases s.len(),
{
    if s.len() == 0 {
        s
    } else if s[0] == '/' {
        s.drop_first()
    } else {
        rest_of(s.drop_first())
    }
}

proof fn lemma_split_at(s: Seq<char>, i: int)
    requires
        0 <= i < s.len(),
        s[i] == '/',
        forall|j: int| 0 <= j < i ==> s[j] != '/',
    ensures
        seg_of(s) == s.take(i),
        rest_of(s) == s.skip(i + 1),
    decreases i,
{
    if i == 0 {
        assert(s.take(0) =~= Seq::<char>::empty());
        assert(rest_of(s) == s.drop_first());
        assert(s.drop_first() =~= s.skip(1));
    } else {
        assert(s[0] != '/');
        assert(forall|j: int| 0 <= j < i - 1 ==> s.drop_first()[j] == s[j + 1]);
        lemma_split_at(s.drop_first(), i - 1);
        assert(seq![s[0]] + s.drop_first().take(i - 1) =~= s.take(i));
        assert(s.drop_first().skip(i) =~= s.skip(i + 1));
    }
}

proof fn lemma_split_none(s: Seq<char>)
    requires
        forall|j: int| 0 <= j < s.len() ==> s[j] != '/',
    ensures
        seg_of(s) == s,
        rest_of(s) =~= Seq::<char>::empty(),
    decreases s.len(),
{
    if s.len() > 0 {
        assert(forall|j: int| 0 <= j < s.len() - 1 ==> s.drop_first()[j] == s[j + 1]);
        lemma_split_none(s.drop_first());
        assert(seq![s[0]] + s.drop_first() =~= s);
    }
}

/// Split a routed path on its first `/` into the route segment and the
/// remainder.
pub fn split_route_path<'a>(path: &'a str) -> (r: (&'a str, &'a str))
    ensures
        r.0@ == seg_of(path@),
        r.1@ == rest_of(path@),
{
    let n = path.unicode_len();
    let mut i: usize = 0;
    while i < n
        invariant
            i <= n,
            n == path@.len(),
            forall|j: int| 0 <= j < i ==> path@[j] != '/',
        decreases n - i,
    {
        if path.get_char(i) == '/' {
            proof {
                lemma_split_at(path@, i as int);
            }
            let seg = path.substring_char(0, i);
            let rem = path.substring_char(i + 1, n);
            proof {
                assert(seg@ =~= path@.take(i as int));
                assert(rem@ =~= path@.skip(i + 1));
            }
            return (seg, rem);
        }
        i = i + 1;
    }
    proof {
        lemma_split_none(path@);
    }
    let seg = path.substring_char(0, n);
    let rem = path.substring_char(n, n);
    proof {
        assert(seg@ =~= path@);
        assert(rem@ =~= Seq::<char>::empty());
    }
    (seg, rem)
}

/// The path handed to the plugin: `/` + remainder, plus `?` + query when a
/// query string is present.  An empty remainder yields `/`.
pub open spec fn spec_plugin_path(rem: Seq<char>, q: Option<Seq<char>>) -> Seq<char> {
    seq!['/'] + rem + (match q {
        None => Seq::<char>::empty(),
        Some(qs) => seq!['?'] + qs,
    })
}

/// Build the plugin-side path from the remainder and the query string.
pub fn build_plugin_path(rem: &str, query: Option<&str>) -> (r: String)
    ensures
        r@ == spec_plugin_path(
            rem@,
            match query {
                None => None,
                Some(q) => Some(q@),
            },
        ),
{
    proof {
        reveal_strlit("/");
        reveal_strlit("?");
    }
    let mut out = String::from_str("/");
    out.append(rem);
    match query {
        None => {
            proof {
                assert(out@ =~= spec_plugin_path(rem@, None::<Seq<char>>));
            }
        },
        Some(q) => {
            out.append("?");
            out.append(q);
            proof {
                assert(out@ =~= spec_plugin_path(rem@, Some(q@)));
            }
        },
    }
    out
}

/// Resolve a routed path against the registry: split it, reject a segment
/// holding `..` outright, look the segment up among enabled plugins'
/// routes, and rebuild the plugin-side path.
pub fn resolve_route(sup: &PluginSupervisor, path: &str, query: Option<&str>) -> (r: Result<
    (String, String),
    DispatchError,
>)
    ensures
        contains_dotdot(seg_of(path@)) ==> r == Err::<(String, String), DispatchError>(
            DispatchError::BadRequest,
        ),
        !contains_dotdot(seg_of(path@)) && (forall|i: int|
            0 <= i < sup.spec_rows().len() ==> !((#[trigger] sup.spec_rows()[i]).enabled && (
            sup.spec_rows()[i].metadata matches Some(m) && m.route@ == seq!['/'] + seg_of(
                path@,
            )))) ==> r == Err::<(String, String), DispatchError>(DispatchError::NotFound),
        !contains_dotdot(seg_of(path@)) && (exists|i: int|
            0 <= i < sup.spec_rows().len() && (#[trigger] sup.spec_rows()[i]).enabled && (
            sup.spec_rows()[i].metadata matches Some(m) && m.route@ == seq!['/'] + seg_of(
                path@,
            ))) ==> r is Ok,
        match r {
            Ok((id, pp)) => {
                &&& !contains_dotdot(seg_of(path@))
                &&& exists|i: int|
                    0 <= i < sup.spec_rows().len() && (#[trigger] sup.spec_rows()[i]).enabled && (
                    sup.spec_rows()[i].metadata matches Some(m) && m.route@ == seq!['/'] + seg_of(
                        path@,
                    )) && sup.spec_rows()[i].id@ == id@
                &&& pp@ == spec_plugin_path(
                    rest_of(path@),
                    match query {
                        None => None,
                        Some(q) => Some(q@),
                    },
                )
            },
            Err(_) => true,
        },
{
    let (seg, rem) = split_route_path(path);
    if check_contains_dotdot(seg) {
        return Err(DispatchError::BadRequest);
    }
    proof {
        reveal_strlit("/");
    }
    let mut route = String::from_str("/");
    route.append(seg);
    proof {
        assert(route@ =~= seq!['/'] + seg_of(path@));
    }
    match sup.get_plugin_for_route(route.as_str()) {
        Some(id) => {
            let pp = build_plugin_path(rem, query);
            Ok((id, pp))
        },
        None => Err(DispatchError::NotFound),
    }
}

/// The correlation token of an envelope: `http` and `kv` messages carry
/// one, lifecycle messages carry none.
pub open spec fn spec_request_id(e: EnvelopeV) -> Option<Seq<char>> {
    match e {
        EnvelopeV::Lifecycle { .. } => None,
        EnvelopeV::HttpRequest { request_id, .. } => Some(request_id),
        EnvelopeV::HttpResponse { request_id, .. } => Some(request_id),
        EnvelopeV::KvRequest { request_id, .. } => Some(request_id),
        EnvelopeV::KvResponse { request_id, .. } => Some(request_id),
    }
}

/// The correlation token carried by `e`, if any.
pub fn envelope_request_id(e: &Envelope) -> (r: Option<&String>)
    ensures
        match spec_request_id(e@) {
            None => r is None,
            Some(x) => (r matches Some(s) && s@ == x),
        },
{
    match e {
        Envelope::Lifecycle { .. } => None,
        Envelope::HttpRequest { request_id, .. } => Some(request_id),
        Envelope::HttpResponse { request_id, .. } => Some(request_id),
        Envelope::KvRequest { request_id, .. } => Some(request_id),
        Envelope::KvResponse { request_id, .. } => Some(request_id),
    }
}

/// Relies on `uuid::Uuid::new_v4` and its `Display` form: a fresh random
/// version-4 UUID rendered as 36 hyphenated lowercase hex characters.
/// Nothing is assumed about which UUID comes back.
#[verifier::external_body]
fn fresh_request_id() -> (r: String)
    ensures
        r@.len() == 36,
{
    uuid::Uuid::new_v4().to_string()
}

/// Build an outbound HTTP request envelope carrying a fresh request id.
pub fn build_http_request(
    method: &str,
    path: &str,
    headers: Vec<(String, String)>,
    body: Option<String>,
) -> (r: Envelope)
    ensures
        r@ matches EnvelopeV::HttpRequest { request_id, method: m, path: p, headers: h, body: b }
            && m == method@ && p == path@ && h == headers_view(headers@) && b == opt_view(body)
            && request_id.len() == 36,
{
    Envelope::HttpRequest {
        request_id: fresh_request_id(),
        method: String::from_str(method),
        path: String::from_str(path),
        headers,
        body,
    }
}

/// Build an outbound KV request envelope carrying a fresh request id.
pub fn build_kv_request(op: crate::envelope::KvAction, key: &str, value: Option<String>) -> (r:
    Envelope)
    ensures
        r@ matches EnvelopeV::KvRequest { request_id, op: o, key: k, value: v } && o == op && k
            == key@ && v == opt_view(value) && request_id.len() == 36,
{
    Envelope::KvRequest {
        request_id: fresh_request_id(),
        op,
        key: String::from_str(key),
        value,
    }
}

/// Check that a reply to an HTTP request is an HTTP response carrying the
/// request's correlation token.  Accepts exactly then; a reply of another
/// shape is a protocol violation, and a response with another token is a
/// request-id mismatch.
pub fn match_http_response(request: &Envelope, response: &Envelope) -> (r: Result<
    (),
    ProtocolError,
>)
    ensures
        (r is Ok <==> (response@ matches EnvelopeV::HttpResponse { request_id: rid, .. }
            && spec_request_id(request@) == Some(rid))),
        (response@ matches EnvelopeV::HttpResponse { request_id: rid, .. } && spec_request_id(
            request@,
        ) != Some(rid)) ==> r == Err::<(), ProtocolError>(ProtocolError::RequestIdMismatch),
        !(response@ matches EnvelopeV::HttpResponse { .. }) ==> r == Err::<(), ProtocolError>(
            ProtocolError::MalformedEnvelope,
        ),
{
    match response {
        Envelope::HttpResponse { request_id, .. } => {
            match envelope_request_id(request) {
                Some(rid) => {
                    if *rid == *request_id {
                        Ok(())
                    } else {
                        Err(ProtocolError::RequestIdMismatch)
                    }
                },
                None => Err(ProtocolError::RequestIdMismatch),
            }
        },
        _ => Err(ProtocolError::MalformedEnvelope),
    }
}

/// HTTP status surfaced for a forwarding failure: an unavailable plugin is
/// 404 through the route dispatcher and 503 on a direct administrative
/// call; a timeout is 504; a broken reply is 502.
pub fn forward_error_status(e: &ForwardError, via_route: bool) -> (r: u16)
    ensures
        *e == ForwardError::PluginUnavailable && via_route ==> r == 404,
        *e == ForwardError::PluginUnavailable && !via_route ==> r == 503,
        *e == ForwardError::PluginTimeout ==> r == 504,
        *e == ForwardError::BadGateway ==> r == 502,
{
    match e {
        ForwardError::PluginUnavailable => if via_route {
            404
        } else {
            503
        },
        ForwardError::PluginTimeout => 504,
        ForwardError::BadGateway => 502,
    }
}

/// HTTP status surfaced for a dispatch failure: a malformed segment is
/// 400, an unknown route 404.
pub fn dispatch_error_status(e: &DispatchError) -> (r: u16)
    ensures
        *e == DispatchError::BadRequest ==> r == 400,
        *e == DispatchError::NotFound ==> r == 404,
{
    match e {
        DispatchError::BadRequest => 400,
        DispatchError::NotFound => 404,
    }
}

} // verus!
