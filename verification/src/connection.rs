//! The connection handler: from the raw request buffer to the bytes of the
//! response, by way of the cache, the parser, the route table and the
//! handlers.
//!
//! Reading from and writing to the connection are the caller's part. What
//! the caller read is handed over in a `RequestState`; what it has to write
//! comes back as bytes.

use crate::cache::{utc_now, Cached, ResponseCache, Timestamp};
use crate::digest::{fingerprint, sha256_digest};
use crate::fields::{has_name, Pair, StringMap};
use crate::json::{empty_object_text, json_object_text, json_text, JsonObject};
use crate::request::{decode, parse_request, parsed, utf8_lossy};
use crate::response::{render, rendered};
use crate::route::{find_route, Handler, RouteModel, RouteTable};
use crate::status::StatusRegistry;
use vstd::prelude::*;
use vstd::utf8::encode_utf8;

verus! {

/// The fixed parameters of a server.
#[derive(Clone, Debug)]
pub struct Config {
    pub bind_address: String,
    pub bind_port: u16,
    pub cache_retention_seconds: u64,
    pub cache_sweep_interval_seconds: u64,
    pub read_buffer_size: usize,
}

impl Config {
    /// The standard parameters: the loopback address, port 3000, a retention
    /// window and a sweep interval of 60 seconds, a buffer of 1024 bytes.
    pub fn standard() -> (config: Config)
        ensures
            config.bind_address@ == "127.0.0.1"@,
            config.bind_port == 3000,
            config.cache_retention_seconds == 60,
            config.cache_sweep_interval_seconds == 60,
            config.read_buffer_size == 1024,
    {
        Config {
            bind_address: "127.0.0.1".to_owned(),
            bind_port: 3000,
            cache_retention_seconds: 60,
            cache_sweep_interval_seconds: 60,
            read_buffer_size: 1024,
        }
    }
}

/// What one connection holds of its request: the raw buffer, and its
/// fingerprint once that has been computed.
#[derive(Clone, Debug)]
pub struct RequestState {
    pub request_buffer: Vec<u8>,
    pub request_hash: Option<Vec<u8>>,
}

impl RequestState {
    /// The state of a connection before anything was read: a buffer of
    /// `read_buffer_size` spaces and no fingerprint.
    pub fn new(read_buffer_size: usize) -> (state: RequestState)
        ensures
            state.request_buffer@ == Seq::new(read_buffer_size as nat, |i: int| 32u8),
            state.request_hash is None,
    {
        let request_buffer = vec![32u8; read_buffer_size];
        assert(request_buffer@ =~= Seq::new(read_buffer_size as nat, |i: int| 32u8));
        RequestState { request_buffer, request_hash: None }
    }
}

/// The model of what a handler hands to the renderer: a status code, the
/// headers that override the defaults, and the members of the body, if it
/// has one.
pub struct Reply {
    pub code: u16,
    pub headers: Seq<Pair>,
    pub body: Option<Seq<Pair>>,
}

/// The reply of `code` without header overrides and without a body.
pub open spec fn plain_reply(code: u16) -> Reply {
    Reply { code, headers: seq![], body: None }
}

/// The members of the body of the reply to an unknown path.
pub open spec fn not_found_members() -> Seq<Pair> {
    seq![("error"@, "The requested resource was not found."@)]
}

/// The reply to an unknown path.
pub open spec fn not_found_reply() -> Reply {
    Reply { code: 404, headers: seq![], body: Some(not_found_members()) }
}

/// The reply of a handler.
pub open spec fn handler_reply(handler: Handler) -> Reply {
    match handler {
        Handler::Status => plain_reply(200),
    }
}

/// The bytes of the body of a reply: the JSON text of the object with its
/// members, or `{}`, the object without members, where it has no body.
pub open spec fn body_bytes(body: Option<Seq<Pair>>) -> Seq<u8> {
    match body {
        Some(members) => encode_utf8(json_object_text(members)),
        None => encode_utf8(seq!['{', '}']),
    }
}

/// The bytes of the response that renders `reply`.
pub open spec fn reply_bytes(codes: Map<u16, Seq<char>>, reply: Reply) -> Seq<u8> {
    rendered(reply.code, codes[reply.code], reply.headers, body_bytes(reply.body))
}

/// The reply to the request text `text` when it is handled afresh: 400 where
/// its first line does not hold three tokens, the not-found reply where no
/// route has its path, 405 where the route does not accept its method, and
/// the reply of the route's handler otherwise.
pub open spec fn fresh_reply(routes: Seq<RouteModel>, text: Seq<char>) -> Reply {
    match parsed(text) {
        None => plain_reply(400),
        Some(request) => match find_route(routes, request.path) {
            None => not_found_reply(),
            Some(route) => if has_name(route.methods, request.method) {
                handler_reply(route.handler)
            } else {
                plain_reply(405)
            },
        },
    }
}

/// The response to the raw buffer `buffer` when it is handled afresh.
pub open spec fn fresh_response(
    codes: Map<u16, Seq<char>>,
    routes: Seq<RouteModel>,
    buffer: Seq<u8>,
) -> Seq<u8> {
    reply_bytes(codes, fresh_reply(routes, utf8_lossy(buffer)))
}

/// The response that is served for `buffer`: the one the cache holds under
/// the fingerprint of `buffer`, or else the fresh one.
pub open spec fn served(
    codes: Map<u16, Seq<char>>,
    routes: Seq<RouteModel>,
    cache: Map<Seq<u8>, Cached>,
    buffer: Seq<u8>,
) -> Seq<u8> {
    if cache.contains_key(sha256_digest(buffer)) {
        cache[sha256_digest(buffer)].response
    } else {
        fresh_response(codes, routes, buffer)
    }
}

/// The cache after `buffer` was served at `now`: unchanged on a hit, and with
/// the fresh response stored under the fingerprint of `buffer` otherwise.
pub open spec fn cache_after(
    codes: Map<u16, Seq<char>>,
    routes: Seq<RouteModel>,
    cache: Map<Seq<u8>, Cached>,
    buffer: Seq<u8>,
    now: Timestamp,
) -> Map<Seq<u8>, Cached> {
    if cache.contains_key(sha256_digest(buffer)) {
        cache
    } else {
        cache.insert(
            sha256_digest(buffer),
            Cached { response: fresh_response(codes, routes, buffer), created_at: now },
        )
    }
}

/// The cache after a response was rendered for a connection: with the
/// response stored under the fingerprint of the connection, where it has one.
pub open spec fn cache_with(
    cache: Map<Seq<u8>, Cached>,
    hash: Option<Vec<u8>>,
    response: Seq<u8>,
    now: Timestamp,
) -> Map<Seq<u8>, Cached> {
    match hash {
        Some(digest) => cache.insert(digest@, Cached { response, created_at: now }),
        None => cache,
    }
}

/// The status codes that the connection handler itself answers with.
pub open spec fn covers_core(codes: Map<u16, Seq<char>>) -> bool {
    &&& codes.contains_key(200)
    &&& codes.contains_key(400)
    &&& codes.contains_key(404)
    &&& codes.contains_key(405)
    &&& codes.contains_key(500)
}

/// The members of a body, if there is one.
pub open spec fn members_of(body: Option<JsonObject>) -> Option<Seq<Pair>> {
    match body {
        Some(object) => Some(object@),
        None => None,
    }
}

/// The header overrides, if there are any.
pub open spec fn overrides_of(headers: Option<StringMap>) -> Seq<Pair> {
    match headers {
        Some(map) => map@,
        None => seq![],
    }
}

/// Whether `codes` holds every status code that the connection handler
/// itself answers with.
pub fn has_core_codes(codes: &StatusRegistry) -> (r: bool)
    ensures
        r == covers_core(codes@),
{
    codes.contains(200) && codes.contains(400) && codes.contains(404) && codes.contains(405)
        && codes.contains(500)
}

/// Renders the response of `code` with the header overrides `headers` and
/// the body `body`. The reason phrase is the one that `codes` holds for
/// `code`; a body that is absent is rendered as the object without members.
pub fn render_reply(
    codes: &StatusRegistry,
    code: u16,
    headers: &Option<StringMap>,
    body: &Option<JsonObject>,
) -> (response: Vec<u8>)
    requires
        codes@.contains_key(code),
    ensures
        response@ == reply_bytes(
            codes@,
            Reply { code, headers: overrides_of(*headers), body: members_of(*body) },
        ),
{
    let text = match body {
        Some(object) => json_text(object),
        None => empty_object_text(),
    };
    let reason = codes.reason(code).unwrap();
    let none = StringMap::new();
    let overrides = match headers {
        Some(map) => map,
        None => &none,
    };
    render(code, reason.as_str(), overrides, text.as_str().as_bytes())
}

/// Renders the response of `code` with the header overrides `headers` and
/// the body `body`, stores it in the cache under the fingerprint of the
/// connection where that has been computed, and returns it.
pub fn return_response(
    state: &RequestState,
    codes: &StatusRegistry,
    cache: &mut ResponseCache,
    code: u16,
    headers: Option<StringMap>,
    body: Option<JsonObject>,
    now: Timestamp,
) -> (response: Vec<u8>)
    requires
        old(cache).wf(),
        codes@.contains_key(code),
    ensures
        final(cache).wf(),
        response@ == reply_bytes(
            codes@,
            Reply { code, headers: overrides_of(headers), body: members_of(body) },
        ),
        final(cache)@ == cache_with(old(cache)@, state.request_hash, response@, now),
{
    let response = render_reply(codes, code, &headers, &body);
    match &state.request_hash {
        Some(digest) => {
            cache.put(digest.clone(), response.clone(), now);
        },
        None => {},
    }
    response
}

/// The handler of the status route: answers 200 with the default headers and
/// body.
pub fn handle_path_status(
    state: &RequestState,
    codes: &StatusRegistry,
    cache: &mut ResponseCache,
    now: Timestamp,
) -> (response: Vec<u8>)
    requires
        old(cache).wf(),
        codes@.contains_key(200),
    ensures
        final(cache).wf(),
        response@ == reply_bytes(codes@, handler_reply(Handler::Status)),
        final(cache)@ == cache_with(old(cache)@, state.request_hash, response@, now),
{
    return_response(state, codes, cache, 200, None, None, now)
}

/// Answers a request for a path that no route has: 404 with a body whose
/// member `error` says that the resource was not found.
pub fn handle_404(
    state: &RequestState,
    codes: &StatusRegistry,
    cache: &mut ResponseCache,
    now: Timestamp,
) -> (response: Vec<u8>)
    requires
        old(cache).wf(),
        codes@.contains_key(404),
    ensures
        final(cache).wf(),
        response@ == reply_bytes(codes@, not_found_reply()),
        final(cache)@ == cache_with(old(cache)@, state.request_hash, response@, now),
{
    let mut body = JsonObject::new();
    body.insert("error", "The requested resource was not found.");
    assert(body@ == not_found_members());
    return_response(state, codes, cache, 404, None, Some(body), now)
}

/// Runs `handler` for the connection.
pub fn dispatch(
    handler: Handler,
    state: &RequestState,
    codes: &StatusRegistry,
    cache: &mut ResponseCache,
    now: Timestamp,
) -> (response: Vec<u8>)
    requires
        old(cache).wf(),
        codes@.contains_key(handler_reply(handler).code),
    ensures
        final(cache).wf(),
        response@ == reply_bytes(codes@, handler_reply(handler)),
        final(cache)@ == cache_with(old(cache)@, state.request_hash, response@, now),
{
    match handler {
        Handler::Status => handle_path_status(state, codes, cache, now),
    }
}

/// Answers a connection whose read failed: 500 with the default headers and
/// body. The cache is neither asked nor changed.
pub fn handle_read_failure(codes: &StatusRegistry) -> (response: Vec<u8>)
    requires
        codes@.contains_key(500),
    ensures
        response@ == reply_bytes(codes@, plain_reply(500)),
{
    render_reply(codes, 500, &None, &None)
}

/// What was served for a request.
#[derive(Clone, Debug)]
pub struct Outcome {
    /// The bytes to write to the connection.
    pub response: Vec<u8>,
    /// Whether the bytes come from the cache; otherwise the request was
    /// parsed, routed and answered afresh.
    pub replayed: bool,
}

/// Handles the request that was read into the buffer of `state`, at the time
/// `now`.
///
/// The fingerprint of the whole buffer is computed and kept in `state`. Where
/// the cache holds a response under it, that response is served as it is and
/// nothing else happens. Otherwise the request is parsed, routed and
/// answered, and the response is stored in the cache under the fingerprint,
/// whatever its status.
pub fn handle_request(
    state: &mut RequestState,
    codes: &StatusRegistry,
    routes: &RouteTable,
    cache: &mut ResponseCache,
    now: Timestamp,
) -> (outcome: Outcome)
    requires
        old(cache).wf(),
        covers_core(codes@),
    ensures
        final(cache).wf(),
        final(state).request_buffer == old(state).request_buffer,
        final(state).request_hash matches Some(digest) && digest@ == sha256_digest(
            old(state).request_buffer@,
        ),
        outcome.replayed == old(cache)@.contains_key(sha256_digest(old(state).request_buffer@)),
        outcome.response@ == served(codes@, routes@, old(cache)@, old(state).request_buffer@),
        final(cache)@ == cache_after(
            codes@,
            routes@,
            old(cache)@,
            old(state).request_buffer@,
            now,
        ),
{
    let digest = fingerprint(state.request_buffer.as_slice());
    match cache.get(digest.as_slice()) {
        Some(stored) => {
            let response = stored.clone();
            state.request_hash = Some(digest);
            return Outcome { response, replayed: true };
        },
        None => {},
    }
    state.request_hash = Some(digest);
    let text = decode(state.request_buffer.as_slice());
    let response = match parse_request(text.as_str()) {
        Err(_) => return_response(state, codes, cache, 400, None, None, now),
        Ok(request) => match routes.lookup(request.path.as_str()) {
            None => handle_404(state, codes, cache, now),
            Some(route) => if route.allows(request.method.as_str()) {
                dispatch(route.handler(), state, codes, cache, now)
            } else {
                return_response(state, codes, cache, 405, None, None, now)
            },
        },
    };
    Outcome { response, replayed: false }
}

/// Handles the request that was read into the buffer of `state`, at the time
/// that the clock shows.
pub fn handle_request_now(
    state: &mut RequestState,
    codes: &StatusRegistry,
    routes: &RouteTable,
    cache: &mut ResponseCache,
) -> (outcome: Outcome)
    requires
        old(cache).wf(),
        covers_core(codes@),
    ensures
        final(cache).wf(),
        final(state).request_buffer == old(state).request_buffer,
        final(state).request_hash matches Some(digest) && digest@ == sha256_digest(
            old(state).request_buffer@,
        ),
        outcome.replayed == old(cache)@.contains_key(sha256_digest(old(state).request_buffer@)),
        outcome.response@ == served(codes@, routes@, old(cache)@, old(state).request_buffer@),
        exists|now: Timestamp|
            final(cache)@ == cache_after(
                codes@,
                routes@,
                old(cache)@,
                old(state).request_buffer@,
                now,
            ),
{
    let now = utc_now();
    handle_request(state, codes, routes, cache, now)
}

} // verus!
