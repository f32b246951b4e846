//! What holds of the connection handler, the cache and the renderer for
//! every request, stated over their models.

use crate::cache::{expired, swept, Cached, Timestamp};
use crate::connection::{
    body_bytes, cache_after, fresh_reply, fresh_response, handler_reply, not_found_reply,
    plain_reply, served,
};
use crate::digest::sha256_digest;
use crate::fields::{has_name, Pair};
use crate::json::json_object_text;
use crate::request::{parsed, request_line_tokens};
use crate::response::{decimal, decimal_value, default_lines, given_lines, header_line, header_lines};
use crate::route::{find_route, RouteModel};
use vstd::prelude::*;
use vstd::utf8::encode_utf8;

verus! {

/// Once a buffer has been handled, its fingerprint is in the cache, and
/// handling the same bytes again serves the very response of the first time
/// and leaves the cache as it is. The second response does not depend on the
/// status registry or the route table in force at that time: neither the
/// parser, nor the router, nor a handler has a part in it.
pub proof fn lemma_second_handling_replays(
    codes: Map<u16, Seq<char>>,
    routes: Seq<RouteModel>,
    cache: Map<Seq<u8>, Cached>,
    buffer: Seq<u8>,
    first: Timestamp,
    later_codes: Map<u16, Seq<char>>,
    later_routes: Seq<RouteModel>,
    second: Timestamp,
)
    ensures
        cache_after(codes, routes, cache, buffer, first).contains_key(sha256_digest(buffer)),
        served(later_codes, later_routes, cache_after(codes, routes, cache, buffer, first), buffer)
            == served(codes, routes, cache, buffer),
        cache_after(
            later_codes,
            later_routes,
            cache_after(codes, routes, cache, buffer, first),
            buffer,
            second,
        ) == cache_after(codes, routes, cache, buffer, first),
{
}

/// A sweep within the retention window of an entry keeps it: the same bytes
/// are still answered with the response that was served first.
pub proof fn lemma_replay_within_retention(
    codes: Map<u16, Seq<char>>,
    routes: Seq<RouteModel>,
    cache: Map<Seq<u8>, Cached>,
    buffer: Seq<u8>,
    first: Timestamp,
    sweep: Timestamp,
    retention_secs: u64,
    later_codes: Map<u16, Seq<char>>,
    later_routes: Seq<RouteModel>,
)
    requires
        !expired(
            cache_after(codes, routes, cache, buffer, first)[sha256_digest(buffer)].created_at,
            sweep,
            retention_secs,
        ),
    ensures
        served(
            later_codes,
            later_routes,
            swept(cache_after(codes, routes, cache, buffer, first), sweep, retention_secs),
            buffer,
        ) == served(codes, routes, cache, buffer),
{
}

/// A sweep after the retention window of an entry has elapsed evicts it: the
/// same bytes are then handled afresh.
pub proof fn lemma_expired_entry_is_evicted(
    codes: Map<u16, Seq<char>>,
    routes: Seq<RouteModel>,
    cache: Map<Seq<u8>, Cached>,
    buffer: Seq<u8>,
    sweep: Timestamp,
    retention_secs: u64,
)
    requires
        cache.contains_key(sha256_digest(buffer)),
        expired(cache[sha256_digest(buffer)].created_at, sweep, retention_secs),
    ensures
        !swept(cache, sweep, retention_secs).contains_key(sha256_digest(buffer)),
        served(codes, routes, swept(cache, sweep, retention_secs), buffer) == fresh_response(
            codes,
            routes,
            buffer,
        ),
{
}

/// A sweep removes the expired entries and nothing else: what it keeps, it
/// keeps unchanged.
pub proof fn lemma_sweep_keeps_the_rest(
    cache: Map<Seq<u8>, Cached>,
    sweep: Timestamp,
    retention_secs: u64,
    key: Seq<u8>,
)
    requires
        cache.contains_key(key),
        !expired(cache[key].created_at, sweep, retention_secs),
    ensures
        swept(cache, sweep, retention_secs).contains_key(key),
        swept(cache, sweep, retention_secs)[key] == cache[key],
{
}

/// A request whose first line holds three tokens, whose path is registered
/// and whose method the route accepts gets the reply of the route's handler,
/// which is neither 404 nor 405.
pub proof fn lemma_allowed_request_reaches_handler(routes: Seq<RouteModel>, text: Seq<char>)
    requires
        request_line_tokens(text).len() == 3,
        find_route(routes, request_line_tokens(text)[1]) is Some,
        has_name(
            find_route(routes, request_line_tokens(text)[1])->0.methods,
            request_line_tokens(text)[0],
        ),
    ensures
        fresh_reply(routes, text) == handler_reply(
            find_route(routes, request_line_tokens(text)[1])->0.handler,
        ),
        fresh_reply(routes, text).code != 404,
        fresh_reply(routes, text).code != 405,
{
}

/// A request whose first line holds three tokens and whose path is not
/// registered gets 404, with the body whose member `error` says that the
/// resource was not found.
pub proof fn lemma_unknown_path_is_not_found(routes: Seq<RouteModel>, text: Seq<char>)
    requires
        request_line_tokens(text).len() == 3,
        find_route(routes, request_line_tokens(text)[1]) is None,
    ensures
        fresh_reply(routes, text) == not_found_reply(),
        fresh_reply(routes, text).code == 404,
        body_bytes(fresh_reply(routes, text).body) == encode_utf8(
            json_object_text(seq![("error"@, "The requested resource was not found."@)]),
        ),
{
}

/// A request for a registered path with a method that the route does not
/// accept gets 405, with the body `{}`.
pub proof fn lemma_disallowed_method_is_refused(routes: Seq<RouteModel>, text: Seq<char>)
    requires
        request_line_tokens(text).len() == 3,
        find_route(routes, request_line_tokens(text)[1]) is Some,
        !has_name(
            find_route(routes, request_line_tokens(text)[1])->0.methods,
            request_line_tokens(text)[0],
        ),
    ensures
        fresh_reply(routes, text) == plain_reply(405),
        fresh_reply(routes, text).code == 405,
        body_bytes(fresh_reply(routes, text).body) == encode_utf8(seq!['{', '}']),
{
}

/// A request whose first line does not hold exactly three tokens gets 400.
pub proof fn lemma_malformed_request_line_is_bad_request(routes: Seq<RouteModel>, text: Seq<char>)
    requires
        request_line_tokens(text).len() != 3,
    ensures
        parsed(text) is None,
        fresh_reply(routes, text) == plain_reply(400),
        fresh_reply(routes, text).code == 400,
{
}

/// The digits that `decimal` writes denote the number that it was given.
pub proof fn lemma_decimal_value(n: nat)
    ensures
        decimal_value(decimal(n)) == n,
        decimal(n).len() >= 1,
    decreases n,
{
    if n < 10 {
        assert(decimal(n).drop_last() =~= Seq::<u8>::empty());
        assert(decimal_value(Seq::<u8>::empty()) == 0);
    } else {
        lemma_decimal_value(n / 10);
        assert(decimal(n).drop_last() =~= decimal(n / 10));
    }
}

/// Where the caller gives no `Content-Length` header, the response has the
/// line of that header, its value are the decimal digits of the length of
/// the body in bytes, and no line of a given header bears that name.
pub proof fn lemma_content_length_is_body_length(headers: Seq<Pair>, body: Seq<u8>)
    requires
        !has_name(headers, "Content-Length"@),
    ensures
        header_lines(headers, body.len()).contains(
            header_line("Content-Length"@, decimal(body.len())),
        ),
        decimal_value(decimal(body.len())) == body.len(),
        forall|i: int| 0 <= i < headers.len() ==> (#[trigger] headers[i]).0 != "Content-Length"@,
{
    lemma_decimal_value(body.len());
    crate::fields::lemma_index_of(headers, "Content-Length"@);
    let lines = header_lines(headers, body.len());
    let defaults = default_lines(headers, body.len());
    let line = header_line("Content-Length"@, decimal(body.len()));
    let at: int = if has_name(headers, "Content-Type"@) {
        0
    } else {
        1
    };
    assert(defaults[at] == line);
    assert(lines[given_lines(headers).len() + at] == line);
}

/// Every reply of the connection handler leaves the default headers in
/// place, so that the length its response announces is that of its body.
pub proof fn lemma_fresh_reply_has_no_overrides(routes: Seq<RouteModel>, text: Seq<char>)
    ensures
        fresh_reply(routes, text).headers == Seq::<Pair>::empty(),
        !has_name(fresh_reply(routes, text).headers, "Content-Length"@),
{
}

} // verus!
