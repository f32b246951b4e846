use hotpocket::cache::{ResponseCache, Timestamp};
use hotpocket::connection::{
    dispatch, handle_404, handle_path_status, handle_read_failure, handle_request,
    handle_request_now, has_core_codes, render_reply, return_response, Config, RequestState,
};
use hotpocket::digest::fingerprint;
use hotpocket::fields::StringMap;
use hotpocket::json::JsonObject;
use hotpocket::route::{Handler, RouteTable};
use hotpocket::status::StatusRegistry;

const OK_RESPONSE: &str = "HTTP/1.1 200 OK\nContent-Type: application/json\r\n\
                           Content-Length: 2\r\nConnection: close\r\nServer: Hotpocket :3\r\n\
                           X-Frame-Options: SAMEORIGIN\r\n\r\n{}";

const NOT_FOUND_BODY: &str = "{\"error\":\"The requested resource was not found.\"}";

fn at(secs: i64) -> Timestamp {
    Timestamp { secs, nanos: 0 }
}

fn routes() -> RouteTable {
    let mut methods = StringMap::new();
    methods.insert("GET", "application/json");
    let mut table = RouteTable::new();
    table.register("/", Handler::Status, methods);
    table
}

fn state_of(request: &str) -> RequestState {
    let mut state = RequestState::new(1024);
    state.request_buffer[..request.len()].copy_from_slice(request.as_bytes());
    state
}

fn status_of(response: &[u8]) -> String {
    let text = String::from_utf8(response.to_vec()).unwrap();
    let line = text.split('\n').next().unwrap();
    line.split(' ').nth(1).unwrap().to_string()
}

fn body_of(response: &[u8]) -> String {
    let text = String::from_utf8(response.to_vec()).unwrap();
    let start = text.find("\r\n\r\n").unwrap() + 4;
    text[start..].to_string()
}

fn content_length_of(response: &[u8]) -> usize {
    let text = String::from_utf8(response.to_vec()).unwrap();
    let start = text.find("Content-Length: ").unwrap() + "Content-Length: ".len();
    let rest = &text[start..];
    let end = rest.find("\r\n").unwrap();
    rest[..end].parse().unwrap()
}

#[test]
fn standard_config_has_the_fixed_parameters() {
    let config = Config::standard();
    assert_eq!(config.bind_address, "127.0.0.1");
    assert_eq!(config.bind_port, 3000);
    assert_eq!(config.cache_retention_seconds, 60);
    assert_eq!(config.cache_sweep_interval_seconds, 60);
    assert_eq!(config.read_buffer_size, 1024);
}

#[test]
fn new_state_is_a_buffer_of_spaces_without_fingerprint() {
    let state = RequestState::new(1024);
    assert_eq!(state.request_buffer, vec![32u8; 1024]);
    assert_eq!(state.request_hash, None);
    assert_eq!(RequestState::new(0).request_buffer, Vec::<u8>::new());
}

#[test]
fn core_codes_are_in_the_standard_registry() {
    assert!(has_core_codes(&StatusRegistry::standard()));
    assert!(!has_core_codes(&StatusRegistry::new()));
    let mut codes = StatusRegistry::new();
    codes.register(200, "OK");
    codes.register(400, "Bad Request");
    codes.register(404, "Not Found");
    codes.register(405, "Method Not Allowed");
    assert!(!has_core_codes(&codes));
    codes.register(500, "Internal Server Error");
    assert!(has_core_codes(&codes));
}

#[test]
fn get_root_is_answered_200_and_cached_under_its_digest() {
    let codes = StatusRegistry::standard();
    let table = routes();
    let mut cache = ResponseCache::new();
    let mut state = state_of("GET / HTTP/1.1\r\nHost: x\r\n\r\n");
    let buffer = state.request_buffer.clone();
    let outcome = handle_request(&mut state, &codes, &table, &mut cache, at(1000));
    assert!(!outcome.replayed);
    assert_eq!(String::from_utf8(outcome.response.clone()).unwrap(), OK_RESPONSE);
    let digest = fingerprint(&buffer);
    assert_eq!(state.request_hash, Some(digest.clone()));
    assert_eq!(state.request_buffer, buffer);
    assert_eq!(cache.len(), 1);
    assert_eq!(cache.get(&digest), Some(&outcome.response));
    assert_eq!(cache.created_at(&digest), Some(at(1000)));
}

#[test]
fn delete_root_is_answered_405() {
    let codes = StatusRegistry::standard();
    let table = routes();
    let mut cache = ResponseCache::new();
    let mut state = state_of("DELETE / HTTP/1.1\r\nHost: x\r\n\r\n");
    let outcome = handle_request(&mut state, &codes, &table, &mut cache, at(1000));
    assert!(!outcome.replayed);
    assert_eq!(status_of(&outcome.response), "405");
    assert!(outcome.response.starts_with(b"HTTP/1.1 405 Method Not Allowed\n"));
    assert_eq!(body_of(&outcome.response), "{}");
    assert_eq!(content_length_of(&outcome.response), 2);
    assert_eq!(cache.get(&fingerprint(&state.request_buffer)), Some(&outcome.response));
}

#[test]
fn get_missing_is_answered_404_with_the_error_body() {
    let codes = StatusRegistry::standard();
    let table = routes();
    let mut cache = ResponseCache::new();
    let mut state = state_of("GET /missing HTTP/1.1\r\nHost: x\r\n\r\n");
    let outcome = handle_request(&mut state, &codes, &table, &mut cache, at(1000));
    assert!(!outcome.replayed);
    assert!(outcome.response.starts_with(b"HTTP/1.1 404 Not Found\n"));
    assert_eq!(body_of(&outcome.response), NOT_FOUND_BODY);
    assert_eq!(content_length_of(&outcome.response), NOT_FOUND_BODY.len());
    let body: serde_json::Value = serde_json::from_str(&body_of(&outcome.response)).unwrap();
    let mut expected = serde_json::Map::new();
    expected.insert(
        "error".to_string(),
        serde_json::Value::String("The requested resource was not found.".to_string()),
    );
    assert_eq!(body, serde_json::Value::Object(expected));
    assert_eq!(cache.get(&fingerprint(&state.request_buffer)), Some(&outcome.response));
}

#[test]
fn malformed_request_line_is_answered_400_and_cached() {
    let codes = StatusRegistry::standard();
    let table = routes();
    let mut cache = ResponseCache::new();
    for request in ["GET /\r\nHost: x\r\n\r\n", "GET / HTTP/1.1 more\r\n\r\n", "", "\r\nGET / HTTP/1.1"]
    {
        let mut state = state_of(request);
        let outcome = handle_request(&mut state, &codes, &table, &mut cache, at(1000));
        assert!(!outcome.replayed);
        assert!(outcome.response.starts_with(b"HTTP/1.1 400 Bad Request\n"));
        assert_eq!(body_of(&outcome.response), "{}");
        assert_eq!(cache.get(&fingerprint(&state.request_buffer)), Some(&outcome.response));
    }
    assert_eq!(cache.len(), 4);
}

#[test]
fn malformed_header_line_does_not_change_the_answer() {
    let codes = StatusRegistry::standard();
    let table = routes();
    let mut cache = ResponseCache::new();
    let mut state = state_of("GET / HTTP/1.1\r\nno separator here\r\n\r\n");
    let outcome = handle_request(&mut state, &codes, &table, &mut cache, at(1000));
    assert_eq!(String::from_utf8(outcome.response).unwrap(), OK_RESPONSE);
}

#[test]
fn identical_bytes_are_replayed_from_the_cache() {
    let codes = StatusRegistry::standard();
    let table = routes();
    let mut cache = ResponseCache::new();
    let mut first = state_of("GET / HTTP/1.1\r\nHost: x\r\n\r\n");
    let served = handle_request(&mut first, &codes, &table, &mut cache, at(1000));
    assert!(!served.replayed);

    // Neither the routes nor the registry in force have a part in a replay.
    let other_routes = RouteTable::new();
    let mut other_codes = StatusRegistry::standard();
    other_codes.register(200, "Fine");
    let mut second = state_of("GET / HTTP/1.1\r\nHost: x\r\n\r\n");
    let replay = handle_request(&mut second, &other_codes, &other_routes, &mut cache, at(1030));
    assert!(replay.replayed);
    assert_eq!(replay.response, served.response);
    assert_eq!(cache.len(), 1);
    assert_eq!(cache.created_at(&fingerprint(&second.request_buffer)), Some(at(1000)));
}

#[test]
fn different_bytes_of_the_same_request_miss_the_cache() {
    let codes = StatusRegistry::standard();
    let table = routes();
    let mut cache = ResponseCache::new();
    let mut first = state_of("GET / HTTP/1.1\r\nHost: x\r\n\r\n");
    handle_request(&mut first, &codes, &table, &mut cache, at(1000));
    let mut second = state_of("GET / HTTP/1.1\r\nHost: x\r\n\r\n ");
    second.request_buffer.push(b' ');
    let outcome = handle_request(&mut second, &codes, &table, &mut cache, at(1001));
    assert!(!outcome.replayed);
    assert_eq!(cache.len(), 2);
}

#[test]
fn error_responses_are_replayed_too() {
    let codes = StatusRegistry::standard();
    let mut cache = ResponseCache::new();
    let mut first = state_of("GET /later HTTP/1.1\r\n\r\n");
    let missing = handle_request(&mut first, &codes, &routes(), &mut cache, at(1000));
    assert_eq!(status_of(&missing.response), "404");

    let mut table = routes();
    let mut methods = StringMap::new();
    methods.insert("GET", "application/json");
    table.register("/later", Handler::Status, methods);
    let mut second = state_of("GET /later HTTP/1.1\r\n\r\n");
    let replay = handle_request(&mut second, &codes, &table, &mut cache, at(1010));
    assert!(replay.replayed);
    assert_eq!(replay.response, missing.response);
}

#[test]
fn sweep_within_the_window_keeps_the_entry() {
    let codes = StatusRegistry::standard();
    let table = routes();
    let mut cache = ResponseCache::new();
    let mut first = state_of("GET / HTTP/1.1\r\n\r\n");
    let served = handle_request(&mut first, &codes, &table, &mut cache, at(1000));
    cache.sweep(at(1060), 60);
    let mut second = state_of("GET / HTTP/1.1\r\n\r\n");
    let replay = handle_request(&mut second, &codes, &table, &mut cache, at(1061));
    assert!(replay.replayed);
    assert_eq!(replay.response, served.response);
}

#[test]
fn sweep_after_the_window_makes_the_next_request_fresh() {
    let codes = StatusRegistry::standard();
    let table = routes();
    let mut cache = ResponseCache::new();
    let mut first = state_of("GET / HTTP/1.1\r\n\r\n");
    handle_request(&mut first, &codes, &table, &mut cache, at(1000));
    cache.sweep(at(1061), 60);
    assert_eq!(cache.len(), 0);
    let mut second = state_of("GET / HTTP/1.1\r\n\r\n");
    let outcome = handle_request(&mut second, &codes, &table, &mut cache, at(1062));
    assert!(!outcome.replayed);
    assert_eq!(String::from_utf8(outcome.response).unwrap(), OK_RESPONSE);
    assert_eq!(cache.created_at(&fingerprint(&second.request_buffer)), Some(at(1062)));
}

#[test]
fn without_a_sweep_an_aged_entry_is_still_replayed() {
    let codes = StatusRegistry::standard();
    let table = routes();
    let mut cache = ResponseCache::new();
    let mut first = state_of("GET / HTTP/1.1\r\n\r\n");
    handle_request(&mut first, &codes, &table, &mut cache, at(1000));
    let mut second = state_of("GET / HTTP/1.1\r\n\r\n");
    let outcome = handle_request(&mut second, &codes, &table, &mut cache, at(9000));
    assert!(outcome.replayed);
}

#[test]
fn read_failure_is_answered_500() {
    let codes = StatusRegistry::standard();
    let response = handle_read_failure(&codes);
    assert!(response.starts_with(b"HTTP/1.1 500 Internal Server Error\n"));
    assert_eq!(body_of(&response), "{}");
    assert_eq!(content_length_of(&response), 2);
}

#[test]
fn return_response_without_fingerprint_leaves_the_cache() {
    let codes = StatusRegistry::standard();
    let mut cache = ResponseCache::new();
    let state = RequestState::new(8);
    let response = return_response(&state, &codes, &mut cache, 201, None, None, at(5));
    assert!(response.starts_with(b"HTTP/1.1 201 Created\n"));
    assert_eq!(cache.len(), 0);
}

#[test]
fn return_response_with_fingerprint_overwrites_the_entry() {
    let codes = StatusRegistry::standard();
    let mut cache = ResponseCache::new();
    let mut state = RequestState::new(8);
    state.request_hash = Some(b"digest".to_vec());
    cache.put(b"digest".to_vec(), b"stale".to_vec(), at(1));
    let mut headers = StringMap::new();
    headers.insert("Content-Type", "text/plain");
    let mut body = JsonObject::new();
    body.insert("status", "created");
    let response =
        return_response(&state, &codes, &mut cache, 201, Some(headers), Some(body), at(5));
    let expected = "HTTP/1.1 201 Created\nContent-Type: text/plain\r\nContent-Length: 20\r\n\
                    Connection: close\r\nServer: Hotpocket :3\r\nX-Frame-Options: SAMEORIGIN\
                    \r\n\r\n{\"status\":\"created\"}";
    assert_eq!(String::from_utf8(response.clone()).unwrap(), expected);
    assert_eq!(cache.len(), 1);
    assert_eq!(cache.get(b"digest"), Some(&response));
    assert_eq!(cache.created_at(b"digest"), Some(at(5)));
}

#[test]
fn render_reply_announces_the_length_of_its_body() {
    let codes = StatusRegistry::standard();
    for text in ["", "x", "caf\u{e9}", "\u{1F600}\"\n"] {
        let mut body = JsonObject::new();
        body.insert("message", text);
        let response = render_reply(&codes, 200, &None, &Some(body));
        assert_eq!(content_length_of(&response), body_of(&response).len());
    }
}

#[test]
fn handlers_answer_as_their_names_say() {
    let codes = StatusRegistry::standard();
    let mut cache = ResponseCache::new();
    let state = RequestState::new(8);
    let status = handle_path_status(&state, &codes, &mut cache, at(1));
    assert_eq!(String::from_utf8(status.clone()).unwrap(), OK_RESPONSE);
    assert_eq!(dispatch(Handler::Status, &state, &codes, &mut cache, at(1)), status);
    let missing = handle_404(&state, &codes, &mut cache, at(1));
    assert!(missing.starts_with(b"HTTP/1.1 404 Not Found\n"));
    assert_eq!(body_of(&missing), NOT_FOUND_BODY);
    assert_eq!(cache.len(), 0);
}

#[test]
fn handling_by_the_clock_stores_a_recent_entry() {
    let codes = StatusRegistry::standard();
    let table = routes();
    let mut cache = ResponseCache::new();
    let mut state = state_of("GET / HTTP/1.1\r\n\r\n");
    let outcome = handle_request_now(&mut state, &codes, &table, &mut cache);
    assert!(!outcome.replayed);
    assert_eq!(String::from_utf8(outcome.response).unwrap(), OK_RESPONSE);
    let created = cache.created_at(&fingerprint(&state.request_buffer)).unwrap();
    assert!(created.secs > 1_600_000_000);
    cache.sweep_now(60);
    assert_eq!(cache.len(), 1);
}

#[test]
fn non_utf8_bytes_in_the_path_are_replaced_before_routing() {
    let codes = StatusRegistry::standard();
    let mut table = RouteTable::new();
    let mut methods = StringMap::new();
    methods.insert("GET", "application/json");
    table.register("/\u{fffd}", Handler::Status, methods);
    let mut cache = ResponseCache::new();
    let mut state = RequestState::new(64);
    let request = b"GET /\xff HTTP/1.1\r\n\r\n";
    state.request_buffer[..request.len()].copy_from_slice(request);
    let outcome = handle_request(&mut state, &codes, &table, &mut cache, at(1));
    assert_eq!(status_of(&outcome.response), "200");
}
