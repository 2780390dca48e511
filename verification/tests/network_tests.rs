use corten_devtools::network::{
    CacheEntry, HttpHeaders, InterceptionPattern, NetworkDomain, WebSocketFrame, WebSocketOpcode,
    WebSocketState, DEFAULT_MAX_REQUEST_BODY_SIZE, DEFAULT_MAX_RESPONSE_BODY_SIZE,
};
use corten_devtools::protocol::ProtocolError;

fn entry(url: &str, time: f64) -> CacheEntry {
    CacheEntry {
        request_url: url.to_string(),
        request_method: "GET".to_string(),
        request_headers: vec![],
        response_time_bits: time.to_bits(),
        response_status: 200,
        response_status_text: "OK".to_string(),
        response_type: "basic".to_string(),
        response_headers: vec![],
    }
}

fn pattern(url: &str) -> InterceptionPattern {
    InterceptionPattern { url_pattern: Some(url.to_string()), resource_type: None, interception_stage: None }
}

#[test]
fn test_track_and_retrieve() {
    let mut domain = NetworkDomain::new();
    domain.track_request("test-123".to_string(), "https://example.com".to_string(), "GET".to_string());
    assert!(domain.has_request("test-123"));
    domain.store_response_body("test-123".to_string(), "Hello".to_string(), false);
    let (body, encoded) = domain.get_response_body("test-123").unwrap();
    assert_eq!(body, "Hello");
    assert!(!encoded);
}

#[test]
fn test_interception() {
    let mut domain = NetworkDomain::new();
    assert!(!domain.is_interception_enabled());
    domain.set_request_interception(vec![pattern("*")]);
    assert!(domain.is_interception_enabled());
}

#[test]
fn test_track_request_full() {
    let mut domain = NetworkDomain::new();
    let mut headers = HttpHeaders::new();
    headers.insert("Content-Type".to_string(), "application/json".to_string());
    headers.insert("Authorization".to_string(), "Bearer token".to_string());
    domain.track_request_full(
        "req-001".to_string(),
        "https://api.example.com/users".to_string(),
        "POST".to_string(),
        headers,
        Some(r#"{"name": "John"}"#.to_string()),
        Some("XHR".to_string()),
    );
    assert!(domain.has_request("req-001"));
    assert_eq!(domain.get_request_post_data("req-001").unwrap(), r#"{"name": "John"}"#);
}

#[test]
fn test_store_response_full() {
    let mut domain = NetworkDomain::new();
    domain.track_request("req-002".to_string(), "https://example.com".to_string(), "GET".to_string());
    let mut headers = HttpHeaders::new();
    headers.insert("Content-Type".to_string(), "text/html".to_string());
    domain.store_response_full("req-002".to_string(), 200, headers, "<html>Hello</html>".to_string(), false, false);
    let (body, _) = domain.get_response_body("req-002").unwrap();
    assert_eq!(body, "<html>Hello</html>");
}

#[test]
fn test_response_body_size_limit() {
    let mut domain = NetworkDomain::with_limits(100, 50);
    domain.track_request("req-003".to_string(), "https://example.com".to_string(), "GET".to_string());
    let large_body = "x".repeat(200);
    domain.store_response_body("req-003".to_string(), large_body, false);
    let (body, _) = domain.get_response_body("req-003").unwrap();
    assert_eq!(body.len(), 100);
}

#[test]
fn test_get_all_requests() {
    let mut domain = NetworkDomain::new();
    domain.track_request("req-a".to_string(), "https://a.com".to_string(), "GET".to_string());
    domain.track_request("req-b".to_string(), "https://b.com".to_string(), "POST".to_string());
    let requests = domain.get_all_requests();
    assert_eq!(requests.len(), 2);
}

#[test]
fn test_clear_requests() {
    let mut domain = NetworkDomain::new();
    domain.track_request("req-x".to_string(), "https://x.com".to_string(), "GET".to_string());
    assert!(domain.has_request("req-x"));
    domain.clear_requests();
    assert!(!domain.has_request("req-x"));
}

#[test]
fn test_request_cache_names() {
    let mut domain = NetworkDomain::new();
    domain.add_cache("cache-1".to_string(), "https://example.com".to_string(), "v1-cache".to_string());
    domain.add_cache("cache-2".to_string(), "https://example.com".to_string(), "v2-cache".to_string());
    domain.add_cache("cache-3".to_string(), "https://other.com".to_string(), "other-cache".to_string());
    let caches = domain.request_cache_names("https://example.com");
    assert_eq!(caches.len(), 2);
}

#[test]
fn test_request_cache_entries() {
    let mut domain = NetworkDomain::new();
    domain.add_cache("test-cache".to_string(), "https://example.com".to_string(), "my-cache".to_string());
    domain.add_cache_entry("test-cache", entry("https://example.com/api/data", 1234567890.0));
    domain.add_cache_entry("test-cache", entry("https://example.com/api/users", 1234567891.0));
    let (entries, return_count, has_more) = domain.request_cache_entries("test-cache", 0, 50);
    assert_eq!(entries.len(), 2);
    assert_eq!(return_count, 2);
    assert!(!has_more);
}

#[test]
fn test_cache_pagination() {
    let mut domain = NetworkDomain::new();
    domain.add_cache("paginated-cache".to_string(), "https://example.com".to_string(), "big-cache".to_string());
    for i in 0..5 {
        let url = format!("https://example.com/item/{}", i);
        domain.add_cache_entry("paginated-cache", entry(&url, 1234567890.0 + i as f64));
    }
    let (entries, _, has_more) = domain.request_cache_entries("paginated-cache", 2, 2);
    assert_eq!(entries.len(), 2);
    assert!(has_more);
    assert_eq!(entries[0].request_url, "https://example.com/item/2");
    assert_eq!(entries[1].request_url, "https://example.com/item/3");
}

#[test]
fn test_delete_cache() {
    let mut domain = NetworkDomain::new();
    domain.add_cache("delete-me".to_string(), "https://example.com".to_string(), "temp-cache".to_string());
    assert_eq!(domain.request_cache_names("https://example.com").len(), 1);
    domain.delete_cache("delete-me");
    assert_eq!(domain.request_cache_names("https://example.com").len(), 0);
}

#[test]
fn test_delete_cache_entry() {
    let mut domain = NetworkDomain::new();
    domain.add_cache("entry-cache".to_string(), "https://example.com".to_string(), "entry-test".to_string());
    domain.add_cache_entry("entry-cache", entry("https://example.com/keep", 1234567890.0));
    domain.add_cache_entry("entry-cache", entry("https://example.com/delete", 1234567891.0));
    domain.delete_cache_entry("entry-cache", "https://example.com/delete");
    let (entries, _, _) = domain.request_cache_entries("entry-cache", 0, 50);
    assert_eq!(entries.len(), 1);
    assert_eq!(entries[0].request_url, "https://example.com/keep");
}

#[test]
fn test_track_websocket() {
    let mut domain = NetworkDomain::new();
    domain.track_websocket("ws-001".to_string(), "wss://example.com/socket".to_string());
    assert!(domain.has_websocket("ws-001"));
    let conn = domain.get_websocket_connection("ws-001").unwrap();
    assert_eq!(conn.url, "wss://example.com/socket");
    assert_eq!(conn.state, WebSocketState::Connecting);
}

#[test]
fn test_websocket_state_transitions() {
    let mut domain = NetworkDomain::new();
    domain.track_websocket("ws-002".to_string(), "wss://example.com/ws".to_string());
    assert_eq!(domain.get_websocket_connection("ws-002").unwrap().state, WebSocketState::Connecting);
    domain.update_websocket_state("ws-002", WebSocketState::Open);
    assert_eq!(domain.get_websocket_connection("ws-002").unwrap().state, WebSocketState::Open);
    domain.update_websocket_state("ws-002", WebSocketState::Closing);
    assert_eq!(domain.get_websocket_connection("ws-002").unwrap().state, WebSocketState::Closing);
    domain.close_websocket("ws-002");
    assert_eq!(domain.get_websocket_connection("ws-002").unwrap().state, WebSocketState::Closed);
}

#[test]
fn test_websocket_text_frames() {
    let mut domain = NetworkDomain::new();
    domain.track_websocket("ws-003".to_string(), "wss://chat.example.com".to_string());
    domain.update_websocket_state("ws-003", WebSocketState::Open);
    domain.add_websocket_text_frame("ws-003", "Hello, server!".to_string(), true);
    domain.add_websocket_text_frame("ws-003", "Hello, client!".to_string(), false);
    let frames = domain.get_websocket_frames("ws-003").unwrap();
    assert_eq!(frames.len(), 2);
    assert_eq!(frames[0].opcode, WebSocketOpcode::Text);
    assert_eq!(frames[0].payload_data, "Hello, server!");
    assert!(frames[0].is_outgoing);
    assert!(!frames[0].is_base64);
    assert_eq!(frames[1].opcode, WebSocketOpcode::Text);
    assert_eq!(frames[1].payload_data, "Hello, client!");
    assert!(!frames[1].is_outgoing);
}

#[test]
fn test_websocket_binary_frames() {
    let mut domain = NetworkDomain::new();
    domain.track_websocket("ws-004".to_string(), "wss://binary.example.com".to_string());
    domain.update_websocket_state("ws-004", WebSocketState::Open);
    domain.add_websocket_binary_frame("ws-004", "SGVsbG8gV29ybGQ=".to_string(), true);
    let frames = domain.get_websocket_frames("ws-004").unwrap();
    assert_eq!(frames.len(), 1);
    assert_eq!(frames[0].opcode, WebSocketOpcode::Binary);
    assert!(frames[0].is_base64);
    assert!(frames[0].is_outgoing);
}

#[test]
fn test_get_websocket_frame_data() {
    let mut domain = NetworkDomain::new();
    domain.track_websocket("ws-005".to_string(), "wss://test.example.com".to_string());
    domain.update_websocket_state("ws-005", WebSocketState::Open);
    domain.add_websocket_text_frame("ws-005", "test message".to_string(), true);
    let conn = domain.get_websocket_frame_data("ws-005").unwrap();
    assert_eq!(conn.request_id, "ws-005");
    assert_eq!(conn.url, "wss://test.example.com");
    assert_eq!(conn.state, WebSocketState::Open);
    assert_eq!(conn.frames.len(), 1);
    assert_eq!(conn.frames[0].payload_data, "test message");
}

#[test]
fn test_websocket_frame_timing() {
    let mut domain = NetworkDomain::new();
    domain.track_websocket("ws-006".to_string(), "wss://time.example.com".to_string());
    domain.update_websocket_state("ws-006", WebSocketState::Open);
    let frame = WebSocketFrame::text("timed message".to_string(), true);
    let frame_timestamp = frame.timestamp;
    domain.add_websocket_frame("ws-006", frame);
    let frames = domain.get_websocket_frames("ws-006").unwrap();
    assert!(frames[0].timestamp.secs > 0);
    assert_eq!(frames[0].timestamp, frame_timestamp);
}

#[test]
fn test_get_all_websocket_connections() {
    let mut domain = NetworkDomain::new();
    domain.track_websocket("ws-a".to_string(), "wss://a.example.com".to_string());
    domain.track_websocket("ws-b".to_string(), "wss://b.example.com".to_string());
    let connections = domain.get_all_websocket_connections();
    assert_eq!(connections.len(), 2);
    assert_eq!(connections[0].request_id, "ws-a");
    assert_eq!(connections[1].request_id, "ws-b");
}

#[test]
fn test_untrack_websocket() {
    let mut domain = NetworkDomain::new();
    domain.track_websocket("ws-remove".to_string(), "wss://remove.example.com".to_string());
    assert!(domain.has_websocket("ws-remove"));
    domain.untrack_websocket("ws-remove");
    assert!(!domain.has_websocket("ws-remove"));
}

#[test]
fn test_websocket_opcode_from_u8() {
    assert_eq!(WebSocketOpcode::from_u8(0), WebSocketOpcode::Continuation);
    assert_eq!(WebSocketOpcode::from_u8(1), WebSocketOpcode::Text);
    assert_eq!(WebSocketOpcode::from_u8(2), WebSocketOpcode::Binary);
    assert_eq!(WebSocketOpcode::from_u8(8), WebSocketOpcode::Close);
    assert_eq!(WebSocketOpcode::from_u8(9), WebSocketOpcode::Ping);
    assert_eq!(WebSocketOpcode::from_u8(10), WebSocketOpcode::Pong);
    assert_eq!(WebSocketOpcode::from_u8(99), WebSocketOpcode::Binary);
}

#[test]
fn test_websocket_not_found() {
    let domain = NetworkDomain::new();
    let result = domain.get_websocket_frame_data("non-existent");
    assert!(matches!(result.unwrap_err(), ProtocolError::ServerError(-32000, m) if m == "WebSocket not found: non-existent"));
}

#[test]
fn test_request_post_data_not_found() {
    let domain = NetworkDomain::new();
    let result = domain.get_request_post_data("missing-req");
    assert!(matches!(result.unwrap_err(), ProtocolError::ServerError(-32000, m) if m == "Request not found: missing-req"));
}

#[test]
fn test_get_response_body_not_found() {
    let domain = NetworkDomain::new();
    let result = domain.get_response_body("non-existent-request");
    assert!(matches!(result.unwrap_err(), ProtocolError::ServerError(-32000, m) if m == "Request not found: non-existent-request"));
}

#[test]
fn test_get_response_body_success() {
    let mut domain = NetworkDomain::new();
    domain.track_request("test-request-123".to_string(), "https://example.com".to_string(), "GET".to_string());
    domain.store_response_body("test-request-123".to_string(), "Hello, World!".to_string(), false);
    let (body, encoded) = domain.get_response_body("test-request-123").unwrap();
    assert_eq!(body, "Hello, World!");
    assert!(!encoded);
}

#[test]
fn test_get_response_body_base64() {
    let mut domain = NetworkDomain::new();
    domain.track_request("binary-request-456".to_string(), "https://example.com/image.png".to_string(), "GET".to_string());
    domain.store_response_body(
        "binary-request-456".to_string(),
        "iVBORw0KGgoAAAANSUhEUgAAAAEAAAABCAYAAAAfFcSJAAAADUlEQVR42mNk+M9QDwADhgGAWjR9awAAAABJRU5ErkJggg==".to_string(),
        true,
    );
    let (_, encoded) = domain.get_response_body("binary-request-456").unwrap();
    assert!(encoded);
}

#[test]
fn test_set_request_interception_enable() {
    let mut domain = NetworkDomain::new();
    let patterns = vec![
        InterceptionPattern {
            url_pattern: Some("*.example.com/*".to_string()),
            resource_type: Some("Document".to_string()),
            interception_stage: Some("Request".to_string()),
        },
        InterceptionPattern {
            url_pattern: Some("*.googleapis.com/*".to_string()),
            resource_type: None,
            interception_stage: Some("HeadersReceived".to_string()),
        },
    ];
    domain.set_request_interception(patterns);
    assert!(domain.is_interception_enabled());
}

#[test]
fn test_set_request_interception_disable() {
    let mut domain = NetworkDomain::new();
    domain.set_request_interception(vec![pattern("*")]);
    domain.set_request_interception(vec![]);
    assert!(!domain.is_interception_enabled());
}

#[test]
fn test_track_request() {
    let mut domain = NetworkDomain::new();
    domain.track_request("track-test-789".to_string(), "https://api.example.com/users".to_string(), "POST".to_string());
    assert!(domain.has_request("track-test-789"));
}

#[test]
fn test_untrack_request() {
    let mut domain = NetworkDomain::new();
    domain.track_request("untrack-test-999".to_string(), "https://example.com".to_string(), "GET".to_string());
    assert!(domain.has_request("untrack-test-999"));
    domain.untrack_request("untrack-test-999");
    assert!(!domain.has_request("untrack-test-999"));
}

#[test]
fn network_default_limits() {
    assert_eq!(DEFAULT_MAX_RESPONSE_BODY_SIZE, 10 * 1024 * 1024);
    assert_eq!(DEFAULT_MAX_REQUEST_BODY_SIZE, 5 * 1024 * 1024);
}

#[test]
fn network_response_body_not_available() {
    let mut domain = NetworkDomain::new();
    domain.track_request("r".to_string(), "https://example.com".to_string(), "GET".to_string());
    assert!(matches!(domain.get_response_body("r").unwrap_err(), ProtocolError::ServerError(-32000, m) if m == "Response body not available"));
    assert!(matches!(domain.get_request_post_data("r").unwrap_err(), ProtocolError::ServerError(-32000, m) if m == "Request body not available"));
}

#[test]
fn network_request_body_is_capped() {
    let mut domain = NetworkDomain::with_limits(100, 4);
    domain.track_request_full(
        "r".to_string(),
        "https://example.com".to_string(),
        "POST".to_string(),
        HttpHeaders::new(),
        Some("abcdefgh".to_string()),
        None,
    );
    assert_eq!(domain.get_request_post_data("r").unwrap(), "abcd");
}

#[test]
fn network_small_body_is_kept_whole_and_size_recorded() {
    let mut domain = NetworkDomain::with_limits(10, 10);
    domain.track_request("r".to_string(), "https://example.com".to_string(), "GET".to_string());
    domain.store_response_body("r".to_string(), "0123456789".to_string(), false);
    assert_eq!(domain.get_response_body("r").unwrap().0, "0123456789");
    domain.store_response_body("r".to_string(), "0123456789AB".to_string(), false);
    assert_eq!(domain.get_response_body("r").unwrap().0, "0123456789");
    let all = domain.get_all_requests();
    assert_eq!(all[0].response_size, Some(12));
}

#[test]
fn network_store_for_unknown_request_is_ignored() {
    let mut domain = NetworkDomain::new();
    domain.store_response_body("ghost".to_string(), "body".to_string(), false);
    assert!(!domain.has_request("ghost"));
}

#[test]
fn network_store_response_full_records_status_and_origin() {
    let mut domain = NetworkDomain::new();
    domain.track_request("r".to_string(), "https://example.com".to_string(), "GET".to_string());
    domain.store_response_full("r".to_string(), 404, HttpHeaders::new(), "nope".to_string(), false, true);
    let all = domain.get_all_requests();
    assert_eq!(all[0].status_code, Some(404));
    assert!(all[0].from_cache);
    assert!(all[0].responded_at.is_some());
    assert_eq!(all[0].url, "https://example.com");
}

#[test]
fn network_cache_page_past_the_end_is_empty() {
    let mut domain = NetworkDomain::new();
    domain.add_cache("c".to_string(), "o".to_string(), "n".to_string());
    domain.add_cache_entry("c", entry("u1", 1.0));
    let (entries, count, has_more) = domain.request_cache_entries("c", 5, 2);
    assert!(entries.is_empty());
    assert_eq!(count, 0);
    assert!(!has_more);
    let (entries, _, _) = domain.request_cache_entries("unknown", 0, 2);
    assert!(entries.is_empty());
}

#[test]
fn network_entry_for_unknown_cache_is_ignored() {
    let mut domain = NetworkDomain::new();
    domain.add_cache_entry("nowhere", entry("u", 1.0));
    let (entries, _, _) = domain.request_cache_entries("nowhere", 0, 10);
    assert!(entries.is_empty());
}

#[test]
fn network_websocket_response_headers_open_the_connection() {
    let mut domain = NetworkDomain::new();
    let mut req = HttpHeaders::new();
    req.insert("Upgrade".to_string(), "websocket".to_string());
    domain.track_websocket_full("ws".to_string(), "wss://e".to_string(), req);
    let mut resp = HttpHeaders::new();
    resp.insert("Connection".to_string(), "Upgrade".to_string());
    domain.set_websocket_response_headers("ws", resp);
    let conn = domain.get_websocket_connection("ws").unwrap();
    assert_eq!(conn.state, WebSocketState::Open);
    assert_eq!(conn.request_headers.get("Upgrade").map(|s| s.as_str()), Some("websocket"));
    assert_eq!(conn.response_headers.get("Connection").map(|s| s.as_str()), Some("Upgrade"));
}

#[test]
fn network_frames_for_unknown_connection() {
    let mut domain = NetworkDomain::new();
    domain.add_websocket_text_frame("none", "x".to_string(), true);
    assert!(domain.get_websocket_frames("none").is_none());
    assert!(domain.get_websocket_connection("none").is_none());
}

#[test]
fn network_outgoing_frames_are_masked() {
    let out = WebSocketFrame::text("a".to_string(), true);
    let inc = WebSocketFrame::binary("b".to_string(), false);
    assert!(out.mask);
    assert!(!inc.mask);
}
