//! The health and metrics endpoint.

use fleet_router::health::{
    answer_text, count_online, escape, handle_request, keep_reading, parse_request, render_metrics,
    route, REQUEST_BUFFER_BYTES, REQUEST_TIMEOUT_SECS,
};
use fleet_router::models::{ServerState, ServerStateDb};
use fleet_router::string_map::StringMap;

fn states(online: &[bool]) -> ServerStateDb {
    let mut db: ServerStateDb = StringMap::new();
    for (i, on) in online.iter().enumerate() {
        let mut state = ServerState::new();
        state.online = *on;
        state.stale = i == 1;
        state.connections = 10 + i;
        state.chain_state_end_block = 5000 + i as u32;
        db.insert(format!("h:{}", i), state);
    }
    db
}

#[test]
fn health_is_always_ok() {
    for path in ["/health", "/healthz"] {
        let response = route("GET", path, &states(&[]));
        assert_eq!(response.status, "200 OK");
        assert_eq!(response.content_type, "text/plain");
        assert_eq!(response.body, "ok\n");
    }
}

#[test]
fn ready_with_an_upstream_online() {
    for path in ["/ready", "/readyz"] {
        let response = route("GET", path, &states(&[false, true, true]));
        assert_eq!(response.status, "200 OK");
        assert_eq!(response.body, "ready: 2 upstream(s) online\n");
        let response = route("GET", path, &states(&[false, false]));
        assert_eq!(response.status, "503 Service Unavailable");
        assert_eq!(response.body, "not ready: no upstreams online\n");
    }
    assert_eq!(count_online(&states(&[false, true, true])), 2);
    assert_eq!(count_online(&states(&[])), 0);
}

#[test]
fn other_routes_and_methods() {
    let response = route("POST", "/health", &states(&[]));
    assert_eq!(response.status, "405 Method Not Allowed");
    assert_eq!(response.body, "method not allowed\n");
    let response = route("get", "/health", &states(&[]));
    assert_eq!(response.status, "405 Method Not Allowed");
    let response = route("GET", "/", &states(&[]));
    assert_eq!(response.status, "404 Not Found");
    assert_eq!(response.body, "not found\n");
}

#[test]
fn the_metrics() {
    let response = route("GET", "/metrics", &states(&[true, false]));
    assert_eq!(response.status, "200 OK");
    assert_eq!(response.content_type, "text/plain; version=0.0.4");
    assert_eq!(
        response.body,
        "# HELP fleet_router_up Whether the router process is up.\n\
         # TYPE fleet_router_up gauge\n\
         fleet_router_up 1\n\
         # HELP fleet_router_upstream_up Whether an upstream is online (1) or offline (0).\n\
         # TYPE fleet_router_upstream_up gauge\n\
         fleet_router_upstream_up{endpoint=\"h:0\"} 1\n\
         fleet_router_upstream_up{endpoint=\"h:1\"} 0\n\
         # HELP fleet_router_upstream_stale Whether an upstream has stopped advancing (1) or not (0).\n\
         # TYPE fleet_router_upstream_stale gauge\n\
         fleet_router_upstream_stale{endpoint=\"h:0\"} 0\n\
         fleet_router_upstream_stale{endpoint=\"h:1\"} 1\n\
         # HELP fleet_router_active_connections Active client connections routed to an upstream.\n\
         # TYPE fleet_router_active_connections gauge\n\
         fleet_router_active_connections{endpoint=\"h:0\"} 10\n\
         fleet_router_active_connections{endpoint=\"h:1\"} 11\n\
         # HELP fleet_router_upstream_chain_state_end_block Last chain-state block reported by an upstream.\n\
         # TYPE fleet_router_upstream_chain_state_end_block gauge\n\
         fleet_router_upstream_chain_state_end_block{endpoint=\"h:0\"} 5000\n\
         fleet_router_upstream_chain_state_end_block{endpoint=\"h:1\"} 5001\n"
    );
    assert_eq!(response.body, render_metrics(&states(&[true, false])));
}

#[test]
fn labels_are_escaped() {
    assert_eq!(escape("plain:80"), "plain:80");
    assert_eq!(escape("a\"b\\c"), "a\\\"b\\\\c");
    assert_eq!(escape(""), "");
}

#[test]
fn a_whole_exchange() {
    let response = handle_request(b"GET /ready HTTP/1.1\r\nHost: x\r\n\r\n", &states(&[true]));
    assert_eq!(
        response,
        "HTTP/1.1 200 OK\r\nContent-Type: text/plain\r\nContent-Length: 28\r\nConnection: close\r\n\r\nready: 1 upstream(s) online\n"
    );
    assert_eq!(response, answer_text("GET /ready", &states(&[true])));
    // Bytes that are no text spoil the method or the path, not the answer.
    let response = handle_request(&[71, 69, 84, 255, 32, 47], &states(&[]));
    assert!(response.starts_with("HTTP/1.1 405 Method Not Allowed\r\n"));
    let response = handle_request(&[71, 69, 84, 32, 47, 255], &states(&[]));
    assert!(response.starts_with("HTTP/1.1 404 Not Found\r\n"));
    let response = handle_request(b"", &states(&[]));
    assert!(response.starts_with("HTTP/1.1 405 Method Not Allowed\r\n"));
}

#[test]
fn the_length_counts_bytes() {
    let mut db: ServerStateDb = StringMap::new();
    db.insert("n\u{f6}de".to_string(), ServerState::new());
    let body = render_metrics(&db);
    let response = handle_request(b"GET /metrics\n", &db);
    assert!(response.contains(&format!("\r\nContent-Length: {}\r\n", body.len())));
    assert!(body.len() > body.chars().count());
    assert!(response.ends_with(&body));
}

#[test]
fn request_lines() {
    let parse = |s: &str| parse_request(s);
    assert_eq!(parse("GET /a HTTP/1.1\r\nX: y"), ("GET".to_string(), "/a".to_string()));
    assert_eq!(parse("  GET\t /a"), ("GET".to_string(), "/a".to_string()));
    assert_eq!(parse("GET\r\n/a"), ("GET".to_string(), String::new()));
    assert_eq!(parse("\nGET /a"), (String::new(), String::new()));
    assert_eq!(parse(""), (String::new(), String::new()));
}

#[test]
fn reading_stops_at_the_line_or_the_limit() {
    assert!(keep_reading(b""));
    assert!(keep_reading(b"GET /health"));
    assert!(!keep_reading(b"GET /health\r\n"));
    assert_eq!(REQUEST_BUFFER_BYTES, 1024);
    assert_eq!(REQUEST_TIMEOUT_SECS, 5);
    assert!(keep_reading(&[65; 1023]));
    assert!(!keep_reading(&[65; 1024]));
}
