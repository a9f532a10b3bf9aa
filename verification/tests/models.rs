//! Configuration and the tables of upstreams.

use fleet_router::config_sample::CONFIG_SAMPLE;
use fleet_router::models::{
    build_config_db, build_state_db, default_handshake_timeout_ms, default_idle_timeout_ms,
    default_max_connections, default_max_message_bytes, default_shutdown_grace_ms, ConfigError,
    Server, ServerConfig, ServerState,
};

fn server(name: &str, endpoint: &str, enabled: bool) -> Server {
    Server { name: name.to_string(), endpoint: endpoint.to_string(), enabled }
}

fn config() -> ServerConfig {
    ServerConfig {
        listen_address: "127.0.0.1".to_string(),
        listen_port: 17000,
        upstream_reconnect_ms: 1000,
        upstream_monitoring_ms: 2000,
        upstream_status_ms: 1000,
        servers: vec![server("a", "127.0.0.1:19999", true)],
        max_connections: default_max_connections(),
        handshake_timeout_ms: default_handshake_timeout_ms(),
        idle_timeout_ms: default_idle_timeout_ms(),
        max_message_bytes: default_max_message_bytes(),
        shutdown_grace_ms: default_shutdown_grace_ms(),
        metrics_address: None,
        metrics_port: None,
    }
}

fn rejected(change: fn(&mut ServerConfig), message: &str) -> ConfigError {
    let mut c = config();
    change(&mut c);
    match c.validate() {
        Ok(()) => panic!("the configuration should be rejected"),
        Err(e) => {
            assert_eq!(e.message(), message);
            e
        }
    }
}

#[test]
fn defaults() {
    assert_eq!(default_max_connections(), 10_000);
    assert_eq!(default_handshake_timeout_ms(), 10_000);
    assert_eq!(default_idle_timeout_ms(), 0);
    assert_eq!(default_max_message_bytes(), 268_435_456);
    assert_eq!(default_shutdown_grace_ms(), 5_000);
}

#[test]
fn a_valid_config() {
    assert_eq!(config().validate(), Ok(()));
}

/// A duplicate upstream endpoint is rejected.
#[test]
fn run_rejects_invalid_config() {
    let e = rejected(
        |c| c.servers.push(server("b", "127.0.0.1:19999", true)),
        "duplicate upstream endpoint '127.0.0.1:19999' \u{2014} endpoints must be unique",
    );
    assert_eq!(e, ConfigError::DuplicateEndpoint { endpoint: "127.0.0.1:19999".to_string() });
}

/// A zero interval is rejected.
#[test]
fn run_rejects_zero_interval() {
    let e = rejected(
        |c| c.upstream_status_ms = 0,
        "upstream_status_ms must be greater than 0",
    );
    assert_eq!(e, ConfigError::ZeroStatusInterval);
}

#[test]
fn every_fault_is_named() {
    let e = rejected(|c| c.listen_address = " \t ".to_string(), "listen_address must not be empty");
    assert_eq!(e, ConfigError::EmptyListenAddress);
    let e = rejected(|c| c.listen_port = 0, "listen_port must be non-zero");
    assert_eq!(e, ConfigError::ZeroListenPort);
    let e = rejected(
        |c| c.upstream_reconnect_ms = 0,
        "upstream_reconnect_ms must be greater than 0",
    );
    assert_eq!(e, ConfigError::ZeroReconnectInterval);
    let e = rejected(
        |c| c.upstream_monitoring_ms = 0,
        "upstream_monitoring_ms must be greater than 0",
    );
    assert_eq!(e, ConfigError::ZeroMonitoringInterval);
    let e = rejected(|c| c.max_connections = 0, "max_connections must be greater than 0");
    assert_eq!(e, ConfigError::ZeroMaxConnections);
    let e = rejected(|c| c.max_message_bytes = 0, "max_message_bytes must be greater than 0");
    assert_eq!(e, ConfigError::ZeroMaxMessageBytes);
    let e = rejected(|c| c.servers.clear(), "config must define at least one server");
    assert_eq!(e, ConfigError::NoServers);
    let e = rejected(
        |c| c.servers[0].enabled = false,
        "config must have at least one enabled server",
    );
    assert_eq!(e, ConfigError::NoEnabledServer);
    let e = rejected(
        |c| c.servers.push(server("b", "\u{a0}", true)),
        "server 'b' has an empty endpoint",
    );
    assert_eq!(e, ConfigError::EmptyEndpoint { name: "b".to_string() });
    let e = rejected(|c| c.metrics_port = Some(0), "metrics_port must be non-zero when set");
    assert_eq!(e, ConfigError::ZeroMetricsPort);
}

#[test]
fn the_first_fault_counts() {
    let mut c = config();
    c.listen_port = 0;
    c.upstream_status_ms = 0;
    assert_eq!(c.validate(), Err(ConfigError::ZeroListenPort));
}

#[test]
fn endpoints_are_unique_among_all_servers() {
    let e = rejected(
        |c| c.servers.push(server("off", "127.0.0.1:19999", false)),
        "duplicate upstream endpoint '127.0.0.1:19999' \u{2014} endpoints must be unique",
    );
    assert_eq!(e, ConfigError::DuplicateEndpoint { endpoint: "127.0.0.1:19999".to_string() });
    let mut c = config();
    c.servers.push(server("off", "127.0.0.1:20000", false));
    c.servers.push(server("off too", "127.0.0.1:20000", false));
    assert_eq!(
        c.validate(),
        Err(ConfigError::DuplicateEndpoint { endpoint: "127.0.0.1:20000".to_string() })
    );
}

#[test]
fn a_disabled_server_may_have_a_blank_endpoint() {
    let mut c = config();
    c.servers.push(server("off", "127.0.0.1:20000", false));
    c.servers.push(server("blank", "", false));
    assert_eq!(c.validate(), Ok(()));
}

#[test]
fn urls_and_addresses() {
    let mut c = config();
    assert_eq!(c.servers[0].ws_url(), "ws://127.0.0.1:19999");
    assert_eq!(c.bind_addr(), "127.0.0.1:17000");
    assert_eq!(c.metrics_addr(), None);
    c.metrics_port = Some(9090);
    assert_eq!(c.metrics_addr(), Some("127.0.0.1:9090".to_string()));
    c.metrics_address = Some("0.0.0.0".to_string());
    assert_eq!(c.metrics_addr(), Some("0.0.0.0:9090".to_string()));
}

#[test]
fn derived_settings() {
    let mut c = config();
    c.handshake_timeout_ms = 7;
    c.idle_timeout_ms = 8;
    c.max_message_bytes = 9;
    let limits = c.proxy_limits();
    assert_eq!(limits.handshake_timeout_ms, 7);
    assert_eq!(limits.idle_timeout_ms, 8);
    assert_eq!(limits.max_message_bytes, 9);
    let intervals = c.static_config();
    assert_eq!(intervals.upstream_reconnect_ms, 1000);
    assert_eq!(intervals.upstream_monitoring_ms, 2000);
    assert_eq!(intervals.upstream_status_ms, 1000);
}

#[test]
fn tables_hold_the_enabled_servers() {
    let servers = || {
        vec![
            server("a", "h:1", true),
            server("off", "h:2", false),
            server("b", "h:3", true),
            server("c", "h:1", true),
        ]
    };
    let states = build_state_db(servers());
    assert_eq!(states.len(), 2);
    assert_eq!(states.get("h:1"), Some(&ServerState::new()));
    assert_eq!(states.get("h:2"), None);
    assert_eq!(states.get("h:3"), Some(&ServerState::default()));
    let configs = build_config_db(servers());
    assert_eq!(configs.len(), 2);
    assert_eq!(configs.get("h:1").unwrap().name, "c");
    assert_eq!(configs.get("h:3").unwrap().name, "b");
    let mut c = config();
    c.servers = servers();
    let enabled: Vec<String> = c.enabled_servers().into_iter().map(|s| s.name).collect();
    assert_eq!(enabled, vec!["a", "b", "c"]);
}

#[test]
fn a_fresh_state() {
    let state = ServerState::new();
    assert_eq!(state.connections, 0);
    assert!(state.enabled);
    assert!(!state.online);
    assert!(!state.stale);
    assert_eq!(state.trace_end_block, 0);
}

#[test]
fn the_sample_is_a_config() {
    let json: serde_json::Value = serde_json::from_str(CONFIG_SAMPLE).unwrap();
    assert_eq!(json["listen_port"], 17000);
    assert_eq!(json["listen_address"], "0.0.0.0");
    assert_eq!(json["servers"][0]["name"], "SHIP Node 1");
    assert_eq!(json["servers"][0]["endpoint"], "127.0.0.1:8080");
    assert_eq!(json["servers"][1]["endpoint"], "127.0.0.1:18080");
    assert_eq!(json["servers"][1]["enabled"], true);
}
