//! Monitoring of the upstreams.

use fleet_router::abi::{AbiContext, AbiError};
use fleet_router::frame::Frame;
use fleet_router::functions::select_backend_server;
use fleet_router::models::{build_state_db, Server, ServerState, ServerStateDb};
use fleet_router::protocol::{
    decode_request, encode_blocks_result_v0_with_data, encode_status_result_v0_with_range,
    ShipRequest,
};
use fleet_router::tasks::{
    apply_result, backoff_ms, is_frame_readable, is_result_readable, status_request, Change,
    MonitorAction, MonitorEvent, MonitorPhase, StalenessMonitor, UpstreamMonitor, STALE_THRESHOLD,
};

const ABI: &str = r#"{"version":"eosio::abi/1.1","types":[],"structs":[{"name":"empty","base":"","fields":[]}],"actions":[],"tables":[],"ricardian_clauses":[],"error_messages":[],"abi_extensions":[],"variants":[{"name":"request","types":["empty"]}]}"#;

fn fleet(endpoints: &[&str]) -> ServerStateDb {
    build_state_db(
        endpoints
            .iter()
            .map(|e| Server { name: e.to_string(), endpoint: e.to_string(), enabled: true })
            .collect(),
    )
}

fn state(states: &ServerStateDb, endpoint: &str) -> ServerState {
    *states.get(endpoint).unwrap()
}

fn advance(states: &mut ServerStateDb, endpoint: &str, block: u32) {
    let at = states.position(endpoint).unwrap();
    let mut s = *states.value_at(at);
    s.chain_state_end_block = block;
    states.set_at(at, s);
}

#[test]
fn stale_after_twelve_intervals() {
    let mut states = fleet(&["a", "b"]);
    let mut monitor = StalenessMonitor::new();
    advance(&mut states, "a", 10);
    assert!(monitor.can_tick(&states));
    monitor.tick(&mut states);
    assert!(!state(&states, "a").stale);
    for i in 1..STALE_THRESHOLD {
        advance(&mut states, "b", i);
        monitor.tick(&mut states);
        assert!(!state(&states, "a").stale, "after {} intervals", i);
    }
    advance(&mut states, "b", 100);
    monitor.tick(&mut states);
    assert!(state(&states, "a").stale);
    assert!(!state(&states, "b").stale);
    // It stays stale while it stands still, and is fresh again when it advances.
    monitor.tick(&mut states);
    assert!(state(&states, "a").stale);
    advance(&mut states, "a", 11);
    monitor.tick(&mut states);
    assert!(!state(&states, "a").stale);
}

#[test]
fn going_back_is_no_advance() {
    let mut states = fleet(&["a"]);
    let mut monitor = StalenessMonitor::new();
    advance(&mut states, "a", 50);
    monitor.tick(&mut states);
    advance(&mut states, "a", 40);
    for _ in 0..STALE_THRESHOLD {
        monitor.tick(&mut states);
    }
    assert!(state(&states, "a").stale);
}

#[test]
fn only_a_new_highest_block_is_an_advance() {
    // Blocks that go up and down below the highest one do not count as advances.
    let blocks = [7, 3, 6, 1, 7, 2, 5, 7, 0, 4, 6, 7, 6, 7, 8, 7, 8];
    let mut states = fleet(&["a"]);
    let mut monitor = StalenessMonitor::new();
    for n in 1..=blocks.len() {
        advance(&mut states, "a", blocks[n - 1]);
        monitor.tick(&mut states);
        let advances = |i: usize| {
            blocks[i] > 0 && blocks[..i].iter().all(|earlier| *earlier < blocks[i])
        };
        let expected = n >= 12 && (n - 12..n).all(|i| !advances(i));
        assert_eq!(state(&states, "a").stale, expected, "after {} intervals", n);
        assert_eq!(state(&states, "a").stale, n == 13 || n == 14, "after {} intervals", n);
    }
}

#[test]
fn an_interval_tells_what_changed() {
    let mut states = fleet(&["a", "b"]);
    let mut monitor = StalenessMonitor::new();
    advance(&mut states, "a", 10);
    assert_eq!(monitor.tick(&mut states), vec![Change::Advanced, Change::Stalled]);
    for _ in 2..STALE_THRESHOLD {
        assert_eq!(monitor.tick(&mut states), vec![Change::Stalled, Change::Stalled]);
    }
    assert_eq!(monitor.tick(&mut states), vec![Change::Stalled, Change::FlaggedStale]);
    assert_eq!(monitor.tick(&mut states), vec![Change::FlaggedStale, Change::Stalled]);
    advance(&mut states, "a", 11);
    advance(&mut states, "b", 1);
    assert_eq!(monitor.tick(&mut states), vec![Change::Resumed, Change::Resumed]);
    advance(&mut states, "b", 2);
    assert_eq!(monitor.tick(&mut states), vec![Change::Stalled, Change::Advanced]);
}

#[test]
fn backoff_doubles_and_is_capped() {
    let pauses: Vec<u64> = (0..8).map(|n| backoff_ms(1000, n)).collect();
    assert_eq!(pauses, vec![1000, 2000, 4000, 8000, 16000, 30000, 30000, 30000]);
    assert_eq!(backoff_ms(100, 5), 3200);
    assert_eq!(backoff_ms(100, u32::MAX), 3200);
    assert_eq!(backoff_ms(u64::MAX, 5), 30000);
    assert_eq!(backoff_ms(0, 3), 0);
}

#[test]
fn the_status_request() {
    let Frame::Binary(bytes) = status_request() else {
        panic!("expected a binary frame");
    };
    assert_eq!(bytes, vec![0]);
    assert_eq!(decode_request(&bytes), ShipRequest::GetStatusV0);
}

#[test]
fn a_status_puts_an_upstream_online() {
    let mut states = fleet(&["a", "b"]);
    let status = encode_status_result_v0_with_range(5000, 4990, &[7; 32], 100, 4001);
    apply_result(&mut states, "a", &status);
    let a = state(&states, "a");
    assert!(a.online && a.enabled && !a.stale);
    assert_eq!(a.trace_begin_block, 100);
    assert_eq!(a.trace_end_block, 4001);
    assert_eq!(a.chain_state_begin_block, 1);
    assert_eq!(a.chain_state_end_block, 5001);
    assert_eq!(state(&states, "b"), ServerState::new());
    assert_eq!(select_backend_server(&states, Some(4000)), Ok("a".to_string()));
    // Of an upstream that is not known, nothing is kept.
    apply_result(&mut states, "c", &status);
    assert_eq!(states.len(), 2);
}

#[test]
fn a_status_without_a_chain_id() {
    let mut states = fleet(&["a"]);
    let mut status = encode_status_result_v0_with_range(5000, 4990, &[7; 32], 100, 4001);
    status.truncate(89);
    assert!(is_result_readable(&status));
    apply_result(&mut states, "a", &status);
    let a = state(&states, "a");
    assert!(a.online);
    assert_eq!(a.trace_begin_block, 100);
    assert_eq!(a.trace_end_block, 4001);
    assert_eq!(a.chain_state_end_block, 5001);
}

#[test]
fn other_results_change_nothing() {
    let mut states = fleet(&["a"]);
    let block = encode_blocks_result_v0_with_data(1000, 990, 5, None, None, None);
    apply_result(&mut states, "a", &block);
    apply_result(&mut states, "a", &[3]);
    // A head block of 0 is no status yet.
    let status = encode_status_result_v0_with_range(0, 0, &[7; 32], 1, 1);
    apply_result(&mut states, "a", &status);
    assert_eq!(state(&states, "a"), ServerState::new());
}

#[test]
fn results_that_cannot_be_read() {
    assert!(!is_result_readable(&[]));
    assert!(!is_result_readable(&[0; 88]));
    assert!(is_result_readable(&[0; 89]));
    assert!(is_result_readable(&[0; 120]));
    assert!(is_result_readable(&[0; 121]));
    assert!(is_result_readable(&[1]));
    assert!(!is_frame_readable(&Frame::Binary(vec![0])));
    assert!(is_frame_readable(&Frame::Text(String::new())));
}

#[test]
fn a_monitor_polls_its_upstream() {
    let ctx = AbiContext::new();
    let mut states = fleet(&["a"]);
    let (mut monitor, action) = UpstreamMonitor::new("a".to_string(), 1000);
    assert_eq!(action, MonitorAction::Connect);
    assert_eq!(monitor.step(&mut states, MonitorEvent::Connected), MonitorAction::Poll);
    let abi = Frame::Text(ABI.to_string());
    assert_eq!(monitor.frame_received(&mut states, &ctx, abi), MonitorAction::RequestStatus);
    assert_eq!(monitor.ship_abi.as_deref(), Some(ABI));
    let status = encode_status_result_v0_with_range(5000, 4990, &[7; 32], 1, 5001);
    let action = monitor.frame_received(&mut states, &ctx, Frame::Binary(status));
    assert_eq!(action, MonitorAction::Receive);
    assert!(state(&states, "a").online);
    // A second text is not taken for an ABI.
    let text = Frame::Text("hello".to_string());
    assert_eq!(monitor.frame_received(&mut states, &ctx, text), MonitorAction::Receive);
    assert_eq!(monitor.ship_abi.as_deref(), Some(ABI));
    let ping = Frame::Ping(vec![]);
    assert_eq!(monitor.frame_received(&mut states, &ctx, ping), MonitorAction::Receive);
    // The stream ends: the upstream is offline until it is connected again.
    let action = monitor.step(&mut states, MonitorEvent::Disconnected);
    assert_eq!(action, MonitorAction::Sleep(1000));
    assert!(!state(&states, "a").online);
    assert_eq!(monitor.ship_abi, None);
    assert_eq!(monitor.step(&mut states, MonitorEvent::Awake), MonitorAction::Connect);
}

#[test]
fn a_monitor_with_a_bad_abi_does_not_ask_at_once() {
    let ctx = AbiContext::new();
    let mut states = fleet(&["a"]);
    let (mut monitor, _) = UpstreamMonitor::new("a".to_string(), 1000);
    monitor.step(&mut states, MonitorEvent::Connected);
    let text = Frame::Text("no ABI".to_string());
    assert_eq!(monitor.frame_received(&mut states, &ctx, text), MonitorAction::Receive);
    assert_eq!(monitor.ship_abi.as_deref(), Some("no ABI"));
}

#[test]
fn a_monitor_backs_off() {
    let mut states = fleet(&["a"]);
    let (mut monitor, _) = UpstreamMonitor::new("a".to_string(), 1000);
    let mut pauses = Vec::new();
    for _ in 0..7 {
        match monitor.step(&mut states, MonitorEvent::ConnectFailed) {
            MonitorAction::Sleep(ms) => pauses.push(ms),
            other => panic!("expected a pause, got {:?}", other),
        }
        assert_eq!(monitor.step(&mut states, MonitorEvent::Awake), MonitorAction::Connect);
    }
    assert_eq!(pauses, vec![1000, 2000, 4000, 8000, 16000, 30000, 30000]);
    monitor.step(&mut states, MonitorEvent::Connected);
    assert_eq!(monitor.backoff_attempts, 0);
}

/// A monitor of an upstream that is online.
fn receiving(states: &mut ServerStateDb) -> UpstreamMonitor {
    let (mut monitor, _) = UpstreamMonitor::new("a".to_string(), 1000);
    monitor.step(states, MonitorEvent::Connected);
    let abi = MonitorEvent::Received { frame: Frame::Text(ABI.to_string()), abi_accepted: true };
    assert_eq!(monitor.step(states, abi), MonitorAction::RequestStatus);
    let status = encode_status_result_v0_with_range(5000, 4990, &[7; 32], 1, 5001);
    let event = MonitorEvent::Received { frame: Frame::Binary(status), abi_accepted: false };
    assert_eq!(monitor.step(states, event), MonitorAction::Receive);
    assert!(state(states, "a").online);
    monitor
}

#[test]
fn a_monitor_reconnects_whatever_ended_its_connection() {
    let losses = [
        || MonitorEvent::Disconnected,
        || MonitorEvent::ReadFailed,
        || MonitorEvent::Received { frame: Frame::Close(None), abi_accepted: false },
    ];
    for loss in losses {
        let mut states = fleet(&["a"]);
        let mut monitor = receiving(&mut states);
        assert_eq!(monitor.step(&mut states, loss()), MonitorAction::Sleep(1000));
        assert_eq!(monitor.phase, MonitorPhase::Sleeping);
        assert_eq!(monitor.ship_abi, None);
        assert!(!state(&states, "a").online);
        assert!(select_backend_server(&states, None).is_err());
        assert_eq!(monitor.step(&mut states, MonitorEvent::Awake), MonitorAction::Connect);
        // The upstream is back.
        receiving(&mut states);
        assert_eq!(select_backend_server(&states, None), Ok("a".to_string()));
    }
}

#[test]
fn a_monitor_stops_for_good() {
    let mut states = fleet(&["a"]);
    let (mut monitor, _) = UpstreamMonitor::new("a".to_string(), 1000);
    assert_eq!(monitor.step(&mut states, MonitorEvent::Shutdown), MonitorAction::Stop);
    assert_eq!(monitor.step(&mut states, MonitorEvent::Awake), MonitorAction::Stop);
    assert_eq!(monitor.phase, MonitorPhase::Stopped);
    let mut monitor = receiving(&mut states);
    assert_eq!(monitor.step(&mut states, MonitorEvent::Shutdown), MonitorAction::Stop);
    assert_eq!(monitor.phase, MonitorPhase::Stopped);
    let (mut monitor, _) = UpstreamMonitor::new("a".to_string(), 1000);
    assert_eq!(monitor.step(&mut states, MonitorEvent::Awake), MonitorAction::Ignore);
}

#[test]
fn abis_are_checked() {
    let ctx = AbiContext::new();
    assert_eq!(ctx.check_session_abi(ABI), Ok(()));
    assert_eq!(ctx.check_monitor_abi(ABI), Ok(()));
    // The same one again, over the one that is loaded.
    assert_eq!(ctx.check_session_abi(ABI), Ok(()));
    assert_eq!(ctx.check_session_abi(""), Err(AbiError::Rejected));
    assert_eq!(ctx.check_monitor_abi("{"), Err(AbiError::Rejected));
    assert_eq!(ctx.check_session_abi("a\0b"), Err(AbiError::Rejected));
    assert_eq!(ctx.check_monitor_abi("a\0b"), Err(AbiError::Rejected));
    // What was rejected leaves no trace.
    assert_eq!(ctx.check_session_abi(ABI), Ok(()));
}
