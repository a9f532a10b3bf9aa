//! Whole exchanges: clients, the router and mock SHiP servers, without sockets.

use std::collections::HashSet;

use fleet_router::abi::AbiContext;
use fleet_router::client_link::ClientLink;
use fleet_router::connection_handler::{
    read_first_abi, ConnectionGuard, Establish, EstablishStep, Handshake,
};
use fleet_router::frame::{extract_block_num, Frame};
use fleet_router::health::answer_text;
use fleet_router::mock_ship::{MockAction, MockEvent, MockSession, MockShipConfig};
use fleet_router::models::{build_config_db, build_state_db, Server, ServerConfigDb, ServerStateDb};
use fleet_router::protocol::decode_varuint32;
use fleet_router::session::{Action, Event, Session, MAX_ATTEMPTS};
use fleet_router::tasks::{status_request, MonitorAction, MonitorEvent, UpstreamMonitor};

const ABI: &str = r#"{"version":"eosio::abi/1.1","types":[],"structs":[{"name":"get_status_request_v0","base":"","fields":[]},{"name":"get_status_result_v0","base":"","fields":[]}],"actions":[],"tables":[],"ricardian_clauses":[],"error_messages":[],"abi_extensions":[],"variants":[{"name":"request","types":["get_status_request_v0"]},{"name":"result","types":["get_status_result_v0"]}]}"#;

fn build_status_request() -> Vec<u8> {
    vec![0u8]
}

fn build_blocks_request(start: u32, end: u32, max_in_flight: u32) -> Vec<u8> {
    build_blocks_request_with_data(start, end, max_in_flight, false, false, false)
}

fn build_blocks_request_with_data(
    start: u32,
    end: u32,
    max_in_flight: u32,
    fetch_block: bool,
    fetch_traces: bool,
    fetch_deltas: bool,
) -> Vec<u8> {
    let mut buf = vec![1u8];
    buf.extend_from_slice(&start.to_le_bytes());
    buf.extend_from_slice(&end.to_le_bytes());
    buf.extend_from_slice(&max_in_flight.to_le_bytes());
    buf.push(0); // have_positions
    buf.push(0); // irreversible_only
    buf.push(if fetch_block { 1 } else { 0 });
    buf.push(if fetch_traces { 1 } else { 0 });
    buf.push(if fetch_deltas { 1 } else { 0 });
    buf
}

fn build_ack_request(num_messages: u32) -> Vec<u8> {
    let mut buf = vec![2u8];
    buf.extend_from_slice(&num_messages.to_le_bytes());
    buf
}

fn u32_at(data: &[u8], at: usize) -> u32 {
    u32::from_le_bytes(data[at..at + 4].try_into().unwrap())
}

// ---------------------------------------------------------------------------
// A connection to a mock server
// ---------------------------------------------------------------------------

struct Link {
    config: MockShipConfig,
    session: Option<MockSession>,
    action: MockAction,
}

impl Link {
    fn connect(config: MockShipConfig) -> Link {
        let (session, action) = MockSession::open();
        Link { config, session: Some(session), action }
    }

    fn step(&mut self, event: MockEvent) {
        let session = self.session.take().unwrap();
        assert!(session.accepts(&self.config, &event));
        let (session, action) = session.step(&self.config, event);
        self.session = Some(session);
        self.action = action;
    }

    fn send(&mut self, frame: Frame) {
        self.step(MockEvent::Received(frame));
    }

    fn waits(&self) -> bool {
        matches!(self.action, MockAction::Read)
    }

    /// The next frame of the server; `None` where the stream has ended.
    fn next(&mut self) -> Option<Frame> {
        match std::mem::replace(&mut self.action, MockAction::Ignore) {
            MockAction::SendAbi => {
                self.step(MockEvent::Sent);
                Some(Frame::Text(ABI.to_string()))
            }
            MockAction::Send { bytes, delay: _ } => {
                self.step(MockEvent::Sent);
                Some(Frame::Binary(bytes))
            }
            MockAction::End => {
                self.action = MockAction::End;
                None
            }
            other => panic!("the server waits: {:?}", other),
        }
    }

    fn next_binary(&mut self) -> Vec<u8> {
        match self.next() {
            Some(Frame::Binary(data)) => data,
            other => panic!("expected a binary frame, got {:?}", other),
        }
    }

    fn next_text(&mut self) -> String {
        match self.next() {
            Some(Frame::Text(text)) => text,
            other => panic!("expected a text frame, got {:?}", other),
        }
    }
}

// ---------------------------------------------------------------------------
// The router
// ---------------------------------------------------------------------------

struct Router {
    mocks: Vec<(String, MockShipConfig, bool)>,
    states: ServerStateDb,
    configs: ServerConfigDb,
    abi: AbiContext,
}

impl Router {
    fn start(configs: &[MockShipConfig]) -> Router {
        let mocks: Vec<(String, MockShipConfig, bool)> = configs
            .iter()
            .enumerate()
            .map(|(i, c)| (format!("127.0.0.1:{}", 8000 + i), *c, true))
            .collect();
        let servers = || -> Vec<Server> {
            mocks
                .iter()
                .map(|(e, _, _)| Server {
                    name: format!("mock {}", e),
                    endpoint: e.clone(),
                    enabled: true,
                })
                .collect()
        };
        let states = build_state_db(servers());
        let configs = build_config_db(servers());
        let mut router = Router { mocks, states, configs, abi: AbiContext::new() };
        router.poll();
        router
    }

    /// Every monitor connects and asks for the status once.
    fn poll(&mut self) {
        for (endpoint, config, alive) in &self.mocks {
            let (mut monitor, action) = UpstreamMonitor::new(endpoint.clone(), 1000);
            assert_eq!(action, MonitorAction::Connect);
            if !alive {
                monitor.step(&mut self.states, MonitorEvent::ConnectFailed);
                continue;
            }
            monitor.step(&mut self.states, MonitorEvent::Connected);
            let mut link = Link::connect(*config);
            let abi = link.next().unwrap();
            let action = monitor.frame_received(&mut self.states, &self.abi, abi);
            assert_eq!(action, MonitorAction::RequestStatus);
            link.send(status_request());
            let status = link.next().unwrap();
            monitor.frame_received(&mut self.states, &self.abi, status);
        }
    }

    /// The server is gone: its monitor sees the stream end.
    fn shut_down(&mut self, i: usize) {
        self.mocks[i].2 = false;
        let (mut monitor, _) = UpstreamMonitor::new(self.mocks[i].0.clone(), 1000);
        monitor.step(&mut self.states, MonitorEvent::Connected);
        monitor.step(&mut self.states, MonitorEvent::Disconnected);
    }

    fn mock(&self, endpoint: &str) -> (MockShipConfig, bool) {
        let (_, config, alive) = self.mocks.iter().find(|(e, _, _)| e == endpoint).unwrap();
        (*config, *alive)
    }

    fn establish(&mut self, requested: Option<u32>) -> Option<(ConnectionGuard, Link, String)> {
        let mut establish = Establish::new(MAX_ATTEMPTS, requested);
        loop {
            match establish.next(&mut self.states, &self.configs) {
                EstablishStep::GiveUp => return None,
                EstablishStep::Again => continue,
                EstablishStep::Dial(attempt) => {
                    let (config, alive) = self.mock(&attempt.server.endpoint);
                    if !alive {
                        attempt.failed(&mut self.states);
                        continue;
                    }
                    let mut link = Link::connect(config);
                    match read_first_abi(link.next()) {
                        Handshake::Abi(abi) => return Some((attempt.succeeded(), link, abi)),
                        _ => attempt.failed(&mut self.states),
                    }
                }
            }
        }
    }

    fn connections(&self) -> Vec<usize> {
        self.mocks.iter().map(|(e, _, _)| self.states.get(e).unwrap().connections).collect()
    }
}

// ---------------------------------------------------------------------------
// A client of the router
// ---------------------------------------------------------------------------

struct Client {
    session: Session,
    link: ClientLink,
    guard: Option<ConnectionGuard>,
    upstream: Option<Link>,
    fresh: Option<Link>,
    received: Vec<Frame>,
    closed: Option<(u16, String)>,
}

impl Client {
    fn connect(router: &mut Router) -> Client {
        let (session, action) = Session::open();
        let mut client = Client {
            session,
            link: ClientLink::new(),
            guard: None,
            upstream: None,
            fresh: None,
            received: Vec::new(),
            closed: None,
        };
        client.run(router, action);
        client
    }

    /// Performs actions until the upstream waits for the client or the session is over.
    fn run(&mut self, router: &mut Router, first: Action) {
        let mut action = first;
        loop {
            let event = match action {
                Action::Establish { requested_block } => match router.establish(requested_block) {
                    Some((guard, link, abi)) => {
                        if let Some(old) = self.guard.replace(guard) {
                            old.release(&mut router.states);
                        }
                        if self.upstream.is_none() {
                            self.upstream = Some(link);
                        } else {
                            self.fresh = Some(link);
                        }
                        action = self.session.upstream_ready(&mut self.link, &router.abi, abi);
                        continue;
                    }
                    None => Event::NoUpstream,
                },
                Action::SendAbi(abi) => {
                    self.received.push(Frame::Text(abi));
                    Event::Sent
                }
                Action::Read => {
                    let upstream = self.upstream.as_mut().unwrap();
                    if upstream.waits() {
                        return;
                    }
                    match upstream.next() {
                        Some(frame) => Event::Upstream(frame),
                        None => Event::UpstreamEnded,
                    }
                }
                Action::ToClient(frame) => {
                    self.received.push(frame);
                    Event::Sent
                }
                Action::SwapAndPause => {
                    self.upstream = self.fresh.take();
                    Event::PauseOver
                }
                Action::ToUpstream(frame) => {
                    let upstream = self.upstream.as_mut().unwrap();
                    while !upstream.waits() {
                        upstream.next();
                    }
                    upstream.send(frame);
                    Event::Sent
                }
                Action::CloseClient { code, reason } => {
                    self.closed = Some((code, reason.to_string()));
                    return;
                }
                Action::End => return,
                Action::Ignore => panic!("an event out of turn"),
            };
            action = self.session.step(&mut self.link, event);
        }
    }

    fn send(&mut self, router: &mut Router, bytes: Vec<u8>) {
        let frame = Frame::Binary(bytes);
        self.link.record(&frame);
        self.upstream.as_mut().unwrap().send(frame);
        self.run(router, Action::Read);
    }

    fn disconnect(mut self, router: &mut Router) {
        self.session.step(&mut self.link, Event::ClientGone);
        if let Some(guard) = self.guard.take() {
            guard.release(&mut router.states);
        }
    }

    fn binaries(&self) -> Vec<&Vec<u8>> {
        self.received
            .iter()
            .filter_map(|f| match f {
                Frame::Binary(data) => Some(data),
                _ => None,
            })
            .collect()
    }

    fn blocks(&self) -> Vec<u32> {
        self.received.iter().filter_map(extract_block_num).collect()
    }

    /// The head that the upstream reports.
    fn head(&mut self, router: &mut Router) -> u32 {
        let before = self.binaries().len();
        self.send(router, build_status_request());
        let data = self.binaries()[before].clone();
        assert_eq!(data[0], 0);
        u32_at(&data, 1)
    }
}

fn mock(head: u32) -> MockShipConfig {
    MockShipConfig {
        head_block: head,
        lib_block: head - 10,
        blocks_to_stream: 0,
        ..Default::default()
    }
}

// ---------------------------------------------------------------------------
// A mock server on its own
// ---------------------------------------------------------------------------

#[test]
fn test_mock_connect_and_receive_abi() {
    let mut link = Link::connect(MockShipConfig::default());
    let text = link.next_text();
    let abi: serde_json::Value = serde_json::from_str(&text).expect("ABI is not valid JSON");
    assert_eq!(abi["version"], "eosio::abi/1.1");
    assert!(abi["structs"].is_array());
    assert!(abi["variants"].is_array());
}

#[test]
fn test_mock_status_request() {
    let config = MockShipConfig { head_block: 5000, lib_block: 4990, ..Default::default() };
    let mut link = Link::connect(config);
    link.next_text();
    link.send(Frame::Binary(vec![0u8]));
    let data = link.next_binary();
    assert_eq!(data[0], 0, "Expected result variant 0");
    assert_eq!(u32_at(&data, 1), 5000);
    assert_eq!(u32_at(&data, 37), 4990);
}

#[test]
fn test_mock_block_streaming() {
    let config = MockShipConfig {
        head_block: 1000,
        lib_block: 990,
        blocks_to_stream: 5,
        ..Default::default()
    };
    let mut link = Link::connect(config);
    link.next_text();
    link.send(Frame::Binary(build_blocks_request(100, 200, 5)));
    let mut received_blocks = Vec::new();
    for _ in 0..5 {
        let data = link.next_binary();
        assert_eq!(data[0], 1);
        assert_eq!(data[73], 1, "this_block should be present");
        received_blocks.push(u32_at(&data, 74));
    }
    assert_eq!(received_blocks, vec![100, 101, 102, 103, 104]);
    assert!(link.waits());
}

#[test]
fn test_mock_disconnect_after() {
    let config = MockShipConfig {
        head_block: 1000,
        lib_block: 990,
        disconnect_after: Some(3),
        blocks_to_stream: 100,
        ..Default::default()
    };
    let mut link = Link::connect(config);
    link.next_text();
    link.send(Frame::Binary(build_blocks_request(100, 200, 10)));
    let mut count = 0;
    while let Some(frame) = link.next() {
        if matches!(frame, Frame::Binary(_)) {
            count += 1;
        }
    }
    assert_eq!(count, 3, "Expected exactly 3 blocks before disconnect");
}

#[test]
fn test_multiple_mock_servers() {
    for i in 0..3 {
        let config = MockShipConfig {
            head_block: 1000 + i * 100,
            lib_block: 990 + i * 100,
            ..Default::default()
        };
        let mut link = Link::connect(config);
        link.next_text();
        link.send(Frame::Binary(vec![0u8]));
        let data = link.next_binary();
        assert_eq!(u32_at(&data, 1), 1000 + i * 100);
    }
}

#[test]
fn mock_defaults() {
    let config = MockShipConfig::default();
    assert_eq!(config.port, 0);
    assert_eq!(config.head_block, 1000);
    assert_eq!(config.lib_block, 990);
    assert_eq!(config.blocks_to_stream, 100);
    assert_eq!(config.block_delay, None);
    assert_eq!(config.disconnect_after, None);
    assert_eq!(config.chain_id, [0u8; 32]);
    assert_eq!(config.block_data_size, 0);
    assert_eq!(config.trace_begin_block, 1);
    assert_eq!(config.trace_end_block, 0);
}

#[test]
fn mock_reports_its_range() {
    let config = MockShipConfig {
        trace_begin_block: 50,
        trace_end_block: 60,
        chain_id: [9; 32],
        ..Default::default()
    };
    let mut link = Link::connect(config);
    link.next_text();
    link.send(Frame::Binary(vec![4u8]));
    let data = link.next_binary();
    assert_eq!(u32_at(&data, 73), 50);
    assert_eq!(u32_at(&data, 77), 60);
    assert_eq!(u32_at(&data, 85), 1001);
    assert_eq!(data[89..], [9; 32]);
    link.send(Frame::Binary(vec![9u8]));
    assert!(link.waits());
    link.send(Frame::Ping(vec![]));
    assert!(link.waits());
    link.send(Frame::Close(None));
    assert!(matches!(link.action, MockAction::End));
}

#[test]
fn mock_delays_its_blocks() {
    let delay = std::time::Duration::from_millis(7);
    let config = MockShipConfig { block_delay: Some(delay), ..Default::default() };
    let mut link = Link::connect(config);
    link.next_text();
    link.send(Frame::Binary(build_blocks_request(1, 2, 1)));
    match &link.action {
        MockAction::Send { delay: d, .. } => assert_eq!(*d, Some(delay)),
        other => panic!("expected a block, got {:?}", other),
    }
    link.step(MockEvent::SendFailed);
    assert!(matches!(link.action, MockAction::End));
}

#[test]
fn mock_refuses_what_it_cannot_count() {
    let config = MockShipConfig { head_block: u32::MAX, ..Default::default() };
    let mut link = Link::connect(config);
    link.next_text();
    let session = link.session.as_ref().unwrap();
    let received = |bytes: Vec<u8>| MockEvent::Received(Frame::Binary(bytes));
    assert!(!session.accepts(&config, &received(vec![0])));
    assert!(!session.accepts(&config, &received(vec![0xff; 6])));
    assert!(session.accepts(&config, &received(build_ack_request(u32::MAX))));
    link.send(Frame::Binary(build_ack_request(u32::MAX)));
    let session = link.session.as_ref().unwrap();
    assert!(!session.accepts(&config, &received(build_ack_request(1))));
    assert!(session.accepts(&config, &MockEvent::StreamEnded));
    link.step(MockEvent::StreamEnded);
    assert!(matches!(link.action, MockAction::End));
}

// ---------------------------------------------------------------------------
// Conformance
// ---------------------------------------------------------------------------

#[test]
fn conformance_status_response_mock() {
    let config = MockShipConfig { head_block: 5000, lib_block: 4990, ..Default::default() };
    let mut link = Link::connect(config);
    link.next_text();
    link.send(Frame::Binary(build_status_request()));
    let data = link.next_binary();
    assert!(data.len() >= 89, "Status result too short: {} bytes (need >= 89)", data.len());
    assert_eq!(data[0], 0, "Expected result variant 0 (status_result_v0)");
    let head_block = u32_at(&data, 1);
    assert!(head_block > 0);
    assert!(data[5..37].iter().any(|&b| b != 0), "Head block ID should not be all zeros");
    let lib_block = u32_at(&data, 37);
    assert!(lib_block <= head_block);
    assert!(u32_at(&data, 77) >= u32_at(&data, 73));
}

#[test]
fn conformance_block_streaming_mock() {
    let (start, count, max_in_flight) = (100u32, 10u32, 5u32);
    let mut link = Link::connect(mock(1000));
    link.next_text();
    link.send(Frame::Binary(build_blocks_request(start, start + count, max_in_flight)));
    let mut received: Vec<u32> = Vec::new();
    let mut credits_remaining = max_in_flight;
    for _ in 0..count {
        let data = link.next_binary();
        assert_eq!(data[0], 1, "Expected result variant 1 (blocks_result_v0)");
        assert_eq!(data[73], 1, "this_block optional flag should be 1 (present)");
        received.push(u32_at(&data, 74));
        credits_remaining -= 1;
        if credits_remaining == 0 && received.len() < count as usize {
            assert!(link.waits());
            link.send(Frame::Binary(build_ack_request(max_in_flight)));
            credits_remaining = max_in_flight;
        }
    }
    let expected: Vec<u32> = (start..start + count).collect();
    assert_eq!(received, expected);
}

#[test]
fn conformance_flow_control_mock() {
    let mut link = Link::connect(mock(1000));
    link.next_text();
    link.send(Frame::Binary(build_status_request()));
    let head = u32_at(&link.next_binary(), 1);
    assert!(head >= 3);
    let start: u32 = 2;
    link.send(Frame::Binary(build_blocks_request(start, start + 100, 2)));
    let mut nums = vec![u32_at(&link.next_binary(), 74), u32_at(&link.next_binary(), 74)];
    // The server pauses.
    assert!(link.waits());
    link.send(Frame::Binary(build_ack_request(1)));
    nums.push(u32_at(&link.next_binary(), 74));
    assert!(link.waits());
    assert_eq!(nums, vec![start, start + 1, start + 2]);
}

#[test]
fn acknowledgements_add_up() {
    let mut link = Link::connect(mock(1000));
    link.next_text();
    link.send(Frame::Binary(build_blocks_request(10, 17, 2)));
    let mut nums = vec![u32_at(&link.next_binary(), 74), u32_at(&link.next_binary(), 74)];
    assert!(link.waits());
    for (credit, blocks) in [(0, 0), (3, 3), (1, 1), (5, 1), (9, 0)] {
        link.send(Frame::Binary(build_ack_request(credit)));
        for _ in 0..blocks {
            nums.push(u32_at(&link.next_binary(), 74));
        }
        assert!(link.waits());
    }
    assert_eq!(nums, vec![10, 11, 12, 13, 14, 15, 16]);
}

#[test]
fn conformance_block_positions_mock() {
    let mut link = Link::connect(mock(1000));
    link.next_text();
    link.send(Frame::Binary(build_status_request()));
    let status = link.next_binary();
    link.send(Frame::Binary(build_blocks_request(2, 3, 1)));
    let block = link.next_binary();
    assert!(u32_at(&block, 1) >= u32_at(&status, 1));
    assert!(u32_at(&block, 37) <= u32_at(&block, 1));
    assert!(u32_at(&block, 37) >= u32_at(&status, 37));
}

#[test]
fn conformance_multiple_status_mock() {
    let mut link = Link::connect(MockShipConfig::default());
    link.next_text();
    for i in 0..3 {
        link.send(Frame::Binary(build_status_request()));
        let data = link.next_binary();
        assert_eq!(data[0], 0, "Request {}: variant must be 0", i);
        assert!(u32_at(&data, 1) > 0, "Request {}: head should be >0", i);
    }
}

#[test]
fn stress_block_data_present_mock() {
    let data_size = 4096;
    let config = MockShipConfig { block_data_size: data_size, ..mock(5000) };
    let mut link = Link::connect(config);
    link.next_text();
    let start = 100u32;
    let count = 5u32;
    let request = build_blocks_request_with_data(start, start + count, count, true, true, true);
    link.send(Frame::Binary(request));
    for i in 0..count {
        let data = link.next_binary();
        assert_eq!(data[0], 1);
        assert_eq!(data[73], 1, "this_block should be present");
        assert_eq!(u32_at(&data, 74), start + i);
        let mut offset = 110;
        assert_eq!(data[offset], 1, "prev_block should be present");
        offset += 1 + 36;
        for (what, seed) in [("block", 0), ("traces", 1000), ("deltas", 2000)] {
            assert_eq!(data[offset], 1, "{} data should be present", what);
            offset += 1;
            let (len, consumed) = decode_varuint32(&data[offset..offset + 5]);
            assert_eq!(len as usize, data_size, "{} data size mismatch", what);
            offset += consumed;
            assert_eq!(u32_at(&data, offset), start + i + seed);
            offset += len as usize;
        }
        assert_eq!(offset, data.len());
    }
}

#[test]
fn stress_large_payload_throughput_mock() {
    let block_count = 200u32;
    let data_size = 262_144;
    let config = MockShipConfig { block_data_size: data_size, ..mock(10000) };
    let mut link = Link::connect(config);
    link.next_text();
    let max_in_flight = 50u32;
    let request =
        build_blocks_request_with_data(1, 1 + block_count, max_in_flight, true, true, true);
    link.send(Frame::Binary(request));
    let mut total_bytes: u64 = 0;
    let mut credits_remaining = max_in_flight;
    for i in 0..block_count {
        let data = link.next_binary();
        total_bytes += data.len() as u64;
        assert_eq!(u32_at(&data, 74), 1 + i, "Out-of-order block");
        credits_remaining -= 1;
        if credits_remaining == 0 && i + 1 < block_count {
            link.send(Frame::Binary(build_ack_request(max_in_flight)));
            credits_remaining = max_in_flight;
        }
    }
    assert!(total_bytes > 100_000_000, "Expected >100MB total, got {} bytes", total_bytes);
}

#[test]
fn stress_concurrent_heavy_clients_mock() {
    let num_clients = 10u32;
    let blocks_per_client = 50u32;
    let data_size = 8192;
    let mut links = Vec::new();
    for client_id in 0..num_clients {
        let config = MockShipConfig { block_data_size: data_size, ..mock(10000) };
        let mut link = Link::connect(config);
        link.next_text();
        let start = client_id * blocks_per_client + 1;
        let end = start + blocks_per_client;
        let request =
            build_blocks_request_with_data(start, end, blocks_per_client, true, true, true);
        link.send(Frame::Binary(request));
        links.push(link);
    }
    // The clients take turns.
    let mut received = vec![0u32; links.len()];
    let mut total_bytes = 0usize;
    for i in 0..blocks_per_client {
        for (client_id, link) in links.iter_mut().enumerate() {
            let data = link.next_binary();
            assert_eq!(u32_at(&data, 74), client_id as u32 * blocks_per_client + 1 + i);
            total_bytes += data.len();
            received[client_id] += 1;
        }
    }
    for (client_id, link) in links.iter().enumerate() {
        assert_eq!(
            received[client_id], blocks_per_client,
            "Client {} didn't receive all blocks",
            client_id
        );
        assert!(link.waits());
    }
    assert!(total_bytes > 10 * 50 * 3 * 8192);
}

// ---------------------------------------------------------------------------
// Through the router
// ---------------------------------------------------------------------------

#[test]
fn e2e_proxy_receives_abi() {
    let mut router = Router::start(&[MockShipConfig::default()]);
    let client = Client::connect(&mut router);
    assert_eq!(client.received, vec![Frame::Text(ABI.to_string())]);
}

#[test]
fn e2e_proxy_status_request() {
    let mut router = Router::start(&[mock(5000)]);
    let mut client = Client::connect(&mut router);
    assert_eq!(client.head(&mut router), 5000, "Head block should be 5000");
}

#[test]
fn e2e_proxy_block_streaming() {
    let mut router = Router::start(&[mock(1000)]);
    let mut client = Client::connect(&mut router);
    client.send(&mut router, build_blocks_request(100, 105, 5));
    for data in client.binaries() {
        assert_eq!(data[0], 1, "Expected blocks_result_v0");
        assert_eq!(data[73], 1, "this_block should be present");
    }
    assert_eq!(client.blocks(), vec![100, 101, 102, 103, 104]);
}

#[test]
fn e2e_proxy_multiple_clients() {
    let mut router = Router::start(&[mock(2000)]);
    let mut clients: Vec<Client> = (0..3).map(|_| Client::connect(&mut router)).collect();
    for client in clients.iter_mut() {
        assert!(matches!(client.received[0], Frame::Text(_)), "Expected ABI");
        assert_eq!(client.head(&mut router), 2000);
    }
    assert_eq!(router.connections(), vec![3]);
}

#[test]
fn e2e_proxy_multiple_upstreams() {
    let mut router = Router::start(&[mock(3000), mock(4000)]);
    let mut heads_seen = HashSet::new();
    for _ in 0..6 {
        let mut client = Client::connect(&mut router);
        heads_seen.insert(client.head(&mut router));
        client.disconnect(&mut router);
    }
    assert!(!heads_seen.is_empty());
    for &head in &heads_seen {
        assert!(head == 3000 || head == 4000, "Unexpected head block {}", head);
    }
    assert_eq!(router.connections(), vec![0, 0]);
}

#[test]
fn e2e_proxy_flow_control() {
    let mut router = Router::start(&[mock(1000)]);
    let mut client = Client::connect(&mut router);
    client.send(&mut router, build_blocks_request(10, 100, 2));
    assert_eq!(client.blocks(), vec![10, 11]);
    client.send(&mut router, build_ack_request(3));
    assert_eq!(client.blocks(), vec![10, 11, 12, 13, 14]);
}

#[test]
fn e2e_proxy_load_balancing_distribution() {
    let mut router = Router::start(&[mock(3000), mock(4000)]);
    let num_clients: u32 = 20;
    let mut clients = Vec::new();
    let mut heads = Vec::new();
    for _ in 0..num_clients {
        let mut client = Client::connect(&mut router);
        heads.push(client.head(&mut router));
        clients.push(client);
    }
    let min_expected = num_clients / 4;
    let count_3000 = heads.iter().filter(|h| **h == 3000).count() as u32;
    let count_4000 = heads.iter().filter(|h| **h == 4000).count() as u32;
    assert!(count_3000 >= min_expected, "Upstream 3000 got {} connections", count_3000);
    assert!(count_4000 >= min_expected, "Upstream 4000 got {} connections", count_4000);
    assert_eq!(router.connections(), vec![10, 10]);
}

#[test]
fn e2e_proxy_failover() {
    let mut router = Router::start(&[mock(5000), mock(6000)]);
    router.shut_down(0);
    for _ in 0..5 {
        let mut client = Client::connect(&mut router);
        assert_eq!(
            client.head(&mut router),
            6000,
            "After failover, should route to surviving upstream"
        );
        client.disconnect(&mut router);
    }
}

#[test]
fn an_upstream_that_just_died_is_passed_over() {
    let mut router = Router::start(&[mock(5000), mock(6000)]);
    // Its monitor has not noticed yet.
    router.mocks[0].2 = false;
    let mut client = Client::connect(&mut router);
    assert_eq!(client.head(&mut router), 6000);
    assert_eq!(router.connections(), vec![0, 1]);
    assert!(!router.states.get("127.0.0.1:8000").unwrap().online);
}

#[test]
fn no_upstream_at_all() {
    let mut router = Router::start(&[mock(5000)]);
    router.shut_down(0);
    let client = Client::connect(&mut router);
    assert_eq!(client.closed, Some((1011, "No upstream server available".to_string())));
    assert!(client.received.is_empty());
    assert_eq!(router.connections(), vec![0]);
}

#[test]
fn e2e_proxy_sustained_streaming() {
    let total_blocks = 500u32;
    let mut router = Router::start(&[mock(total_blocks + 100)]);
    for _ in 0..3 {
        let mut client = Client::connect(&mut router);
        client.send(&mut router, build_blocks_request(1, 1 + total_blocks, total_blocks));
        let received = client.blocks();
        for window in received.windows(2) {
            assert!(window[1] > window[0], "{} followed by {}", window[0], window[1]);
        }
        assert_eq!(received.len(), total_blocks as usize, "Not all blocks received");
    }
}

#[test]
fn e2e_proxy_concurrent_scaling() {
    let config = |head| MockShipConfig { block_data_size: 1024, ..mock(head) };
    let mut router = Router::start(&[config(7000), config(8000)]);
    let mut clients: Vec<Client> = (0..50).map(|_| Client::connect(&mut router)).collect();
    for client in clients.iter_mut() {
        client.send(&mut router, build_blocks_request(1, 21, 20));
        assert_eq!(client.binaries().len(), 20);
    }
    assert_eq!(router.connections(), vec![25, 25]);
}

/// A covers the requested blocks and drops every connection after three of them; B does
/// not cover them. The client always goes back to A and gets every block once.
#[test]
fn e2e_proxy_range_aware_routing() {
    let config_a = MockShipConfig {
        disconnect_after: Some(3),
        trace_begin_block: 1,
        trace_end_block: 5001,
        ..mock(5000)
    };
    let config_b = MockShipConfig {
        trace_begin_block: 5001,
        trace_end_block: 10001,
        ..mock(10000)
    };
    let mut router = Router::start(&[config_a, config_b]);
    let mut client = Client::connect(&mut router);
    client.send(&mut router, build_blocks_request(500, 600, 10));
    let after_first = client.binaries().len();
    assert!(after_first >= 3);
    let heads: HashSet<u32> =
        client.binaries().iter().filter(|d| d[0] == 1).map(|d| u32_at(d, 1)).collect();
    assert!(!heads.contains(&10000), "Should NOT route to upstream B");
    let expected: Vec<u32> = (500..500 + client.blocks().len() as u32).collect();
    assert_eq!(client.blocks(), expected);
    assert_eq!(client.blocks().len(), 100);
}

/// A covers the requested blocks and drops every connection after five of them, B does
/// not cover them, C does. The client never gets a block from B.
#[test]
fn e2e_proxy_failover_to_range_valid() {
    let config_a = MockShipConfig {
        disconnect_after: Some(5),
        trace_begin_block: 1,
        trace_end_block: 5001,
        ..mock(5000)
    };
    let config_b = MockShipConfig {
        trace_begin_block: 8001,
        trace_end_block: 12001,
        ..mock(12000)
    };
    let config_c = MockShipConfig {
        trace_begin_block: 1,
        trace_end_block: 6001,
        ..mock(6000)
    };
    let mut router = Router::start(&[config_a, config_b, config_c]);
    let mut client = Client::connect(&mut router);
    client.send(&mut router, build_blocks_request(100, 1000, 100));
    let heads: Vec<u32> =
        client.binaries().iter().filter(|d| d[0] == 1).map(|d| u32_at(d, 1)).collect();
    assert!(!heads.contains(&12000), "Failover should NOT route to upstream B");
    assert!(heads.len() >= 5);
    let expected: Vec<u32> = (100..100 + client.blocks().len() as u32).collect();
    assert_eq!(client.blocks(), expected);
    // The first upstream was A; the connection moved on to C.
    assert_eq!(heads[..5], [5000; 5]);
    assert_eq!(heads[5], 6000);
    assert_eq!(router.connections(), vec![0, 0, 1]);
}

#[test]
fn metrics_endpoint_serves_health_ready_and_metrics() {
    let router = Router::start(&[mock(1000)]);
    let health = answer_text("GET /health HTTP/1.1", &router.states);
    assert!(health.starts_with("HTTP/1.1 200 OK"));
    let body = answer_text("GET /metrics HTTP/1.1", &router.states);
    assert!(body.contains("fleet_router_up"), "missing fleet_router_up: {}", body);
    assert!(body.contains("fleet_router_active_connections"));
    assert!(body.contains("127.0.0.1:8000"));
    let ready = answer_text("GET /ready HTTP/1.1", &router.states);
    assert!(ready.starts_with("HTTP/1.1 200 OK"), "/ready never reported an online upstream");
}
