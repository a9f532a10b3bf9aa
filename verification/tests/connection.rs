//! Upstream connections, the client link, and the idle clock.

use fleet_router::client_link::{ClientLink, MAX_PENDING_FRAMES};
use fleet_router::connection_handler::{
    begin_attempt, dec, mark_offline, read_first_abi, time_limit, Establish, EstablishStep,
    Handshake,
};
use fleet_router::frame::{extract_block_num, Frame};
use fleet_router::idle::{Idle, IdleClock};
use fleet_router::models::{build_config_db, build_state_db, Server, ServerConfigDb, ServerStateDb};
use fleet_router::protocol::{
    decode_request, encode_blocks_result_v0_with_data, encode_status_result_v0, ShipRequest,
};

fn fleet(endpoints: &[&str]) -> (ServerStateDb, ServerConfigDb) {
    let servers = || -> Vec<Server> {
        endpoints
            .iter()
            .map(|e| Server { name: format!("node {}", e), endpoint: e.to_string(), enabled: true })
            .collect()
    };
    let mut states = build_state_db(servers());
    for i in 0..states.len() {
        let mut state = *states.value_at(i);
        state.online = true;
        states.set_at(i, state);
    }
    (states, build_config_db(servers()))
}

fn connections(states: &ServerStateDb, endpoint: &str) -> usize {
    states.get(endpoint).unwrap().connections
}

fn is_online(states: &ServerStateDb, endpoint: &str) -> bool {
    states.get(endpoint).unwrap().online
}

fn request(variant: u8, start: u32) -> Vec<u8> {
    let mut bytes = vec![variant];
    bytes.extend_from_slice(&start.to_le_bytes());
    bytes.extend_from_slice(&200u32.to_le_bytes());
    bytes.extend_from_slice(&10u32.to_le_bytes());
    bytes.extend_from_slice(&[0, 0, 1, 0, 1]);
    bytes
}

#[test]
fn a_connection_is_counted_while_it_lasts() {
    let (mut states, configs) = fleet(&["h:1"]);
    let attempt = begin_attempt(&mut states, &configs, None).unwrap();
    assert_eq!(attempt.selected, "h:1");
    assert_eq!(attempt.server.ws_url(), "ws://h:1");
    assert_eq!(connections(&states, "h:1"), 1);
    let guard = attempt.succeeded();
    assert_eq!(connections(&states, "h:1"), 1);
    guard.release(&mut states);
    assert_eq!(connections(&states, "h:1"), 0);
    assert!(is_online(&states, "h:1"));
}

#[test]
fn a_failed_attempt_goes_elsewhere() {
    let (mut states, configs) = fleet(&["h:1", "h:2"]);
    let first = begin_attempt(&mut states, &configs, None).unwrap();
    let failed = first.selected.clone();
    first.failed(&mut states);
    assert_eq!(connections(&states, &failed), 0);
    assert!(!is_online(&states, &failed));
    let second = begin_attempt(&mut states, &configs, None).unwrap();
    assert_ne!(second.selected, failed);
    second.failed(&mut states);
    assert!(begin_attempt(&mut states, &configs, None).is_none());
}

#[test]
fn connections_spread_over_the_fleet() {
    let (mut states, configs) = fleet(&["h:1", "h:2"]);
    for _ in 0..20 {
        begin_attempt(&mut states, &configs, None).unwrap();
    }
    assert_eq!(connections(&states, "h:1"), 10);
    assert_eq!(connections(&states, "h:2"), 10);
}

#[test]
fn a_failover_moves_one_connection() {
    let (mut states, configs) = fleet(&["h:1", "h:2"]);
    let first = begin_attempt(&mut states, &configs, None).unwrap().succeeded();
    let lost = first.endpoint.clone();
    let second = begin_attempt(&mut states, &configs, None).unwrap().succeeded();
    first.release(&mut states);
    assert_ne!(second.endpoint, lost);
    assert_eq!(connections(&states, &lost), 0);
    assert_eq!(connections(&states, &second.endpoint), 1);
}

#[test]
fn the_counter_does_not_go_below_zero() {
    let (mut states, _) = fleet(&["h:1"]);
    dec(&mut states, "h:1");
    assert_eq!(connections(&states, "h:1"), 0);
    dec(&mut states, "unknown");
    mark_offline(&mut states, "unknown");
    assert!(is_online(&states, "h:1"));
    mark_offline(&mut states, "h:1");
    assert!(!is_online(&states, "h:1"));
}

#[test]
fn the_counter_wraps() {
    let (mut states, configs) = fleet(&["h:1"]);
    let mut state = *states.value_at(0);
    state.connections = usize::MAX;
    states.set_at(0, state);
    begin_attempt(&mut states, &configs, None).unwrap();
    assert_eq!(connections(&states, "h:1"), 0);
}

#[test]
fn an_upstream_without_configuration_is_not_dialed() {
    let (mut states, _) = fleet(&["h:1"]);
    let (_, others) = fleet(&["h:2"]);
    assert!(begin_attempt(&mut states, &others, None).is_none());
    assert_eq!(connections(&states, "h:1"), 0);
}

#[test]
fn attempts_run_out() {
    let (mut states, configs) = fleet(&["h:1"]);
    let mut establish = Establish::new(3, Some(7));
    match establish.next(&mut states, &configs) {
        EstablishStep::Dial(attempt) => attempt.failed(&mut states),
        other => panic!("expected to dial, got {:?}", other),
    }
    assert!(matches!(establish.next(&mut states, &configs), EstablishStep::Again));
    assert!(matches!(establish.next(&mut states, &configs), EstablishStep::Again));
    assert!(matches!(establish.next(&mut states, &configs), EstablishStep::GiveUp));
    assert!(matches!(establish.next(&mut states, &configs), EstablishStep::GiveUp));
}

#[test]
fn every_attempt_goes_to_another_upstream() {
    let (mut states, configs) = fleet(&["h:1", "h:2", "h:3", "h:4"]);
    let mut establish = Establish::new(3, None);
    let mut dialed = Vec::new();
    loop {
        match establish.next(&mut states, &configs) {
            EstablishStep::Dial(attempt) => {
                dialed.push(attempt.selected.clone());
                attempt.failed(&mut states);
            }
            EstablishStep::Again => panic!("an upstream is left"),
            EstablishStep::GiveUp => break,
        }
    }
    assert_eq!(dialed.len(), 3);
    for (i, endpoint) in dialed.iter().enumerate() {
        assert!(!dialed[..i].contains(endpoint));
        assert!(!is_online(&states, endpoint));
        assert_eq!(connections(&states, endpoint), 0);
    }
}

#[test]
fn connections_spread_evenly_where_they_do_not_divide() {
    let (mut states, configs) = fleet(&["h:1", "h:2", "h:3"]);
    for _ in 0..20 {
        begin_attempt(&mut states, &configs, None).unwrap();
    }
    let mut counts: Vec<usize> =
        ["h:1", "h:2", "h:3"].iter().map(|e| connections(&states, e)).collect();
    counts.sort();
    assert_eq!(counts, vec![6, 7, 7]);
}

#[test]
fn timeouts_of_zero_are_none() {
    assert_eq!(time_limit(0), None);
    assert_eq!(time_limit(250), Some(250));
}

#[test]
fn the_handshake_wants_a_text() {
    match read_first_abi(Some(Frame::Text("{}".to_string()))) {
        Handshake::Abi(abi) => assert_eq!(abi, "{}"),
        other => panic!("expected the ABI, got {:?}", other),
    }
    assert!(matches!(read_first_abi(Some(Frame::Ping(vec![1]))), Handshake::Again));
    assert!(matches!(read_first_abi(Some(Frame::Pong(vec![]))), Handshake::Again));
    assert!(matches!(read_first_abi(Some(Frame::Binary(vec![0]))), Handshake::Failed));
    assert!(matches!(read_first_abi(Some(Frame::Close(None))), Handshake::Failed));
    assert!(matches!(read_first_abi(None), Handshake::Failed));
}

#[test]
fn block_numbers_of_frames() {
    let block = encode_blocks_result_v0_with_data(1000, 990, 500, None, None, None);
    assert_eq!(extract_block_num(&Frame::Binary(block.clone())), Some(500));
    let mut v1 = block.clone();
    v1[0] = 2;
    assert_eq!(extract_block_num(&Frame::Binary(v1)), Some(500));
    let mut other = block.clone();
    other[0] = 3;
    assert_eq!(extract_block_num(&Frame::Binary(other)), None);
    let mut keep_alive = block.clone();
    keep_alive[73] = 0;
    assert_eq!(extract_block_num(&Frame::Binary(keep_alive)), None);
    let mut short = block.clone();
    short.truncate(77);
    assert_eq!(extract_block_num(&Frame::Binary(short)), None);
    let status = encode_status_result_v0(1000, 990, &[1; 32]);
    assert_eq!(extract_block_num(&Frame::Binary(status)), None);
    assert_eq!(extract_block_num(&Frame::Text("1".repeat(100))), None);
}

#[test]
fn the_latest_blocks_request_is_replayed() {
    let mut link = ClientLink::new();
    assert_eq!(link.replay(), None);
    assert_eq!(link.resume(Some(5)), None);
    link.record(&Frame::Binary(vec![0]));
    link.record(&Frame::Binary(vec![2, 1, 0, 0, 0]));
    link.record(&Frame::Binary(vec![1, 9, 9, 9]));
    link.record(&Frame::Text("hello".to_string()));
    assert_eq!(link.replay(), None);
    link.record(&Frame::Binary(request(1, 100)));
    link.record(&Frame::Binary(request(3, 300)));
    link.record(&Frame::Binary(vec![2, 1, 0, 0, 0]));
    assert_eq!(link.replay(), Some(Frame::Binary(request(3, 300))));
}

#[test]
fn a_request_resumes_behind_the_last_block() {
    let mut link = ClientLink::new();
    link.record(&Frame::Binary(request(1, 100)));
    // Nothing was seen yet: the request stays as it is.
    assert_eq!(link.resume(None), Some(100));
    assert_eq!(link.replay(), Some(Frame::Binary(request(1, 100))));
    assert_eq!(link.resume(Some(104)), Some(105));
    assert_eq!(link.replay(), Some(Frame::Binary(request(1, 105))));
    let Some(Frame::Binary(bytes)) = link.replay() else {
        panic!("no request");
    };
    assert_eq!(
        decode_request(&bytes),
        ShipRequest::GetBlocksV0 {
            start_block_num: 105,
            end_block_num: 200,
            max_messages_in_flight: 10,
            fetch_block: true,
            fetch_traces: false,
            fetch_deltas: true,
        }
    );
    assert_eq!(link.resume(Some(u32::MAX)), Some(u32::MAX));
}

#[test]
fn waiting_frames_come_out_in_order() {
    let mut link = ClientLink::new();
    assert_eq!(link.first_pending(), None);
    link.pending_sent();
    assert_eq!(link.first_pending(), None);
    for i in 0..MAX_PENDING_FRAMES {
        assert!(link.buffer(Frame::Binary((i as u32).to_le_bytes().to_vec())));
    }
    assert!(!link.buffer(Frame::Text("too late".to_string())));
    for i in 0..MAX_PENDING_FRAMES {
        let frame = Frame::Binary((i as u32).to_le_bytes().to_vec());
        // A frame waits until it was sent.
        assert_eq!(link.first_pending(), Some(frame.clone()));
        assert_eq!(link.first_pending(), Some(frame));
        link.pending_sent();
    }
    assert_eq!(link.first_pending(), None);
}

#[test]
fn a_connection_idle_on_both_sides_is_closed() {
    let mut clock = IdleClock::new(100, 1000);
    assert_eq!(clock.check(1000), Idle::Wait(100));
    assert_eq!(clock.check(1099), Idle::Wait(1));
    assert_eq!(clock.check(1100), Idle::Close);
    clock.client_active(1050);
    assert_eq!(clock.check(1100), Idle::Failover);
    assert_eq!(clock.check(1150), Idle::Close);
    // A client that only listens is not idle while the upstream sends.
    clock.upstream_active(1500);
    assert_eq!(clock.check(1599), Idle::Wait(1));
    // Time does not run backwards.
    assert_eq!(clock.check(1400), Idle::Wait(100));
}

#[test]
fn no_idle_limit() {
    let clock = IdleClock::new(0, 0);
    assert_eq!(clock.check(u64::MAX), Idle::Unlimited);
}
