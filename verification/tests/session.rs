//! The decisions of a client session.

use fleet_router::abi::AbiContext;
use fleet_router::client_link::ClientLink;
use fleet_router::frame::Frame;
use fleet_router::protocol::{encode_blocks_result_v0_with_data, encode_status_result_v0};
use fleet_router::session::{
    Action, Event, Phase, Session, CLOSE_AWAY, CLOSE_ERROR, MAX_ATTEMPTS, REASON_NO_FAILOVER,
    REASON_NO_UPSTREAM, REASON_SHUTDOWN, SWAP_PAUSE_MS,
};

const ABI: &str = r#"{"version":"eosio::abi/1.1","types":[],"structs":[{"name":"empty","base":"","fields":[]}],"actions":[],"tables":[],"ricardian_clauses":[],"error_messages":[],"abi_extensions":[],"variants":[{"name":"request","types":["empty"]}]}"#;

fn block(n: u32) -> Frame {
    Frame::Binary(encode_blocks_result_v0_with_data(1000, 990, n, None, None, None))
}

fn status() -> Frame {
    Frame::Binary(encode_status_result_v0(1000, 990, &[0; 32]))
}

fn request(start: u32) -> Frame {
    let mut bytes = vec![1u8];
    bytes.extend_from_slice(&start.to_le_bytes());
    bytes.extend_from_slice(&[0; 13]);
    Frame::Binary(bytes)
}

fn ready() -> Event {
    Event::UpstreamReady { abi: ABI.to_string(), accepted: true }
}

/// A session that relays its first upstream.
fn relaying() -> (Session, ClientLink) {
    let mut link = ClientLink::new();
    let (mut session, action) = Session::open();
    assert!(matches!(action, Action::Establish { requested_block: None }));
    match session.step(&mut link, ready()) {
        Action::SendAbi(abi) => assert_eq!(abi, ABI),
        other => panic!("expected the ABI, got {:?}", other),
    }
    assert!(matches!(session.step(&mut link, Event::Sent), Action::Read));
    (session, link)
}

/// Whether the client is sent the frame.
fn relayed(session: &mut Session, link: &mut ClientLink, frame: fn() -> Frame) -> bool {
    match session.step(link, Event::Upstream(frame())) {
        Action::ToClient(sent) => {
            assert_eq!(sent, frame());
            assert!(matches!(session.step(link, Event::Sent), Action::Read));
            true
        }
        Action::Read => false,
        other => panic!("unexpected {:?}", other),
    }
}

/// Loses the upstream and finds another one; nothing waits to be sent.
fn fail_over(session: &mut Session, link: &mut ClientLink, expected: Option<u32>) {
    match session.step(link, Event::UpstreamEnded) {
        Action::Establish { requested_block } => assert_eq!(requested_block, expected),
        other => panic!("expected a new upstream, got {:?}", other),
    }
    assert!(matches!(session.step(link, ready()), Action::SwapAndPause));
    match session.step(link, Event::PauseOver) {
        Action::ToUpstream(_) => {
            assert!(matches!(session.step(link, Event::Sent), Action::Read));
        }
        Action::Read => assert_eq!(expected, None),
        other => panic!("unexpected {:?}", other),
    }
    assert!(session.restarting);
}

#[test]
fn settings() {
    assert_eq!(MAX_ATTEMPTS, 3);
    assert_eq!(SWAP_PAUSE_MS, 100);
    assert_eq!(CLOSE_ERROR, 1011);
    assert_eq!(CLOSE_AWAY, 1001);
}

#[test]
fn without_an_upstream_the_client_is_closed() {
    let mut link = ClientLink::new();
    let (mut session, _) = Session::open();
    match session.step(&mut link, Event::NoUpstream) {
        Action::CloseClient { code, reason } => {
            assert_eq!(code, 1011);
            assert_eq!(reason, "No upstream server available");
            assert_eq!(reason, REASON_NO_UPSTREAM);
        }
        other => panic!("expected a close, got {:?}", other),
    }
    assert_eq!(session.phase, Phase::Ended);
    assert!(matches!(session.step(&mut link, ready()), Action::End));
}

#[test]
fn a_rejected_abi_ends_the_session() {
    let mut link = ClientLink::new();
    let (mut session, _) = Session::open();
    let event = Event::UpstreamReady { abi: "nonsense".to_string(), accepted: false };
    assert!(matches!(session.step(&mut link, event), Action::End));
    assert_eq!(session.phase, Phase::Ended);
}

#[test]
fn the_abi_is_checked_before_it_is_sent() {
    let ctx = AbiContext::new();
    let mut link = ClientLink::new();
    let (mut session, _) = Session::open();
    match session.upstream_ready(&mut link, &ctx, ABI.to_string()) {
        Action::SendAbi(abi) => assert_eq!(abi, ABI),
        other => panic!("expected the ABI, got {:?}", other),
    }
    let (mut session, _) = Session::open();
    let action = session.upstream_ready(&mut link, &ctx, "no ABI at all".to_string());
    assert!(matches!(action, Action::End));
}

#[test]
fn a_client_that_does_not_take_the_abi() {
    let mut link = ClientLink::new();
    let (mut session, _) = Session::open();
    session.step(&mut link, ready());
    assert!(matches!(session.step(&mut link, Event::SendFailed), Action::End));
}

#[test]
fn frames_pass_through_unchanged() {
    let (mut session, mut link) = relaying();
    assert!(relayed(&mut session, &mut link, || block(10)));
    assert_eq!(session.last_seen_block, Some(10));
    assert!(relayed(&mut session, &mut link, status));
    assert!(relayed(&mut session, &mut link, || Frame::Ping(vec![1, 2])));
    assert!(relayed(&mut session, &mut link, || Frame::Text("note".to_string())));
    assert_eq!(session.last_seen_block, Some(10));
    // A fork goes back; without a failover nothing is left out.
    assert!(relayed(&mut session, &mut link, || block(9)));
    assert_eq!(session.last_seen_block, Some(9));
}

#[test]
fn a_closing_upstream_is_replaced() {
    let (mut session, mut link) = relaying();
    link.record(&request(100));
    assert!(relayed(&mut session, &mut link, || block(100)));
    match session.step(&mut link, Event::Upstream(Frame::Close(None))) {
        Action::Establish { requested_block } => assert_eq!(requested_block, Some(101)),
        other => panic!("expected a new upstream, got {:?}", other),
    }
    // It is the same as where the stream ends without a close frame.
    let (mut other, mut other_link) = relaying();
    other_link.record(&request(100));
    assert!(relayed(&mut other, &mut other_link, || block(100)));
    other.step(&mut other_link, Event::UpstreamEnded);
    assert_eq!(session, other);
    assert_eq!(link.replay(), other_link.replay());
    // The client stays, and goes on with the new upstream.
    assert!(matches!(session.step(&mut link, ready()), Action::SwapAndPause));
    assert!(matches!(session.step(&mut link, Event::PauseOver), Action::ToUpstream(_)));
    assert!(matches!(session.step(&mut link, Event::Sent), Action::Read));
    assert!(relayed(&mut session, &mut link, || block(101)));
}

#[test]
fn the_end_of_the_client_ends_the_session() {
    let (mut session, mut link) = relaying();
    assert!(matches!(session.step(&mut link, Event::ClientGone), Action::End));
    let (mut session, mut link) = relaying();
    session.step(&mut link, Event::Upstream(block(1)));
    assert!(matches!(session.step(&mut link, Event::SendFailed), Action::End));
}

#[test]
fn shutdown_says_goodbye() {
    let (mut session, mut link) = relaying();
    match session.step(&mut link, Event::Shutdown) {
        Action::CloseClient { code, reason } => {
            assert_eq!(code, 1001);
            assert_eq!(reason, "server shutting down");
            assert_eq!(reason, REASON_SHUTDOWN);
        }
        other => panic!("expected a close, got {:?}", other),
    }
}

#[test]
fn replayed_blocks_are_left_out() {
    let (mut session, mut link) = relaying();
    link.record(&request(100));
    for frame in [|| block(100), || block(101), || block(102)] {
        assert!(relayed(&mut session, &mut link, frame));
    }
    fail_over(&mut session, &mut link, Some(103));
    assert_eq!(link.replay(), Some(request(103)));
    // The new upstream replays some blocks that the client has.
    assert!(!relayed(&mut session, &mut link, || block(101)));
    assert!(!relayed(&mut session, &mut link, || block(102)));
    // Other frames are forwarded all the while.
    assert!(relayed(&mut session, &mut link, status));
    assert!(session.restarting);
    assert!(relayed(&mut session, &mut link, || block(103)));
    assert!(!session.restarting);
    assert!(relayed(&mut session, &mut link, || block(104)));
}

#[test]
fn only_replayed_blocks_are_left_out() {
    let (mut session, mut link) = relaying();
    link.record(&request(100));
    assert!(relayed(&mut session, &mut link, || block(100)));
    fail_over(&mut session, &mut link, Some(101));
    let frames: [(fn() -> Frame, bool); 9] = [
        (status, true),
        (|| block(99), false),
        (|| Frame::Text("note".to_string()), true),
        (|| block(100), false),
        (|| Frame::Ping(vec![3]), true),
        (|| block(98), false),
        (|| block(101), true),
        // From here on nothing is left out.
        (|| block(100), true),
        (|| block(101), true),
    ];
    for (i, (frame, expected)) in frames.into_iter().enumerate() {
        assert_eq!(relayed(&mut session, &mut link, frame), expected, "frame {}", i);
    }
}

#[test]
fn before_the_first_block_nothing_is_left_out() {
    let (mut session, mut link) = relaying();
    fail_over(&mut session, &mut link, None);
    assert!(relayed(&mut session, &mut link, status));
    assert!(relayed(&mut session, &mut link, || block(0)));
    assert!(!session.restarting);
}

#[test]
fn a_failover_before_the_first_block() {
    let (mut session, mut link) = relaying();
    link.record(&request(100));
    fail_over(&mut session, &mut link, Some(100));
    assert!(relayed(&mut session, &mut link, || block(100)));
}

#[test]
fn a_failover_without_a_request() {
    let (mut session, mut link) = relaying();
    fail_over(&mut session, &mut link, None);
}

#[test]
fn the_last_block_number_is_its_own_successor() {
    let (mut session, mut link) = relaying();
    link.record(&request(5));
    assert!(relayed(&mut session, &mut link, || block(u32::MAX)));
    fail_over(&mut session, &mut link, Some(u32::MAX));
    assert!(relayed(&mut session, &mut link, || block(u32::MAX)));
}

#[test]
fn no_upstream_after_a_failover() {
    let (mut session, mut link) = relaying();
    session.step(&mut link, Event::UpstreamEnded);
    match session.step(&mut link, Event::NoUpstream) {
        Action::CloseClient { code, reason } => {
            assert_eq!(code, 1011);
            assert_eq!(reason, "no upstream available");
            assert_eq!(reason, REASON_NO_FAILOVER);
        }
        other => panic!("expected a close, got {:?}", other),
    }
    let (mut session, mut link) = relaying();
    session.step(&mut link, Event::UpstreamEnded);
    let event = Event::UpstreamReady { abi: String::new(), accepted: false };
    assert!(matches!(session.step(&mut link, event), Action::End));
}

#[test]
fn waiting_frames_follow_the_request() {
    let (mut session, mut link) = relaying();
    link.record(&request(7));
    link.buffer(Frame::Text("first".to_string()));
    link.buffer(Frame::Text("second".to_string()));
    session.step(&mut link, Event::UpstreamEnded);
    session.step(&mut link, ready());
    let mut sent = Vec::new();
    let mut action = session.step(&mut link, Event::PauseOver);
    while let Action::ToUpstream(frame) = action {
        sent.push(frame);
        action = session.step(&mut link, Event::Sent);
    }
    assert!(matches!(action, Action::Read));
    assert_eq!(
        sent,
        vec![
            request(7),
            Frame::Text("first".to_string()),
            Frame::Text("second".to_string())
        ]
    );
}

#[test]
fn waiting_frames_are_sent_without_a_request() {
    let (mut session, mut link) = relaying();
    link.buffer(Frame::Text("first".to_string()));
    link.buffer(Frame::Text("second".to_string()));
    session.step(&mut link, Event::UpstreamEnded);
    session.step(&mut link, ready());
    for expected in ["first", "second"] {
        let event = if expected == "first" { Event::PauseOver } else { Event::Sent };
        match session.step(&mut link, event) {
            Action::ToUpstream(frame) => assert_eq!(frame, Frame::Text(expected.to_string())),
            other => panic!("expected a waiting frame, got {:?}", other),
        }
    }
    assert!(matches!(session.step(&mut link, Event::Sent), Action::Read));
    assert_eq!(link.first_pending(), None);
}

#[test]
fn a_request_that_cannot_be_replayed_goes_to_another_upstream() {
    let (mut session, mut link) = relaying();
    link.record(&request(7));
    link.buffer(Frame::Text("waiting".to_string()));
    session.step(&mut link, Event::UpstreamEnded);
    session.step(&mut link, ready());
    session.step(&mut link, Event::PauseOver);
    match session.step(&mut link, Event::SendFailed) {
        Action::Establish { requested_block } => assert_eq!(requested_block, Some(7)),
        other => panic!("expected a new upstream, got {:?}", other),
    }
    assert!(matches!(session.step(&mut link, ready()), Action::SwapAndPause));
    match session.step(&mut link, Event::PauseOver) {
        Action::ToUpstream(frame) => assert_eq!(frame, request(7)),
        other => panic!("expected the request, got {:?}", other),
    }
    match session.step(&mut link, Event::Sent) {
        Action::ToUpstream(frame) => assert_eq!(frame, Frame::Text("waiting".to_string())),
        other => panic!("expected the waiting frame, got {:?}", other),
    }
}

#[test]
fn a_waiting_frame_that_cannot_be_sent_keeps_its_place() {
    let (mut session, mut link) = relaying();
    link.buffer(Frame::Text("first".to_string()));
    link.buffer(Frame::Text("second".to_string()));
    session.step(&mut link, Event::UpstreamEnded);
    session.step(&mut link, ready());
    assert!(matches!(session.step(&mut link, Event::PauseOver), Action::ToUpstream(_)));
    assert!(matches!(session.step(&mut link, Event::SendFailed), Action::Read));
    assert!(session.restarting);
    assert_eq!(link.first_pending(), Some(Frame::Text("first".to_string())));
    link.pending_sent();
    assert_eq!(link.first_pending(), Some(Frame::Text("second".to_string())));
}

#[test]
fn events_out_of_turn_are_ignored() {
    let (mut session, mut link) = relaying();
    let before = session;
    assert!(matches!(session.step(&mut link, Event::PauseOver), Action::Ignore));
    assert!(matches!(session.step(&mut link, Event::Sent), Action::Ignore));
    assert!(matches!(session.step(&mut link, ready()), Action::Ignore));
    assert_eq!(session, before);
}
